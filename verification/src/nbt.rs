//! Tagged values attached to item stacks.
use vstd::prelude::*;

verus! {

/// A tagged value. Floating-point payloads are held as their IEEE-754 bit patterns.
#[derive(Debug)]
pub enum Value {
    Byte(i8),
    Short(i16),
    Int(i32),
    Long(i64),
    /// The bits of an `f32`.
    Float(u32),
    /// The bits of an `f64`.
    Double(u64),
    ByteArray(Vec<i8>),
    Str(String),
    List(Vec<Value>),
    Compound(Compound),
    IntArray(Vec<i32>),
    LongArray(Vec<i64>),
}

/// A collection of named values. A name that occurs twice is read from its first entry.
#[derive(Debug)]
pub struct Compound {
    pub entries: Vec<(String, Value)>,
}

/// The mathematical content of a [`Value`].
pub enum ValueModel {
    Byte(i8),
    Short(i16),
    Int(i32),
    Long(i64),
    Float(u32),
    Double(u64),
    ByteArray(Seq<i8>),
    Str(Seq<char>),
    List(Seq<ValueModel>),
    Compound(Seq<(Seq<char>, ValueModel)>),
    IntArray(Seq<i32>),
    LongArray(Seq<i64>),
}

/// The content of a value.
pub open spec fn model(v: Value) -> ValueModel
    decreases v, 0nat,
{
    match v {
        Value::Byte(b) => ValueModel::Byte(b),
        Value::Short(b) => ValueModel::Short(b),
        Value::Int(b) => ValueModel::Int(b),
        Value::Long(b) => ValueModel::Long(b),
        Value::Float(b) => ValueModel::Float(b),
        Value::Double(b) => ValueModel::Double(b),
        Value::ByteArray(a) => ValueModel::ByteArray(a@),
        Value::Str(s) => ValueModel::Str(s@),
        Value::List(l) => ValueModel::List(models(l@)),
        Value::Compound(c) => ValueModel::Compound(entry_models(c.entries@)),
        Value::IntArray(a) => ValueModel::IntArray(a@),
        Value::LongArray(a) => ValueModel::LongArray(a@),
    }
}

/// The contents of a sequence of values.
pub open spec fn models(s: Seq<Value>) -> Seq<ValueModel>
    decreases s, 1nat,
{
    if s.len() == 0 {
        Seq::empty()
    } else {
        models(s.subrange(0, s.len() - 1)).push(model(s[s.len() - 1]))
    }
}

/// The contents of a sequence of named values.
pub open spec fn entry_models(s: Seq<(String, Value)>) -> Seq<(Seq<char>, ValueModel)>
    decreases s, 1nat,
{
    if s.len() == 0 {
        Seq::empty()
    } else {
        entry_models(s.subrange(0, s.len() - 1)).push(
            (s[s.len() - 1].0@, model(s[s.len() - 1].1)),
        )
    }
}

impl View for Value {
    type V = ValueModel;

    open spec fn view(&self) -> ValueModel {
        model(*self)
    }
}

impl View for Compound {
    type V = Seq<(Seq<char>, ValueModel)>;

    open spec fn view(&self) -> Seq<(Seq<char>, ValueModel)> {
        entry_models(self.entries@)
    }
}

pub proof fn lemma_models(s: Seq<Value>)
    ensures
        models(s).len() == s.len(),
        forall|i: int| 0 <= i < s.len() ==> #[trigger] models(s)[i] == model(s[i]),
    decreases s.len(),
{
    if s.len() > 0 {
        lemma_models(s.subrange(0, s.len() - 1));
    }
}

pub proof fn lemma_entry_models(s: Seq<(String, Value)>)
    ensures
        entry_models(s).len() == s.len(),
        forall|i: int|
            0 <= i < s.len() ==> #[trigger] entry_models(s)[i] == (s[i].0@, model(s[i].1)),
    decreases s.len(),
{
    if s.len() > 0 {
        lemma_entry_models(s.subrange(0, s.len() - 1));
    }
}

/// The value stored under `key` in `entries`: the first entry with that name.
pub open spec fn lookup(entries: Seq<(Seq<char>, ValueModel)>, key: Seq<char>) -> Option<
    ValueModel,
>
    decreases entries.len(),
{
    if entries.len() == 0 {
        None
    } else if entries[0].0 == key {
        Some(entries[0].1)
    } else {
        lookup(entries.drop_first(), key)
    }
}

/// `key` names some entry of `entries`.
pub open spec fn has_key(entries: Seq<(Seq<char>, ValueModel)>, key: Seq<char>) -> bool {
    exists|i: int| 0 <= i < entries.len() && entries[i].0 == key
}

pub proof fn lemma_lookup_none(entries: Seq<(Seq<char>, ValueModel)>, key: Seq<char>)
    ensures
        lookup(entries, key) is None <==> !has_key(entries, key),
    decreases entries.len(),
{
    if entries.len() > 0 {
        lemma_lookup_none(entries.drop_first(), key);
        if entries[0].0 != key {
            if has_key(entries, key) {
                let i = choose|i: int| 0 <= i < entries.len() && entries[i].0 == key;
                assert(entries.drop_first()[i - 1].0 == key);
            }
        }
    }
}

proof fn lemma_lookup_split(entries: Seq<(Seq<char>, ValueModel)>, i: int, key: Seq<char>)
    requires
        0 <= i <= entries.len(),
        forall|j: int| 0 <= j < i ==> entries[j].0 != key,
    ensures
        lookup(entries, key) == lookup(entries.skip(i), key),
    decreases i,
{
    if i > 0 {
        lemma_lookup_split(entries.drop_first(), i - 1, key);
        assert(entries.drop_first().skip(i - 1) =~= entries.skip(i));
    } else {
        assert(entries.skip(0) =~= entries);
    }
}

proof fn lemma_lookup_update(
    entries: Seq<(Seq<char>, ValueModel)>,
    i: int,
    v: ValueModel,
    key: Seq<char>,
)
    requires
        0 <= i < entries.len(),
        forall|j: int| 0 <= j < i ==> entries[j].0 != entries[i].0,
    ensures
        lookup(entries.update(i, (entries[i].0, v)), key) == if key == entries[i].0 {
            Some(v)
        } else {
            lookup(entries, key)
        },
    decreases i,
{
    let e2 = entries.update(i, (entries[i].0, v));
    if i > 0 {
        assert(e2.drop_first() =~= entries.drop_first().update(i - 1, (entries[i].0, v)));
        lemma_lookup_update(entries.drop_first(), i - 1, v, key);
    } else {
        assert(e2.drop_first() =~= entries.drop_first());
    }
}

proof fn lemma_lookup_push(
    entries: Seq<(Seq<char>, ValueModel)>,
    e: (Seq<char>, ValueModel),
    key: Seq<char>,
)
    requires
        lookup(entries, e.0) is None,
    ensures
        lookup(entries.push(e), key) == if key == e.0 {
            Some(e.1)
        } else {
            lookup(entries, key)
        },
    decreases entries.len(),
{
    if entries.len() > 0 {
        assert(entries.push(e).drop_first() =~= entries.drop_first().push(e));
        lemma_lookup_push(entries.drop_first(), e, key);
    } else {
        assert(entries.push(e).drop_first() =~= entries);
    }
}

/// A copy of `v`.
pub fn copy_vec<T: Copy>(v: &Vec<T>) -> (res: Vec<T>)
    ensures
        res@ == v@,
{
    let mut out: Vec<T> = Vec::new();
    let mut i: usize = 0;
    while i < v.len()
        invariant
            i <= v.len(),
            out@ == v@.take(i as int),
        decreases v.len() - i,
    {
        out.push(v[i]);
        i = i + 1;
        assert(out@ =~= v@.take(i as int));
    }
    assert(v@.take(v.len() as int) =~= v@);
    out
}

impl Value {
    /// A deep copy of this value.
    pub fn duplicate(&self) -> (res: Value)
        ensures
            res@ == self@,
        decreases *self,
    {
        match self {
            Value::Byte(b) => Value::Byte(*b),
            Value::Short(b) => Value::Short(*b),
            Value::Int(b) => Value::Int(*b),
            Value::Long(b) => Value::Long(*b),
            Value::Float(b) => Value::Float(*b),
            Value::Double(b) => Value::Double(*b),
            Value::ByteArray(v) => Value::ByteArray(copy_vec(v)),
            Value::Str(t) => Value::Str(t.clone()),
            Value::List(v) => {
                let mut out: Vec<Value> = Vec::new();
                let mut i: usize = 0;
                #[verifier::loop_isolation(false)]
                while i < v.len()
                    invariant
                        i <= v.len(),
                        out@.len() == i,
                        forall|j: int| 0 <= j < i ==> model(#[trigger] out@[j]) == model(v@[j]),
                    decreases v.len() - i,
                {
                    assert(decreases_to!(*self => *v));
                    assert(decreases_to!(*v => v@));
                    assert(decreases_to!(v@ => v@[i as int]));
                    let item = v[i].duplicate();
                    out.push(item);
                    i = i + 1;
                }
                proof {
                    lemma_models(out@);
                    lemma_models(v@);
                    assert(models(out@) =~= models(v@));
                }
                Value::List(out)
            },
            Value::Compound(c) => {
                assert(decreases_to!(*self => *c));
                Value::Compound(c.duplicate())
            },
            Value::IntArray(v) => Value::IntArray(copy_vec(v)),
            Value::LongArray(v) => Value::LongArray(copy_vec(v)),
        }
    }
}

impl Compound {
    /// The value stored under `key`.
    pub open spec fn get_spec(&self, key: Seq<char>) -> Option<ValueModel> {
        lookup(self@, key)
    }

    /// An empty compound.
    pub fn new() -> (res: Compound)
        ensures
            res@ == Seq::<(Seq<char>, ValueModel)>::empty(),
    {
        Compound { entries: Vec::new() }
    }

    /// A deep copy of this compound.
    pub fn duplicate(&self) -> (res: Compound)
        ensures
            res@ == self@,
        decreases *self,
    {
        let mut out: Vec<(String, Value)> = Vec::new();
        let mut i: usize = 0;
        while i < self.entries.len()
            invariant
                i <= self.entries.len(),
                out@.len() == i,
                forall|j: int|
                    0 <= j < i ==> (#[trigger] out@[j]).0@ == self.entries@[j].0@ && model(
                        out@[j].1,
                    ) == model(self.entries@[j].1),
            decreases self.entries.len() - i,
        {
            assert(decreases_to!(*self => self.entries@[i as int].1));
            let name = self.entries[i].0.clone();
            let item = self.entries[i].1.duplicate();
            out.push((name, item));
            i = i + 1;
        }
        proof {
            lemma_entry_models(out@);
            lemma_entry_models(self.entries@);
            assert(entry_models(out@) =~= entry_models(self.entries@));
        }
        Compound { entries: out }
    }

    /// The value stored under `key`.
    pub fn get(&self, key: &str) -> (res: Option<&Value>)
        ensures
            match res {
                Some(v) => self.get_spec(key@) == Some(v@),
                None => self.get_spec(key@) is None,
            },
    {
        let name = key.to_owned();
        let mut i: usize = 0;
        proof {
            lemma_entry_models(self.entries@);
        }
        while i < self.entries.len()
            invariant
                i <= self.entries.len(),
                name@ == key@,
                entry_models(self.entries@).len() == self.entries@.len(),
                forall|j: int|
                    0 <= j < self.entries@.len() ==> #[trigger] entry_models(self.entries@)[j] == (
                    self.entries@[j].0@,
                    model(self.entries@[j].1),
                ),
                forall|j: int| 0 <= j < i ==> self.entries@[j].0@ != key@,
            decreases self.entries.len() - i,
        {
            if self.entries[i].0 == name {
                proof {
                    lemma_lookup_split(self@, i as int, key@);
                    assert(self@.skip(i as int)[0] == self@[i as int]);
                }
                return Some(&self.entries[i].1);
            }
            i = i + 1;
        }
        proof {
            lemma_lookup_none(self@, key@);
        }
        None
    }

    /// Stores `value` under `key`, replacing what was stored there before.
    pub fn insert(&mut self, key: String, value: Value) -> (res: Option<Value>)
        ensures
            match res {
                Some(v) => old(self).get_spec(key@) == Some(v@),
                None => old(self).get_spec(key@) is None,
            },
            forall|k: Seq<char>|
                #[trigger] final(self).get_spec(k) == if k == key@ {
                    Some(value@)
                } else {
                    old(self).get_spec(k)
                },
            res is None ==> final(self)@ == old(self)@.push((key@, value@)),
            res is Some ==> exists|idx: int|
                0 <= idx < old(self)@.len() && old(self)@[idx].0 == key@ && final(self)@ == old(self)@.update(idx, (key@, value@)),
    {
        let mut i: usize = 0;
        proof {
            lemma_entry_models(self.entries@);
        }
        while i < self.entries.len()
            invariant
                i <= self.entries.len(),
                entry_models(self.entries@).len() == self.entries@.len(),
                forall|j: int|
                    0 <= j < self.entries@.len() ==> #[trigger] entry_models(self.entries@)[j] == (
                    self.entries@[j].0@,
                    model(self.entries@[j].1),
                ),
                forall|j: int| 0 <= j < i ==> self.entries@[j].0@ != key@,
                self.entries@ == old(self).entries@,
            decreases self.entries.len() - i,
        {
            if self.entries[i].0 == key {
                let ghost before = self@;
                proof {
                    lemma_lookup_split(before, i as int, key@);
                    assert(before.skip(i as int)[0] == before[i as int]);
                    assert forall|k: Seq<char>|
                        lookup(before.update(i as int, (before[i as int].0, value@)), k) == (if k
                            == key@ {
                            Some(value@)
                        } else {
                            lookup(before, k)
                        }) by {
                        lemma_lookup_update(before, i as int, value@, k);
                    }
                }
                let ghost old_entries = self.entries@;
                let (name, old_value) = self.entries.remove(i);
                self.entries.insert(i, (name, value));
                proof {
                    lemma_entry_models(self.entries@);
                    assert(self.entries@ =~= old_entries.update(
                        i as int,
                        (old_entries[i as int].0, self.entries@[i as int].1),
                    ));
                    assert(self@ =~= before.update(i as int, (before[i as int].0, value@)));
                }
                return Some(old_value);
            }
            i = i + 1;
        }
        let ghost before = self@;
        proof {
            lemma_lookup_none(before, key@);
            assert forall|k: Seq<char>|
                lookup(before.push((key@, value@)), k) == (if k == key@ {
                    Some(value@)
                } else {
                    lookup(before, k)
                }) by {
                lemma_lookup_push(before, (key@, value@), k);
            }
        }
        let ghost old_entries = self.entries@;
        self.entries.push((key, value));
        proof {
            lemma_entry_models(self.entries@);
            assert(self@ =~= before.push((key@, value@)));
        }
        None
    }
}

/// An `f32`, given by its bits, is not a number.
pub open spec fn f32_is_nan(bits: u32) -> bool {
    bits & 0x7f80_0000u32 == 0x7f80_0000u32 && bits & 0x007f_ffffu32 != 0
}

/// An `f32`, given by its bits, is zero or negative zero.
pub open spec fn f32_is_zero(bits: u32) -> bool {
    bits & 0x7fff_ffffu32 == 0
}

/// Two `f32` values, given by their bits, are equal as numbers: a NaN equals
/// nothing, not even itself, and zero equals negative zero.
pub open spec fn f32_eq(a: u32, b: u32) -> bool {
    !f32_is_nan(a) && !f32_is_nan(b) && (a == b || (f32_is_zero(a) && f32_is_zero(b)))
}

/// An `f64`, given by its bits, is not a number.
pub open spec fn f64_is_nan(bits: u64) -> bool {
    bits & 0x7ff0_0000_0000_0000u64 == 0x7ff0_0000_0000_0000u64 && bits & 0x000f_ffff_ffff_ffffu64
        != 0
}

/// An `f64`, given by its bits, is zero or negative zero.
pub open spec fn f64_is_zero(bits: u64) -> bool {
    bits & 0x7fff_ffff_ffff_ffffu64 == 0
}

/// Two `f64` values, given by their bits, are equal as numbers: a NaN equals
/// nothing, not even itself, and zero equals negative zero.
pub open spec fn f64_eq(a: u64, b: u64) -> bool {
    !f64_is_nan(a) && !f64_is_nan(b) && (a == b || (f64_is_zero(a) && f64_is_zero(b)))
}

/// `j` is the first entry of `s` named `key`.
pub open spec fn first_with_key(s: Seq<(Seq<char>, ValueModel)>, key: Seq<char>, j: int) -> bool {
    &&& 0 <= j < s.len()
    &&& s[j].0 == key
    &&& forall|t: int| 0 <= t < j ==> s[t].0 != key
}

/// Equality of tagged values as the tag type defines it: the same kind with equal
/// payloads, floating-point payloads equal as numbers, lists element by element,
/// and compounds as maps, name by name.
pub open spec fn value_eq(a: ValueModel, b: ValueModel) -> bool
    decreases a, 0nat,
{
    match (a, b) {
        (ValueModel::Byte(l), ValueModel::Byte(r)) => l == r,
        (ValueModel::Short(l), ValueModel::Short(r)) => l == r,
        (ValueModel::Int(l), ValueModel::Int(r)) => l == r,
        (ValueModel::Long(l), ValueModel::Long(r)) => l == r,
        (ValueModel::Float(l), ValueModel::Float(r)) => f32_eq(l, r),
        (ValueModel::Double(l), ValueModel::Double(r)) => f64_eq(l, r),
        (ValueModel::ByteArray(l), ValueModel::ByteArray(r)) => l == r,
        (ValueModel::Str(l), ValueModel::Str(r)) => l == r,
        (ValueModel::List(l), ValueModel::List(r)) => list_eq(l, r),
        (ValueModel::Compound(l), ValueModel::Compound(r)) => compound_eq(l, r),
        (ValueModel::IntArray(l), ValueModel::IntArray(r)) => l == r,
        (ValueModel::LongArray(l), ValueModel::LongArray(r)) => l == r,
        _ => false,
    }
}

/// Two lists hold equal values, position by position.
pub open spec fn list_eq(l: Seq<ValueModel>, r: Seq<ValueModel>) -> bool
    decreases l, 1nat,
{
    l.len() == r.len() && forall|i: int| #![trigger l[i]] 0 <= i < l.len() ==> value_eq(l[i], r[i])
}

/// Two compounds are equal as maps: they have the same names, and under each name
/// (its first entry) equal values.
pub open spec fn compound_eq(l: Seq<(Seq<char>, ValueModel)>, r: Seq<(Seq<char>, ValueModel)>) -> bool
    decreases l, 1nat,
{
    &&& forall|i: int|
        #[trigger] first_with_key(l, l[i].0, i) ==> exists|j: int|
            #[trigger] first_with_key(r, l[i].0, j) && value_eq(l[i].1, r[j].1)
    &&& forall|j: int| 0 <= j < r.len() ==> #[trigger] has_key(l, r[j].0)
}

/// When two tagged values count as equal: a floating-point value directly compared
/// is equal by its bits; anything else, including what lies inside lists and
/// compounds, as the tag type defines equality.
pub open spec fn nbt_equal_spec(a: ValueModel, b: ValueModel) -> bool {
    match (a, b) {
        (ValueModel::Float(l), ValueModel::Float(r)) => l == r,
        (ValueModel::Double(l), ValueModel::Double(r)) => l == r,
        _ => value_eq(a, b),
    }
}

fn f32_equal(a: u32, b: u32) -> (res: bool)
    ensures
        res == f32_eq(a, b),
{
    let nan_a = a & 0x7f80_0000u32 == 0x7f80_0000u32 && a & 0x007f_ffffu32 != 0;
    let nan_b = b & 0x7f80_0000u32 == 0x7f80_0000u32 && b & 0x007f_ffffu32 != 0;
    let zero_a = a & 0x7fff_ffffu32 == 0;
    let zero_b = b & 0x7fff_ffffu32 == 0;
    !nan_a && !nan_b && (a == b || (zero_a && zero_b))
}

fn f64_equal(a: u64, b: u64) -> (res: bool)
    ensures
        res == f64_eq(a, b),
{
    let nan_a = a & 0x7ff0_0000_0000_0000u64 == 0x7ff0_0000_0000_0000u64 && a
        & 0x000f_ffff_ffff_ffffu64 != 0;
    let nan_b = b & 0x7ff0_0000_0000_0000u64 == 0x7ff0_0000_0000_0000u64 && b
        & 0x000f_ffff_ffff_ffffu64 != 0;
    let zero_a = a & 0x7fff_ffff_ffff_ffffu64 == 0;
    let zero_b = b & 0x7fff_ffff_ffff_ffffu64 == 0;
    !nan_a && !nan_b && (a == b || (zero_a && zero_b))
}

fn eq_i8s(a: &Vec<i8>, b: &Vec<i8>) -> (res: bool)
    ensures
        res == (a@ == b@),
{
    if a.len() != b.len() {
        return false;
    }
    let mut i: usize = 0;
    while i < a.len()
        invariant
            i <= a.len() == b.len(),
            forall|j: int| 0 <= j < i ==> a@[j] == b@[j],
        decreases a.len() - i,
    {
        if a[i] != b[i] {
            return false;
        }
        i = i + 1;
    }
    assert(a@ =~= b@);
    true
}

fn eq_i32s(a: &Vec<i32>, b: &Vec<i32>) -> (res: bool)
    ensures
        res == (a@ == b@),
{
    if a.len() != b.len() {
        return false;
    }
    let mut i: usize = 0;
    while i < a.len()
        invariant
            i <= a.len() == b.len(),
            forall|j: int| 0 <= j < i ==> a@[j] == b@[j],
        decreases a.len() - i,
    {
        if a[i] != b[i] {
            return false;
        }
        i = i + 1;
    }
    assert(a@ =~= b@);
    true
}

fn eq_i64s(a: &Vec<i64>, b: &Vec<i64>) -> (res: bool)
    ensures
        res == (a@ == b@),
{
    if a.len() != b.len() {
        return false;
    }
    let mut i: usize = 0;
    while i < a.len()
        invariant
            i <= a.len() == b.len(),
            forall|j: int| 0 <= j < i ==> a@[j] == b@[j],
        decreases a.len() - i,
    {
        if a[i] != b[i] {
            return false;
        }
        i = i + 1;
    }
    assert(a@ =~= b@);
    true
}

/// Whether two values are equal as the tag type defines it.
fn same_value(a: &Value, b: &Value) -> (res: bool)
    ensures
        res == value_eq(a@, b@),
    decreases *a, 0nat,
{
    match (a, b) {
        (Value::Byte(l), Value::Byte(r)) => *l == *r,
        (Value::Short(l), Value::Short(r)) => *l == *r,
        (Value::Int(l), Value::Int(r)) => *l == *r,
        (Value::Long(l), Value::Long(r)) => *l == *r,
        (Value::Float(l), Value::Float(r)) => f32_equal(*l, *r),
        (Value::Double(l), Value::Double(r)) => f64_equal(*l, *r),
        (Value::ByteArray(l), Value::ByteArray(r)) => eq_i8s(l, r),
        (Value::Str(l), Value::Str(r)) => *l == *r,
        (Value::List(l), Value::List(r)) => {
            proof {
                lemma_models(l@);
                lemma_models(r@);
            }
            if l.len() != r.len() {
                assert(!list_eq(models(l@), models(r@)));
                return false;
            }
            let mut i: usize = 0;
            #[verifier::loop_isolation(false)]
            while i < l.len()
                invariant
                    i <= l.len() == r.len(),
                    forall|j: int| 0 <= j < i ==> value_eq(model(l@[j]), model(r@[j])),
                decreases l.len() - i,
            {
                assert(decreases_to!(*a => *l));
                assert(decreases_to!(*l => l@));
                assert(decreases_to!(l@ => l@[i as int]));
                if !same_value(&l[i], &r[i]) {
                    assert(models(l@)[i as int] == model(l@[i as int]));
                    assert(models(r@)[i as int] == model(r@[i as int]));
                    assert(!value_eq(models(l@)[i as int], models(r@)[i as int]));
                    assert(!list_eq(models(l@), models(r@)));
                    return false;
                }
                i = i + 1;
            }
            assert forall|j: int| 0 <= j < models(l@).len() implies #[trigger] value_eq(
                models(l@)[j],
                models(r@)[j],
            ) by {
                assert(models(l@)[j] == model(l@[j]));
                assert(models(r@)[j] == model(r@[j]));
            }
            assert(list_eq(models(l@), models(r@)));
            true
        },
        (Value::Compound(l), Value::Compound(r)) => {
            assert(decreases_to!(*a => *l));
            same_compound_entries(l, r)
        },
        (Value::IntArray(l), Value::IntArray(r)) => eq_i32s(l, r),
        (Value::LongArray(l), Value::LongArray(r)) => eq_i64s(l, r),
        _ => false,
    }
}

/// Whether entry `i` of `a` is the first one with its name.
fn is_first_name(a: &Compound, i: usize) -> (res: bool)
    requires
        i < a.entries.len(),
    ensures
        res == forall|t: int| 0 <= t < i ==> a.entries@[t].0@ != a.entries@[i as int].0@,
{
    let mut t: usize = 0;
    while t < i
        invariant
            t <= i < a.entries.len(),
            forall|u: int| 0 <= u < t ==> a.entries@[u].0@ != a.entries@[i as int].0@,
        decreases i - t,
    {
        if a.entries[t].0 == a.entries[i].0 {
            return false;
        }
        t = t + 1;
    }
    true
}

/// The first entry of `b` named `name`, if any.
fn find_name(b: &Compound, name: &String) -> (res: Option<usize>)
    ensures
        match res {
            Some(j) => j < b.entries.len() && b.entries@[j as int].0@ == name@ && forall|t: int|
                0 <= t < j ==> b.entries@[t].0@ != name@,
            None => forall|t: int| 0 <= t < b.entries.len() ==> b.entries@[t].0@ != name@,
        },
{
    let mut j: usize = 0;
    while j < b.entries.len()
        invariant
            j <= b.entries.len(),
            forall|t: int| 0 <= t < j ==> b.entries@[t].0@ != name@,
        decreases b.entries.len() - j,
    {
        if b.entries[j].0 == *name {
            return Some(j);
        }
        j = j + 1;
    }
    None
}

/// Whether two compounds are equal as maps: the same names, and under each name
/// values equal as the tag type defines it.
pub fn same_compound_entries(a: &Compound, b: &Compound) -> (res: bool)
    ensures
        res == compound_eq(a@, b@),
    decreases *a, 1nat,
{
    proof {
        lemma_entry_models(a.entries@);
        lemma_entry_models(b.entries@);
    }
    let ghost l = a@;
    let ghost r = b@;
    let mut i: usize = 0;
    #[verifier::loop_isolation(false)]
    while i < a.entries.len()
        invariant
            i <= a.entries.len(),
            forall|ii: int|
                0 <= ii < i && #[trigger] first_with_key(l, l[ii].0, ii) ==> exists|j: int|
                    #[trigger] first_with_key(r, l[ii].0, j) && value_eq(l[ii].1, r[j].1),
        decreases a.entries.len() - i,
    {
        if is_first_name(a, i) {
            match find_name(b, &a.entries[i].0) {
                None => {
                    assert(first_with_key(l, l[i as int].0, i as int));
                    assert forall|j: int| !first_with_key(r, l[i as int].0, j) by {
                        if 0 <= j < r.len() {
                            assert(r[j].0 == b.entries@[j].0@);
                        }
                    }
                    return false;
                },
                Some(j) => {
                    assert(decreases_to!(*a => a.entries));
                    assert(decreases_to!(a.entries => a.entries@));
                    assert(decreases_to!(a.entries@ => a.entries@[i as int]));
                    assert(decreases_to!(a.entries@[i as int] => a.entries@[i as int].1));
                    let equal = same_value(&a.entries[i].1, &b.entries[j].1);
                    assert(first_with_key(l, l[i as int].0, i as int));
                    assert(first_with_key(r, l[i as int].0, j as int));
                    if !equal {
                        assert forall|jj: int|
                            #[trigger] first_with_key(r, l[i as int].0, jj) implies !value_eq(
                            l[i as int].1,
                            r[jj].1,
                        ) by {
                            assert(jj == j);
                        }
                        return false;
                    }
                },
            }
        } else {
            proof {
                let t = choose|t: int| 0 <= t < i && a.entries@[t].0@ == a.entries@[i as int].0@;
                assert(l[t].0 == l[i as int].0);
                assert(!first_with_key(l, l[i as int].0, i as int));
            }
        }
        i = i + 1;
    }
    let mut j: usize = 0;
    #[verifier::loop_isolation(false)]
    while j < b.entries.len()
        invariant
            j <= b.entries.len(),
            forall|ii: int|
                #[trigger] first_with_key(l, l[ii].0, ii) ==> exists|jj: int|
                    #[trigger] first_with_key(r, l[ii].0, jj) && value_eq(l[ii].1, r[jj].1),
            forall|t: int| 0 <= t < j ==> #[trigger] has_key(l, r[t].0),
        decreases b.entries.len() - j,
    {
        match find_name(a, &b.entries[j].0) {
            None => {
                assert(!has_key(l, r[j as int].0));
                return false;
            },
            Some(k) => {
                assert(l[k as int].0 == r[j as int].0);
            },
        }
        j = j + 1;
    }
    true
}

/// Whether two tagged values are equal: the same kind with equal payloads. A
/// floating-point value compared directly is equal by its bits; lists and compounds
/// compare their contents as the tag type defines equality.
pub fn nbt_equals(a: &Value, b: &Value) -> (res: bool)
    ensures
        res == nbt_equal_spec(a@, b@),
{
    match (a, b) {
        (Value::Float(l), Value::Float(r)) => *l == *r,
        (Value::Double(l), Value::Double(r)) => *l == *r,
        _ => same_value(a, b),
    }
}

/// A tagged value, as built from a plain one.
#[derive(Debug)]
pub struct NbtValue(pub Value);

impl From<i8> for NbtValue {
    fn from(v: i8) -> (res: Self)
        ensures
            res.0@ == ValueModel::Byte(v),
    {
        NbtValue(Value::Byte(v))
    }
}

impl vstd::std_specs::convert::FromSpecImpl<i8> for NbtValue {
    open spec fn obeys_from_spec() -> bool {
        true
    }

    open spec fn from_spec(v: i8) -> Self {
        NbtValue(Value::Byte(v))
    }
}

impl From<i16> for NbtValue {
    fn from(v: i16) -> (res: Self)
        ensures
            res.0@ == ValueModel::Short(v),
    {
        NbtValue(Value::Short(v))
    }
}

impl vstd::std_specs::convert::FromSpecImpl<i16> for NbtValue {
    open spec fn obeys_from_spec() -> bool {
        true
    }

    open spec fn from_spec(v: i16) -> Self {
        NbtValue(Value::Short(v))
    }
}

impl From<i32> for NbtValue {
    fn from(v: i32) -> (res: Self)
        ensures
            res.0@ == ValueModel::Int(v),
    {
        NbtValue(Value::Int(v))
    }
}

impl vstd::std_specs::convert::FromSpecImpl<i32> for NbtValue {
    open spec fn obeys_from_spec() -> bool {
        true
    }

    open spec fn from_spec(v: i32) -> Self {
        NbtValue(Value::Int(v))
    }
}

impl From<i64> for NbtValue {
    fn from(v: i64) -> (res: Self)
        ensures
            res.0@ == ValueModel::Long(v),
    {
        NbtValue(Value::Long(v))
    }
}

impl vstd::std_specs::convert::FromSpecImpl<i64> for NbtValue {
    open spec fn obeys_from_spec() -> bool {
        true
    }

    open spec fn from_spec(v: i64) -> Self {
        NbtValue(Value::Long(v))
    }
}

impl From<String> for NbtValue {
    fn from(v: String) -> (res: Self)
        ensures
            res.0@ == ValueModel::Str(v@),
    {
        NbtValue(Value::Str(v))
    }
}

impl vstd::std_specs::convert::FromSpecImpl<String> for NbtValue {
    open spec fn obeys_from_spec() -> bool {
        true
    }

    open spec fn from_spec(v: String) -> Self {
        NbtValue(Value::Str(v))
    }
}

impl<'a> From<&'a str> for NbtValue {
    fn from(v: &'a str) -> (res: Self)
        ensures
            res.0@ == ValueModel::Str(v@),
    {
        NbtValue(Value::Str(v.to_owned()))
    }
}

/// A `String` is not determined by its characters in specifications, so `from` on a
/// `&str` is described by its own `ensures`, not by a spec-level result.
impl<'a> vstd::std_specs::convert::FromSpecImpl<&'a str> for NbtValue {
    open spec fn obeys_from_spec() -> bool {
        false
    }

    open spec fn from_spec(v: &'a str) -> Self {
        NbtValue(Value::Str(choose|s: String| s@ == v@))
    }
}

impl From<Vec<Value>> for NbtValue {
    fn from(v: Vec<Value>) -> (res: Self)
        ensures
            res.0@ == ValueModel::List(models(v@)),
    {
        NbtValue(Value::List(v))
    }
}

impl vstd::std_specs::convert::FromSpecImpl<Vec<Value>> for NbtValue {
    open spec fn obeys_from_spec() -> bool {
        true
    }

    open spec fn from_spec(v: Vec<Value>) -> Self {
        NbtValue(Value::List(v))
    }
}

impl From<Vec<i8>> for NbtValue {
    fn from(v: Vec<i8>) -> (res: Self)
        ensures
            res.0@ == ValueModel::ByteArray(v@),
    {
        NbtValue(Value::ByteArray(v))
    }
}

impl vstd::std_specs::convert::FromSpecImpl<Vec<i8>> for NbtValue {
    open spec fn obeys_from_spec() -> bool {
        true
    }

    open spec fn from_spec(v: Vec<i8>) -> Self {
        NbtValue(Value::ByteArray(v))
    }
}

impl From<Vec<i32>> for NbtValue {
    fn from(v: Vec<i32>) -> (res: Self)
        ensures
            res.0@ == ValueModel::IntArray(v@),
    {
        NbtValue(Value::IntArray(v))
    }
}

impl vstd::std_specs::convert::FromSpecImpl<Vec<i32>> for NbtValue {
    open spec fn obeys_from_spec() -> bool {
        true
    }

    open spec fn from_spec(v: Vec<i32>) -> Self {
        NbtValue(Value::IntArray(v))
    }
}

impl From<Vec<i64>> for NbtValue {
    fn from(v: Vec<i64>) -> (res: Self)
        ensures
            res.0@ == ValueModel::LongArray(v@),
    {
        NbtValue(Value::LongArray(v))
    }
}

impl vstd::std_specs::convert::FromSpecImpl<Vec<i64>> for NbtValue {
    open spec fn obeys_from_spec() -> bool {
        true
    }

    open spec fn from_spec(v: Vec<i64>) -> Self {
        NbtValue(Value::LongArray(v))
    }
}

impl From<Compound> for NbtValue {
    fn from(v: Compound) -> (res: Self)
        ensures
            res.0@ == ValueModel::Compound(v@),
    {
        NbtValue(Value::Compound(v))
    }
}

impl vstd::std_specs::convert::FromSpecImpl<Compound> for NbtValue {
    open spec fn obeys_from_spec() -> bool {
        true
    }

    open spec fn from_spec(v: Compound) -> Self {
        NbtValue(Value::Compound(v))
    }
}

impl From<NbtValue> for Value {
    fn from(v: NbtValue) -> (res: Self)
        ensures
            res == v.0,
    {
        v.0
    }
}

impl vstd::std_specs::convert::FromSpecImpl<NbtValue> for Value {
    open spec fn obeys_from_spec() -> bool {
        true
    }

    open spec fn from_spec(v: NbtValue) -> Self {
        v.0
    }
}

/// A name that occurs in `s` has a first entry.
proof fn lemma_first_exists(s: Seq<(Seq<char>, ValueModel)>, key: Seq<char>, i: int)
    requires
        0 <= i < s.len(),
        s[i].0 == key,
    ensures
        exists|j: int| first_with_key(s, key, j),
    decreases i,
{
    if exists|t: int| 0 <= t < i && s[t].0 == key {
        let t = choose|t: int| 0 <= t < i && s[t].0 == key;
        lemma_first_exists(s, key, t);
    } else {
        assert(first_with_key(s, key, i));
    }
}

/// Two compounds equal as maps are so the other way round, where the values under
/// their names compare the same both ways.
proof fn lemma_compound_eq_flip(l: Seq<(Seq<char>, ValueModel)>, r: Seq<(Seq<char>, ValueModel)>)
    requires
        compound_eq(l, r),
        forall|i: int, j: int|
            0 <= i < l.len() && 0 <= j < r.len() && #[trigger] value_eq(l[i].1, r[j].1) ==> value_eq(
                r[j].1,
                l[i].1,
            ),
    ensures
        compound_eq(r, l),
{
    assert forall|j: int| #[trigger] first_with_key(r, r[j].0, j) implies exists|i: int|
        #[trigger] first_with_key(l, r[j].0, i) && value_eq(r[j].1, l[i].1) by {
        assert(has_key(l, r[j].0));
        let i0 = choose|i: int| 0 <= i < l.len() && l[i].0 == r[j].0;
        lemma_first_exists(l, r[j].0, i0);
        let i = choose|i: int| first_with_key(l, r[j].0, i);
        assert(first_with_key(l, l[i].0, i));
        let j2 = choose|j2: int| first_with_key(r, l[i].0, j2) && value_eq(l[i].1, r[j2].1);
        if j2 < j {
            assert(r[j2].0 != r[j].0);
        } else if j < j2 {
            assert(r[j].0 != l[i].0);
        }
        assert(value_eq(r[j].1, l[i].1));
    }
    assert forall|i: int| 0 <= i < l.len() implies #[trigger] has_key(r, l[i].0) by {
        lemma_first_exists(l, l[i].0, i);
        let i1 = choose|i1: int| first_with_key(l, l[i].0, i1);
        assert(first_with_key(l, l[i1].0, i1));
        let j = choose|j: int| first_with_key(r, l[i1].0, j) && value_eq(l[i1].1, r[j].1);
        assert(r[j].0 == l[i].0);
    }
}

/// Equality of tagged values reads the same both ways.
proof fn lemma_value_eq_symmetric(a: ValueModel, b: ValueModel)
    ensures
        value_eq(a, b) == value_eq(b, a),
    decreases a,
{
    match (a, b) {
        (ValueModel::List(l), ValueModel::List(r)) => {
            assert forall|i: int| 0 <= i < l.len() && i < r.len() implies value_eq(l[i], r[i])
                == value_eq(r[i], l[i]) by {
                assert(decreases_to!(a => l));
                assert(decreases_to!(l => l[i]));
                lemma_value_eq_symmetric(l[i], r[i]);
            }
            if list_eq(l, r) {
                assert forall|i: int| 0 <= i < r.len() implies value_eq(r[i], l[i]) by {
                    assert(value_eq(l[i], r[i]));
                }
            }
            if list_eq(r, l) {
                assert forall|i: int| 0 <= i < l.len() implies value_eq(l[i], r[i]) by {
                    assert(value_eq(r[i], l[i]));
                }
            }
        },
        (ValueModel::Compound(l), ValueModel::Compound(r)) => {
            assert forall|i: int, j: int| 0 <= i < l.len() && 0 <= j < r.len() implies value_eq(
                l[i].1,
                r[j].1,
            ) == value_eq(r[j].1, l[i].1) by {
                assert(decreases_to!(a => l));
                assert(decreases_to!(l => l[i]));
                assert(decreases_to!(l[i] => l[i].1));
                lemma_value_eq_symmetric(l[i].1, r[j].1);
            }
            if compound_eq(l, r) {
                lemma_compound_eq_flip(l, r);
            }
            if compound_eq(r, l) {
                lemma_compound_eq_flip(r, l);
            }
        },
        _ => {},
    }
}

/// Tagged values compare the same both ways.
pub proof fn law_nbt_equals_symmetric(a: ValueModel, b: ValueModel)
    ensures
        nbt_equal_spec(a, b) == nbt_equal_spec(b, a),
{
    lemma_value_eq_symmetric(a, b);
}

/// A floating-point value compared directly is equal to itself, whatever its bits,
/// and a directly compared NaN or negative zero is told apart by its bits.
pub proof fn law_nbt_equals_direct_floats_by_bits(x: u32, y: u32)
    ensures
        nbt_equal_spec(ValueModel::Float(x), ValueModel::Float(y)) == (x == y),
{
}

/// Inside a list, a floating-point value is compared as a number: a NaN is unequal
/// even to itself, and zero equals negative zero.
pub proof fn law_nested_floats_as_numbers(x: u32, y: u32)
    ensures
        nbt_equal_spec(
            ValueModel::List(seq![ValueModel::Float(x)]),
            ValueModel::List(seq![ValueModel::Float(y)]),
        ) == f32_eq(x, y),
{
    let l = seq![ValueModel::Float(x)];
    let r = seq![ValueModel::Float(y)];
    assert(l[0] == ValueModel::Float(x) && r[0] == ValueModel::Float(y));
    assert(value_eq(l[0], r[0]) == f32_eq(x, y));
    if f32_eq(x, y) {
        assert(list_eq(l, r));
    }
}

} // verus!
