use doom_server::nbt::{nbt_equals, Compound, NbtValue, Value};

fn compound(entries: Vec<(&str, Value)>) -> Compound {
    let mut c = Compound::new();
    for (k, v) in entries {
        c.insert(k.to_string(), v);
    }
    c
}

#[test]
fn compound_insert_then_get() {
    let mut c = Compound::new();
    assert!(c.insert("map".to_string(), Value::Int(-3)).is_none());
    assert!(matches!(c.get("map"), Some(Value::Int(-3))));
    assert!(c.get("other").is_none());
}

#[test]
fn compound_insert_replaces_and_returns_old() {
    let mut c = Compound::new();
    c.insert("a".to_string(), Value::Int(1));
    c.insert("b".to_string(), Value::Byte(2));
    let old = c.insert("a".to_string(), Value::Int(5));
    assert!(matches!(old, Some(Value::Int(1))));
    assert!(matches!(c.get("a"), Some(Value::Int(5))));
    assert!(matches!(c.get("b"), Some(Value::Byte(2))));
    assert_eq!(c.entries.len(), 2);
}

#[test]
fn nbt_equals_same_scalars() {
    assert!(nbt_equals(&Value::Int(4), &Value::Int(4)));
    assert!(!nbt_equals(&Value::Int(4), &Value::Int(5)));
    assert!(nbt_equals(&Value::Byte(-1), &Value::Byte(-1)));
    assert!(nbt_equals(&Value::Long(1 << 40), &Value::Long(1 << 40)));
    assert!(nbt_equals(&Value::Short(9), &Value::Short(9)));
}

#[test]
fn nbt_equals_different_kinds_is_false() {
    assert!(!nbt_equals(&Value::Int(4), &Value::Long(4)));
    assert!(!nbt_equals(&Value::Byte(4), &Value::Short(4)));
}

#[test]
fn nbt_equals_compares_floats_by_bits() {
    let nan = f32::NAN.to_bits();
    assert!(nbt_equals(&Value::Float(nan), &Value::Float(nan)));
    assert!(!nbt_equals(&Value::Float(0.0f32.to_bits()), &Value::Float((-0.0f32).to_bits())));
    assert!(nbt_equals(&Value::Double(1.5f64.to_bits()), &Value::Double(1.5f64.to_bits())));
}

#[test]
fn nbt_equals_arrays_and_strings() {
    assert!(nbt_equals(&Value::ByteArray(vec![1, 2]), &Value::ByteArray(vec![1, 2])));
    assert!(!nbt_equals(&Value::ByteArray(vec![1, 2]), &Value::ByteArray(vec![2, 1])));
    assert!(nbt_equals(&Value::IntArray(vec![7]), &Value::IntArray(vec![7])));
    assert!(!nbt_equals(&Value::LongArray(vec![7]), &Value::LongArray(vec![7, 8])));
    assert!(nbt_equals(&Value::Str("map".to_string()), &Value::Str("map".to_string())));
    assert!(!nbt_equals(&Value::Str("map".to_string()), &Value::Str("mop".to_string())));
}

#[test]
fn nbt_equals_lists_elementwise() {
    let a = Value::List(vec![Value::Int(1), Value::Str("x".to_string())]);
    let b = Value::List(vec![Value::Int(1), Value::Str("x".to_string())]);
    let c = Value::List(vec![Value::Int(1)]);
    assert!(nbt_equals(&a, &b));
    assert!(!nbt_equals(&a, &c));
}

#[test]
fn nbt_equals_compounds_ignore_entry_order() {
    let a = compound(vec![("x", Value::Int(1)), ("y", Value::Int(2))]);
    let b = compound(vec![("y", Value::Int(2)), ("x", Value::Int(1))]);
    let c = compound(vec![("x", Value::Int(1))]);
    assert!(nbt_equals(&Value::Compound(a.duplicate()), &Value::Compound(b)));
    assert!(!nbt_equals(&Value::Compound(a), &Value::Compound(c)));
}

#[test]
fn nbt_equals_direct_floats_by_bits_law() {
    let nan = f32::NAN.to_bits();
    assert!(nbt_equals(&Value::Float(nan), &Value::Float(nan)));
    assert!(!nbt_equals(&Value::Float(0.0f32.to_bits()), &Value::Float((-0.0f32).to_bits())));
    let dnan = f64::NAN.to_bits();
    assert!(nbt_equals(&Value::Double(dnan), &Value::Double(dnan)));
    assert!(!nbt_equals(&Value::Double(0.0f64.to_bits()), &Value::Double((-0.0f64).to_bits())));
}

#[test]
fn nbt_equals_nested_floats_as_numbers_law() {
    let nan = f32::NAN.to_bits();
    let a = Value::List(vec![Value::Float(nan)]);
    assert!(!nbt_equals(&a, &a));
    let zero = Value::List(vec![Value::Float(0.0f32.to_bits())]);
    let neg_zero = Value::List(vec![Value::Float((-0.0f32).to_bits())]);
    assert!(nbt_equals(&zero, &neg_zero));
    let dzero = Value::List(vec![Value::Double(0.0f64.to_bits())]);
    let dneg = Value::List(vec![Value::Double((-0.0f64).to_bits())]);
    assert!(nbt_equals(&dzero, &dneg));
    let one = Value::List(vec![Value::Float(1.0f32.to_bits())]);
    assert!(!nbt_equals(&one, &zero));
}

#[test]
fn nbt_equals_nested_compound_floats_as_numbers() {
    let nan = f64::NAN.to_bits();
    let a = Value::Compound(compound(vec![("d", Value::Double(nan))]));
    assert!(!nbt_equals(&a, &a));
    let z = Value::Compound(compound(vec![("d", Value::Double(0.0f64.to_bits()))]));
    let nz = Value::Compound(compound(vec![("d", Value::Double((-0.0f64).to_bits()))]));
    assert!(nbt_equals(&z, &nz));
}

#[test]
fn nbt_equals_lists_of_compounds_ignore_entry_order() {
    let a = Value::List(vec![Value::Compound(compound(vec![("x", Value::Int(1)), ("y", Value::Int(2))]))]);
    let b = Value::List(vec![Value::Compound(compound(vec![("y", Value::Int(2)), ("x", Value::Int(1))]))]);
    assert!(nbt_equals(&a, &b));
    let c = Value::List(vec![Value::Compound(compound(vec![("y", Value::Int(2)), ("x", Value::Int(3))]))]);
    assert!(!nbt_equals(&a, &c));
}

#[test]
fn nbt_equals_compound_with_extra_name_is_unequal() {
    let a = Value::Compound(compound(vec![("x", Value::Int(1))]));
    let b = Value::Compound(compound(vec![("x", Value::Int(1)), ("y", Value::Int(0))]));
    assert!(!nbt_equals(&a, &b));
    assert!(!nbt_equals(&b, &a));
}

#[test]
fn nbt_equals_symmetric_law() {
    let values = vec![
        Value::Compound(compound(vec![("x", Value::Int(1))])),
        Value::Compound(compound(vec![("x", Value::Int(1)), ("y", Value::Int(0))])),
        Value::Compound(compound(vec![("y", Value::Int(0)), ("x", Value::Int(1))])),
        Value::List(vec![Value::Float(0.0f32.to_bits())]),
        Value::List(vec![Value::Float((-0.0f32).to_bits())]),
        Value::List(vec![Value::Float(f32::NAN.to_bits())]),
        Value::Float(f32::NAN.to_bits()),
        Value::Int(1),
    ];
    for a in &values {
        for b in &values {
            assert_eq!(nbt_equals(a, b), nbt_equals(b, a));
        }
    }
}

#[test]
fn nbt_value_from_plain_values() {
    assert!(matches!(NbtValue::from(5i32).0, Value::Int(5)));
    assert!(matches!(NbtValue::from(5i8).0, Value::Byte(5)));
    assert!(matches!(NbtValue::from(5i16).0, Value::Short(5)));
    assert!(matches!(NbtValue::from(5i64).0, Value::Long(5)));
    assert!(matches!(NbtValue::from("s".to_string()).0, Value::Str(ref t) if t == "s"));
    assert!(matches!(NbtValue::from(vec![1i8]).0, Value::ByteArray(ref v) if v == &vec![1i8]));
    let v: Value = NbtValue::from(9i32).into();
    assert!(matches!(v, Value::Int(9)));
}

#[test]
fn nbt_value_from_str_and_list() {
    assert!(matches!(NbtValue::from("doom").0, Value::Str(ref t) if t == "doom"));
    let l = NbtValue::from(vec![Value::Int(1), Value::Byte(2)]).0;
    assert!(nbt_equals(&l, &Value::List(vec![Value::Int(1), Value::Byte(2)])));
    assert!(matches!(l, Value::List(ref v) if v.len() == 2));
}

#[test]
fn value_duplicate_is_equal() {
    let v = Value::Compound(compound(vec![("a", Value::List(vec![Value::Byte(1)]))]));
    let d = v.duplicate();
    assert!(nbt_equals(&v, &d));
}
