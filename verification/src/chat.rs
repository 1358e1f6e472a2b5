//! The history of chat messages.
use vstd::prelude::*;
use vstd::string::StringExecFns;

verus! {

/// Chat messages in the order they were sent, up to a capacity.
#[derive(Debug)]
pub struct ChatHistory {
    history: Vec<String>,
    capacity: usize,
}

impl Default for ChatHistory {
    fn default() -> (res: Self)
        ensures
            res.history_spec() == Seq::<Seq<char>>::empty(),
            res.capacity_spec() == 0,
    {
        ChatHistory { history: Vec::new(), capacity: 0 }
    }
}

impl ChatHistory {
    /// The texts kept, oldest first.
    pub closed spec fn history_spec(&self) -> Seq<Seq<char>> {
        self.history@.map_values(|t: String| t@)
    }

    /// How many texts are kept at most.
    pub closed spec fn capacity_spec(&self) -> nat {
        self.capacity as nat
    }

    /// Records `text`. When the history is then over its capacity, the newest text
    /// is dropped again, so the oldest texts are kept.
    pub fn push(&mut self, text: String)
        ensures
            final(self).capacity_spec() == old(self).capacity_spec(),
            final(self).history_spec() == history_push(
                old(self).history_spec(),
                old(self).capacity_spec(),
                text@,
            ),
    {
        let ghost before = self.history@;
        self.history.push(text);
        if self.history.len() > self.capacity {
            self.history.pop();
            assert(self.history@ =~= before);
        }
        assert(self.history@.map_values(|t: String| t@) =~= if before.len() + 1 > self.capacity {
            before.map_values(|t: String| t@)
        } else {
            before.map_values(|t: String| t@).push(text@)
        });
    }

    /// The texts kept, oldest first.
    pub fn get_history(&self) -> (res: &Vec<String>)
        ensures
            res@.map_values(|t: String| t@) == self.history_spec(),
    {
        &self.history
    }
}

/// The history `history`, of capacity `capacity`, after `text` is recorded.
pub open spec fn history_push(history: Seq<Seq<char>>, capacity: nat, text: Seq<char>) -> Seq<
    Seq<char>,
> {
    if history.len() + 1 > capacity {
        history
    } else {
        history.push(text)
    }
}

/// The chat line that shows `message` from the player named `name`.
pub open spec fn chat_line_spec(name: Seq<char>, message: Seq<char>) -> Seq<char> {
    name + seq![':', ' '] + message
}

/// Handling chat messages `events`, each a text and its sender's name if the sender
/// has one, in order, starting from `history`: every text is recorded and its line
/// goes out, until a sender without a name, whose text is recorded and which stops
/// the batch. The history after, and the lines sent, in order.
pub open spec fn chat_batch(
    history: Seq<Seq<char>>,
    capacity: nat,
    events: Seq<(String, Option<String>)>,
) -> (Seq<Seq<char>>, Seq<Seq<char>>)
    decreases events.len(),
{
    if events.len() == 0 {
        (history, Seq::empty())
    } else {
        let next = history_push(history, capacity, events[0].0@);
        match events[0].1 {
            Some(name) => {
                let r = chat_batch(next, capacity, events.drop_first());
                (r.0, seq![chat_line_spec(name@, events[0].0@)] + r.1)
            },
            None => (next, Seq::empty()),
        }
    }
}

/// Handles a batch of chat messages, each a text and its sender's name if the sender
/// has one: records every text and returns the lines to send to every player, until
/// a sender without a name ends the batch.
pub fn on_chat_messages(chat: &mut ChatHistory, events: &Vec<(String, Option<String>)>) -> (lines:
    Vec<String>)
    ensures
        final(chat).capacity_spec() == old(chat).capacity_spec(),
        ({
            let r = chat_batch(old(chat).history_spec(), old(chat).capacity_spec(), events@);
            &&& final(chat).history_spec() == r.0
            &&& lines@.map_values(|t: String| t@) == r.1
        }),
{
    let ghost total = chat_batch(old(chat).history_spec(), old(chat).capacity_spec(), events@);
    let mut lines: Vec<String> = Vec::new();
    let mut i: usize = 0;
    assert(events@.skip(0) =~= events@);
    assert(Seq::<Seq<char>>::empty() + total.1 =~= total.1);
    while i < events.len()
        invariant
            i <= events.len(),
            total == chat_batch(old(chat).history_spec(), old(chat).capacity_spec(), events@),
            chat.capacity_spec() == old(chat).capacity_spec(),
            ({
                let r = chat_batch(chat.history_spec(), chat.capacity_spec(), events@.skip(i as int));
                &&& r.0 == total.0
                &&& lines@.map_values(|t: String| t@) + r.1 == total.1
            }),
        decreases events.len() - i,
    {
        assert(events@.skip(i as int).drop_first() =~= events@.skip(i + 1));
        let ghost lines_before = lines@.map_values(|t: String| t@);
        let event = &events[i];
        let ghost h0 = chat.history_spec();
        let ghost sk = events@.skip(i as int);
        assert(sk.len() > 0 && sk[0] == events@[i as int]);
        chat.push(event.0.clone());
        assert(chat.history_spec() == history_push(h0, chat.capacity_spec(), events@[i as int].0@));
        match &event.1 {
            Some(name) => {
                let mut line = name.clone();
                proof {
                    reveal_strlit(": ");
                }
                line.append(": ");
                line.append(event.0.as_str());
                let ghost l = line@;
                assert(l =~= chat_line_spec(name@, events@[i as int].0@));
                lines.push(line);
                assert(lines@.map_values(|t: String| t@) =~= lines_before.push(l));
                let ghost rest = chat_batch(chat.history_spec(), chat.capacity_spec(), events@.skip(i + 1)).1;
                assert(lines_before.push(l) + rest =~= lines_before + (seq![l] + rest));
            },
            None => {
                assert(events@[i as int].1 is None);
                assert(chat_batch(h0, chat.capacity_spec(), sk) == (chat.history_spec(), Seq::<Seq<char>>::empty()));
                assert(lines@.map_values(|t: String| t@) + Seq::<Seq<char>>::empty() =~= lines@.map_values(|t: String| t@));
                return lines;
            },
        }
        i = i + 1;
    }
    assert(lines@.map_values(|t: String| t@) + Seq::<Seq<char>>::empty() =~= lines@.map_values(|t: String| t@));
    lines
}

/// A history that holds no more texts than its capacity still does after a push.
pub proof fn law_history_within_capacity(history: Seq<Seq<char>>, capacity: nat, text: Seq<char>)
    requires
        history.len() <= capacity,
    ensures
        history_push(history, capacity, text).len() <= capacity,
{
}

} // verus!
