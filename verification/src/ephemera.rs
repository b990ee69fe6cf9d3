//! Ephemeral messages: numbering our own, and dropping repeats of others'.

use vstd::prelude::*;

use crate::ids::random_hex;
use crate::messages::{EphemeralMessage, EphemeralMessageView};
use crate::wire_decode::str_eq;

verus! {

/// The session and number that go with an outgoing ephemeral message.
#[derive(Debug)]
pub struct OutgoingSessionDetails {
    pub counter: u64,
    pub session_id: String,
}

/// Our ephemeral session, and the last number seen from each other session.
#[derive(Debug)]
pub struct EphemeralSession {
    session_id: String,
    counter: u64,
    last_seen: Vec<(String, String, u64)>,
}

/// The abstract value of an [`EphemeralSession`]: our session, our last
/// number, and per sender and session the last number seen.
pub struct EphemeralSessionView {
    pub session_id: Seq<char>,
    pub counter: u64,
    pub last_seen: Seq<(Seq<char>, Seq<char>, u64)>,
}

impl View for EphemeralSession {
    type V = EphemeralSessionView;

    closed spec fn view(&self) -> EphemeralSessionView {
        EphemeralSessionView {
            session_id: self.session_id@,
            counter: self.counter,
            last_seen: self.last_seen@.map_values(|e: (String, String, u64)| (e.0@, e.1@, e.2)),
        }
    }
}

impl EphemeralSession {
    /// Each sender and session has one entry.
    #[verifier::type_invariant]
    closed spec fn pairs_distinct(self) -> bool {
        forall|i: int, j: int| 0 <= i < j < self.last_seen@.len() ==>
            !(#[trigger] self.last_seen@[i].0@ == #[trigger] self.last_seen@[j].0@
                && self.last_seen@[i].1@ == self.last_seen@[j].1@)
    }
}

/// A message from this sender and session with this number was seen, or
/// a later one.
pub open spec fn seen(last: Seq<(Seq<char>, Seq<char>, u64)>, sender: Seq<char>, session: Seq<char>, count: u64) -> bool {
    exists|i: int| 0 <= i < last.len() && #[trigger] last[i].0 == sender && last[i].1 == session && count <= last[i].2
}

/// There is an entry for this sender and session.
pub open spec fn has_pair(last: Seq<(Seq<char>, Seq<char>, u64)>, sender: Seq<char>, session: Seq<char>) -> bool {
    exists|i: int| 0 <= i < last.len() && #[trigger] last[i].0 == sender && last[i].1 == session
}

/// The entries after a message numbered `count` from this sender and
/// session: its entry takes the number, or a new entry is added at the end.
pub open spec fn record_seen(last: Seq<(Seq<char>, Seq<char>, u64)>, sender: Seq<char>, session: Seq<char>, count: u64) -> Seq<(Seq<char>, Seq<char>, u64)> {
    if has_pair(last, sender, session) {
        let i = choose|i: int| 0 <= i < last.len() && #[trigger] last[i].0 == sender && last[i].1 == session;
        last.update(i, (sender, session, count))
    } else {
        last.push((sender, session, count))
    }
}

/// The number after `c`, staying at the largest number.
pub open spec fn next_count(c: u64) -> u64 {
    if c < u64::MAX { (c + 1) as u64 } else { c }
}

impl EphemeralSession {
    /// A new session with a random ID.
    pub fn new() -> (r: EphemeralSession)
        ensures
            r@.counter == 0,
            r@.session_id.len() == 32,
            r@.last_seen.len() == 0,
    {
        let r = EphemeralSession { session_id: random_hex(), counter: 0, last_seen: Vec::new() };
        proof {
            assert(r@.last_seen =~= Seq::empty());
        }
        r
    }

    /// The session and number for our next ephemeral message.
    pub fn next_message_session_details(&mut self) -> (r: OutgoingSessionDetails)
        ensures
            final(self)@ == (EphemeralSessionView { counter: next_count(old(self)@.counter), ..old(self)@ }),
            r.counter == next_count(old(self)@.counter),
            r.session_id@ == old(self)@.session_id,
    {
        proof {
            use_type_invariant(&*self);
        }
        if self.counter < u64::MAX {
            self.counter = self.counter + 1;
        }
        OutgoingSessionDetails { counter: self.counter, session_id: self.session_id.clone() }
    }

    /// Passes on a message unless one with the same sender and session and at
    /// least its number was seen; then remembers its number.
    pub fn receive_message(&mut self, msg: EphemeralMessage) -> (r: Option<EphemeralMessage>)
        ensures
            seen(old(self)@.last_seen, msg@.sender_id, msg@.session_id, msg@.count) ==> r is None && final(self)@ == old(self)@,
            !seen(old(self)@.last_seen, msg@.sender_id, msg@.session_id, msg@.count) ==> {
                &&& r matches Some(m) && m@ == msg@
                &&& final(self)@.last_seen == record_seen(old(self)@.last_seen, msg@.sender_id, msg@.session_id, msg@.count)
                &&& seen(final(self)@.last_seen, msg@.sender_id, msg@.session_id, msg@.count)
                &&& final(self)@.session_id == old(self)@.session_id
                &&& final(self)@.counter == old(self)@.counter
            },
    {
        proof {
            use_type_invariant(&*self);
        }
        let ghost last = self@.last_seen;
        let mut list: Vec<(String, String, u64)> = Vec::new();
        std::mem::swap(&mut list, &mut self.last_seen);
        let ghost l0 = list@;
        assert(forall|j: int| 0 <= j < l0.len() ==> #[trigger] last[j] == (l0[j].0@, l0[j].1@, l0[j].2));
        let mut i: usize = 0;
        while i < list.len()
            invariant
                i <= list@.len(),
                list@ == l0,
                self.session_id@ == old(self)@.session_id,
                self.counter == old(self)@.counter,
                last == old(self)@.last_seen,
                last.len() == l0.len(),
                forall|j: int| 0 <= j < l0.len() ==> #[trigger] last[j] == (l0[j].0@, l0[j].1@, l0[j].2),
                forall|j: int| 0 <= j < i ==> !(#[trigger] l0[j].0@ == msg@.sender_id && l0[j].1@ == msg@.session_id),
                forall|a: int, b: int| 0 <= a < b < l0.len() ==>
                    !(#[trigger] l0[a].0@ == #[trigger] l0[b].0@ && l0[a].1@ == l0[b].1@),
            decreases list@.len() - i,
        {
            let same = str_eq(list[i].0.as_str(), msg.sender_id.as_str())
                && str_eq(list[i].1.as_str(), msg.session_id.as_str());
            if same {
                if msg.count <= list[i].2 {
                    proof {
                        assert(last[i as int].0 == msg@.sender_id && last[i as int].1 == msg@.session_id
                            && msg@.count <= last[i as int].2);
                    }
                    self.last_seen = list;
                    proof {
                        assert(self@.last_seen =~= last);
                        assert(seen(last, msg@.sender_id, msg@.session_id, msg@.count));
                    }
                    return None;
                }
                proof {
                    assert forall|j: int| 0 <= j < last.len() implies !(#[trigger] last[j].0 == msg@.sender_id
                        && last[j].1 == msg@.session_id && msg@.count <= last[j].2) by {
                        if j != i && l0[j].0@ == msg@.sender_id && l0[j].1@ == msg@.session_id {
                            if j < i {
                                assert(l0[j].0@ == l0[i as int].0@);
                            } else {
                                assert(l0[i as int].0@ == l0[j].0@);
                            }
                        }
                    }
                }
                let entry = (list[i].0.clone(), list[i].1.clone(), msg.count);
                list.set(i, entry);
                self.last_seen = list;
                proof {
                    assert(last[i as int].0 == msg@.sender_id && last[i as int].1 == msg@.session_id);
                    assert(has_pair(last, msg@.sender_id, msg@.session_id));
                    let k = choose|k: int| 0 <= k < last.len() && #[trigger] last[k].0 == msg@.sender_id && last[k].1 == msg@.session_id;
                    if k != i {
                        if k < i {
                            assert(l0[k].0@ == l0[i as int].0@);
                        } else {
                            assert(l0[i as int].0@ == l0[k].0@);
                        }
                    }
                    assert(self@.last_seen =~= last.update(i as int, (msg@.sender_id, msg@.session_id, msg@.count)));
                    assert(self@.last_seen[i as int].0 == msg@.sender_id && self@.last_seen[i as int].1 == msg@.session_id
                        && msg@.count <= self@.last_seen[i as int].2);
                }
                return Some(msg);
            }
            i = i + 1;
        }
        let entry = (msg.sender_id.as_str().to_owned(), msg.session_id.clone(), msg.count);
        list.push(entry);
        proof {
            let n = l0.len() as int;
            assert forall|a: int, b: int| 0 <= a < b < list@.len() implies
                !(#[trigger] list@[a].0@ == #[trigger] list@[b].0@ && list@[a].1@ == list@[b].1@) by {
                if b == n {
                    assert(list@[a] == l0[a]);
                } else {
                    assert(list@[a] == l0[a] && list@[b] == l0[b]);
                }
            }
        }
        self.last_seen = list;
        proof {
            assert(!has_pair(last, msg@.sender_id, msg@.session_id));
            assert(self@.last_seen =~= last.push((msg@.sender_id, msg@.session_id, msg@.count)));
            let k = l0.len() as int;
            assert(self@.last_seen[k].0 == msg@.sender_id && self@.last_seen[k].1 == msg@.session_id
                && msg@.count <= self@.last_seen[k].2);
        }
        Some(msg)
    }
}

} // verus!
