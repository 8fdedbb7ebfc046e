//! The transmit history: a bounded queue of the user frames sent last,
//! from which retransmissions are served.
//!
//! Entries are kept in the order in which they were sent.  A push onto a
//! full history evicts the oldest entry first.  Only user frames enter:
//! an entry is a sequence number with its payload, so no other kind of
//! frame can be held.  Nothing keeps two entries from bearing the same
//! number; a lookup serves the oldest.

use std::collections::VecDeque;
use vstd::prelude::*;

verus! {

/// Number of frames that the history of a session holds unless asked
/// otherwise.
pub const HISTORY_SIZE: usize = 32;

/// The mathematical value of a [`History`].
pub struct HistoryState {
    /// Sequence number and payload of each frame held, oldest first.
    pub entries: Seq<(u8, Seq<u8>)>,
    /// Most frames ever held at once.
    pub capacity: nat,
}

impl HistoryState {
    /// An empty history of the given capacity.
    pub open spec fn empty(capacity: nat) -> HistoryState {
        HistoryState { entries: Seq::empty(), capacity }
    }

    /// No more frames are held than the capacity allows.
    pub open spec fn wf(self) -> bool {
        self.entries.len() <= self.capacity
    }

    /// The history after a frame has been sent: the oldest entries make
    /// room until fewer than `capacity` are left, then the frame is
    /// appended.  A history of capacity zero stays empty.
    pub open spec fn push(self, seq: u8, payload: Seq<u8>) -> HistoryState {
        if self.capacity == 0 {
            HistoryState { entries: Seq::empty(), ..self }
        } else if self.entries.len() >= self.capacity {
            HistoryState {
                entries: self.entries.skip(self.entries.len() - self.capacity + 1).push(
                    (seq, payload),
                ),
                ..self
            }
        } else {
            HistoryState { entries: self.entries.push((seq, payload)), ..self }
        }
    }

    /// The payload of the oldest entry with sequence number `seq`, if
    /// there is one.
    pub open spec fn lookup(self, seq: u8) -> Option<Seq<u8>> {
        first_with(self.entries, seq)
    }

    /// Some entry has sequence number `seq`.
    pub open spec fn holds(self, seq: u8) -> bool {
        exists|i: int| 0 <= i < self.entries.len() && (#[trigger] self.entries[i]).0 == seq
    }
}

/// The payload of the first entry with sequence number `seq`.
pub open spec fn first_with(entries: Seq<(u8, Seq<u8>)>, seq: u8) -> Option<Seq<u8>>
    decreases entries.len(),
{
    if entries.len() == 0 {
        None
    } else if entries.first().0 == seq {
        Some(entries.first().1)
    } else {
        first_with(entries.drop_first(), seq)
    }
}

/// The search finds the entry at `at` when none before it has the
/// sequence number.
pub proof fn lemma_first_with_found(entries: Seq<(u8, Seq<u8>)>, seq: u8, at: int)
    requires
        0 <= at < entries.len(),
        entries[at].0 == seq,
        forall|j: int| 0 <= j < at ==> (#[trigger] entries[j]).0 != seq,
    ensures
        first_with(entries, seq) == Some(entries[at].1),
    decreases entries.len(),
{
    if at > 0 {
        assert(entries[0].0 != seq);
        let rest = entries.drop_first();
        assert forall|j: int| 0 <= j < at - 1 implies (#[trigger] rest[j]).0 != seq by {
            assert(rest[j] == entries[j + 1]);
        }
        lemma_first_with_found(rest, seq, at - 1);
    }
}

/// The search finds something exactly when some entry has the sequence
/// number.
pub proof fn lemma_first_with_none(entries: Seq<(u8, Seq<u8>)>, seq: u8)
    ensures
        first_with(entries, seq) is None <==> forall|j: int|
            0 <= j < entries.len() ==> (#[trigger] entries[j]).0 != seq,
    decreases entries.len(),
{
    if entries.len() > 0 {
        let rest = entries.drop_first();
        lemma_first_with_none(rest, seq);
        if entries.first().0 != seq {
            if first_with(rest, seq) is None {
                assert forall|j: int| 0 <= j < entries.len() implies (#[trigger] entries[j]).0
                    != seq by {
                    if j > 0 {
                        assert(rest[j - 1] == entries[j]);
                    }
                }
            } else {
                let j = choose|j: int| 0 <= j < rest.len() && (#[trigger] rest[j]).0 == seq;
                assert(entries[j + 1] == rest[j]);
            }
        } else {
            assert(entries[0].0 == seq);
        }
    }
}

/// A lookup answers exactly when the history holds the sequence number.
pub proof fn lemma_lookup_holds(history: HistoryState, seq: u8)
    ensures
        history.lookup(seq) is Some <==> history.holds(seq),
{
    lemma_first_with_none(history.entries, seq);
}

/// After a push a history of positive capacity ends with the frame
/// pushed and holds at most `capacity` entries: the newest of those it
/// held before, in their order, and the frame.  A history that was within
/// its capacity loses at most its oldest entry.
pub proof fn lemma_push_keeps_latest(history: HistoryState, seq: u8, payload: Seq<u8>)
    ensures
        history.push(seq, payload).wf(),
        history.push(seq, payload).capacity == history.capacity,
        history.capacity > 0 ==> history.push(seq, payload).entries.last() == (seq, payload),
        history.capacity > 0 && history.entries.len() < history.capacity ==> history.push(
            seq,
            payload,
        ).entries == history.entries.push((seq, payload)),
        history.capacity > 0 && history.entries.len() == history.capacity ==> history.push(
            seq,
            payload,
        ).entries == history.entries.drop_first().push((seq, payload)),
{
    if history.capacity > 0 && history.entries.len() == history.capacity {
        assert(history.entries.skip(1) =~= history.entries.drop_first());
    }
}

struct Sent {
    seq: u8,
    payload: Vec<u8>,
}

/// Bounded queue of the user frames sent last.
pub struct History {
    entries: VecDeque<Sent>,
    capacity: usize,
}

impl View for History {
    type V = HistoryState;

    closed spec fn view(&self) -> HistoryState {
        HistoryState {
            entries: Seq::new(
                self.entries@.len(),
                |i: int| (self.entries@[i].seq, self.entries@[i].payload@),
            ),
            capacity: self.capacity as nat,
        }
    }
}

impl History {
    /// An empty history that holds up to `capacity` frames.
    pub fn new(capacity: usize) -> (history: History)
        ensures
            history@ == HistoryState::empty(capacity as nat),
    {
        let history = History { entries: VecDeque::new(), capacity };
        assert(history@.entries =~= Seq::<(u8, Seq<u8>)>::empty());
        history
    }

    /// Number of frames held.
    pub fn len(&self) -> (n: usize)
        ensures
            n == self@.entries.len(),
    {
        self.entries.len()
    }

    /// Most frames ever held at once.
    pub fn capacity(&self) -> (n: usize)
        ensures
            n == self@.capacity,
    {
        self.capacity
    }

    /// Records a frame that is being sent, evicting the oldest entries
    /// if the history is full.
    pub fn push(&mut self, seq: u8, payload: Vec<u8>)
        ensures
            final(self)@ == old(self)@.push(seq, payload@),
    {
        let ghost before = self@;
        if self.capacity == 0 {
            self.entries.clear();
            assert(self@.entries =~= Seq::<(u8, Seq<u8>)>::empty());
            return ;
        }
        let ghost mut dropped: int = 0;
        while self.entries.len() >= self.capacity
            invariant
                self.capacity == before.capacity,
                self.capacity > 0,
                0 <= dropped <= before.entries.len(),
                self@.entries == before.entries.skip(dropped),
                before.entries.len() >= before.capacity ==> dropped <= before.entries.len()
                    - before.capacity + 1,
                before.entries.len() < before.capacity ==> dropped == 0,
            decreases self.entries.len(),
        {
            let ghost held = self@;
            let gone = self.entries.pop_front();
            proof {
                assert(self@.entries =~= held.entries.skip(1));
                assert(held.entries.skip(1) =~= before.entries.skip(dropped + 1));
                dropped = dropped + 1;
            }
        }
        let ghost held = self@;
        assert(held.entries.len() == self.entries@.len());
        self.entries.push_back(Sent { seq, payload });
        assert(self@.entries =~= held.entries.push((seq, payload@)));
        assert(self@.entries == before.push(seq, payload@).entries);
    }

    /// The payload of the oldest frame held with sequence number `seq`.
    pub fn find(&self, seq: u8) -> (found: Option<&Vec<u8>>)
        ensures
            match found {
                Some(payload) => self@.lookup(seq) == Some(payload@),
                None => self@.lookup(seq) is None,
            },
    {
        let mut i: usize = 0;
        while i < self.entries.len()
            invariant
                0 <= i <= self.entries.len(),
                forall|j: int| 0 <= j < i ==> (#[trigger] self@.entries[j]).0 != seq,
            decreases self.entries.len() - i,
        {
            if self.entries[i].seq == seq {
                proof {
                    lemma_first_with_found(self@.entries, seq, i as int);
                }
                return Some(&self.entries[i].payload);
            }
            i += 1;
        }
        proof {
            lemma_first_with_none(self@.entries, seq);
        }
        None
    }
}

} // verus!
