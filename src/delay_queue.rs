use vstd::prelude::*;

use crate::packet::Packet;

verus! {

/// A packet held back until its release time (milliseconds).
#[derive(Clone, Debug)]
pub struct Scheduled {
    pub release: u64,
    pub packet: Packet,
}

/// Whether the release times in `q` never decrease.
pub open spec fn sorted_by_release(q: Seq<(u64, Seq<u8>)>) -> bool {
    forall|i: int, j: int| 0 <= i <= j < q.len() ==> q[i].0 <= q[j].0
}

/// Whether `i` splits `q` into the entries due no later than `r` and those due
/// after it.
pub open spec fn splits_at(q: Seq<(u64, Seq<u8>)>, r: u64, i: int) -> bool {
    &&& 0 <= i <= q.len()
    &&& forall|j: int| 0 <= j < i ==> q[j].0 <= r
    &&& forall|j: int| i <= j < q.len() ==> q[j].0 > r
}

/// Where an entry due at `r` goes: right after the last entry due no later
/// than it.
pub open spec fn insertion_index(q: Seq<(u64, Seq<u8>)>, r: u64) -> int
    decreases q.len(),
{
    if q.len() == 0 {
        0
    } else if q.last().0 <= r {
        q.len() as int
    } else {
        insertion_index(q.drop_last(), r)
    }
}

/// `q` with an entry for `p` due at `r` put in its place by release time,
/// behind the entries due at the same time.
pub open spec fn insert_by_release(q: Seq<(u64, Seq<u8>)>, r: u64, p: Seq<u8>) -> Seq<(u64, Seq<u8>)> {
    q.insert(insertion_index(q, r), (r, p))
}

/// In a sorted sequence, the place for an entry is the point that splits
/// the entries due no later than it from those due after it.
pub proof fn lemma_split_unique(q: Seq<(u64, Seq<u8>)>, r: u64, i: int)
    requires
        sorted_by_release(q),
        splits_at(q, r, i),
    ensures
        insertion_index(q, r) == i,
    decreases q.len(),
{
    if q.len() > 0 {
        let n = q.len() - 1;
        if q.last().0 <= r {
            if i < q.len() {
                assert(q[n].0 > r);
            }
        } else {
            if i == q.len() {
                assert(q[n].0 <= r);
            }
            let d = q.drop_last();
            assert forall|j: int| 0 <= j < i implies d[j].0 <= r by {
                assert(d[j] == q[j]);
            }
            assert forall|j: int| i <= j < d.len() implies d[j].0 > r by {
                assert(d[j] == q[j]);
            }
            assert forall|a: int, b: int| 0 <= a <= b < d.len() implies d[a].0 <= d[b].0 by {
                assert(d[a] == q[a] && d[b] == q[b]);
            }
            lemma_split_unique(d, r, i);
        }
    }
}

/// Pending packets ordered by release time, earliest first; packets due at
/// the same time keep the order in which they were scheduled.
pub struct DelayQueue {
    items: Vec<Scheduled>,
}

impl View for DelayQueue {
    type V = Seq<(u64, Seq<u8>)>;

    closed spec fn view(&self) -> Seq<(u64, Seq<u8>)> {
        self.items@.map_values(|s: Scheduled| (s.release, s.packet@))
    }
}

impl DelayQueue {
    /// The queue's invariant: release times never decrease.
    pub open spec fn wf(&self) -> bool {
        sorted_by_release(self@)
    }

    /// An empty queue.
    pub fn new() -> (r: DelayQueue)
        ensures
            r.wf(),
            r@ == Seq::<(u64, Seq<u8>)>::empty(),
    {
        let r = DelayQueue { items: Vec::new() };
        assert(r@ =~= Seq::<(u64, Seq<u8>)>::empty());
        r
    }

    /// Number of pending packets.
    pub fn len(&self) -> (r: usize)
        ensures
            r as int == self@.len(),
    {
        self.items.len()
    }

    /// Holds `packet` until `release`, behind every packet due no later.
    pub fn schedule(&mut self, release: u64, packet: Packet)
        requires
            old(self).wf(),
        ensures
            final(self).wf(),
            final(self)@ == insert_by_release(old(self)@, release, packet@),
    {
        let ghost q = self@;
        let mut i: usize = 0;
        while i < self.items.len() && self.items[i].release <= release
            invariant
                self@ == q,
                sorted_by_release(q),
                i <= q.len(),
                forall|j: int| 0 <= j < i ==> q[j].0 <= release,
            decreases q.len() - i,
        {
            assert(q[i as int].0 == self.items@[i as int].release);
            i = i + 1;
        }
        if i < self.items.len() {
            assert(q[i as int].0 == self.items@[i as int].release);
            assert forall|j: int| i <= j < q.len() implies q[j].0 > release by {
                assert(q[i as int].0 <= q[j].0);
            }
        }
        assert(splits_at(q, release, i as int));
        proof {
            lemma_split_unique(q, release, i as int);
        }
        let ghost p = packet@;
        self.items.insert(i, Scheduled { release, packet });
        assert(self@ =~= q.insert(i as int, (release, p)));
    }

    /// Whether the earliest packet is due at `now`.
    pub open spec fn due(&self, now: u64) -> bool {
        self@.len() > 0 && self@[0].0 <= now
    }

    /// Takes out the earliest packet if it is due at `now`; as release times
    /// are sorted, no later packet is due before it.
    pub fn pop_due(&mut self, now: u64) -> (r: Option<Packet>)
        requires
            old(self).wf(),
        ensures
            final(self).wf(),
            old(self).due(now) ==> r is Some && r->Some_0@ == old(self)@[0].1 && final(self)@
                == old(self)@.drop_first(),
            !old(self).due(now) ==> r is None && final(self)@ == old(self)@,
    {
        if self.items.len() > 0 && self.items[0].release <= now {
            let ghost q = self@;
            let s = self.items.remove(0);
            assert(self@ =~= q.drop_first());
            Some(s.packet)
        } else {
            None
        }
    }
}

} // verus!
