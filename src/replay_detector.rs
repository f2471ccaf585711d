use vstd::prelude::*;

verus! {

/// Anti-replay window over one epoch's record sequence numbers.
///
/// `mask[i]` records whether `latest_seq - i` was accepted; `received` is the
/// set of every sequence number accepted so far.
pub struct SlidingWindowDetector {
    pub window_size: usize,
    pub max_seq: u64,
    pub latest_seq: u64,
    /// Whether any sequence number has been accepted yet.
    pub any_accepted: bool,
    pub mask: Vec<bool>,
    /// The sequence number that passed the last `check`, awaiting `accept`.
    pub pending: Option<u64>,
    pub received: Ghost<Set<u64>>,
}

impl SlidingWindowDetector {
    pub open spec fn wf(&self) -> bool {
        &&& self.mask@.len() == self.window_size
        &&& (self.any_accepted <==> self.received@ !== Set::<u64>::empty())
        &&& forall|s: u64| #[trigger] self.received@.contains(s) ==> s <= self.latest_seq
        &&& forall|i: int|
            0 <= i < self.window_size ==> (#[trigger] self.mask@[i] <==> (i <= self.latest_seq
                && self.received@.contains((self.latest_seq - i) as u64)))
        &&& self.pending matches Some(s) ==> self.spec_is_fresh(s)
    }

    /// Whether `seq` may be accepted: within range, and either the first,
    /// ahead of the window, or inside it and not seen.
    pub open spec fn spec_is_fresh(&self, seq: u64) -> bool {
        &&& seq <= self.max_seq
        &&& (!self.any_accepted || seq > self.latest_seq || (self.latest_seq - seq < self.window_size && !self.mask@[(
        self.latest_seq - seq) as int]))
    }

    /// A detector with a window of `window_size` sequence numbers that accepts
    /// none above `max_seq`.
    pub fn new(window_size: usize, max_seq: u64) -> (r: Self)
        ensures
            r.wf(),
            r.window_size == window_size,
            r.max_seq == max_seq,
            r.latest_seq == 0,
            !r.any_accepted,
            r.received@ == Set::<u64>::empty(),
            r.pending is None,
    {
        let mut mask: Vec<bool> = Vec::new();
        let mut i: usize = 0;
        while i < window_size
            invariant
                i <= window_size,
                mask@.len() == i,
                forall|j: int| 0 <= j < i ==> !#[trigger] mask@[j],
            decreases window_size - i,
        {
            mask.push(false);
            i = i + 1;
        }
        SlidingWindowDetector {
            window_size,
            max_seq,
            latest_seq: 0,
            any_accepted: false,
            mask,
            pending: None,
            received: Ghost(Set::empty()),
        }
    }

    /// Tells whether `seq` is fresh, and remembers it for `accept` if so.
    /// A sequence number that was accepted before is never fresh.
    pub fn check(&mut self, seq: u64) -> (r: bool)
        requires
            old(self).wf(),
        ensures
            final(self).wf(),
            r == old(self).spec_is_fresh(seq),
            r ==> !old(self).received@.contains(seq),
            final(self).pending == (if r {
                Some(seq)
            } else {
                None
            }),
            final(self).received@ == old(self).received@,
            final(self).latest_seq == old(self).latest_seq,
            final(self).any_accepted == old(self).any_accepted,
            final(self).mask@ == old(self).mask@,
            final(self).window_size == old(self).window_size,
            final(self).max_seq == old(self).max_seq,
    {
        self.pending = None;
        if seq > self.max_seq {
            return false;
        }
        if !self.any_accepted || seq > self.latest_seq {
            self.pending = Some(seq);
            return true;
        }
        let diff = self.latest_seq - seq;
        if diff >= self.window_size as u64 {
            return false;
        }
        if self.mask[diff as usize] {
            return false;
        }
        proof {
            if self.received@.contains(seq) {
                assert(self.mask@[diff as int]);
            }
        }
        self.pending = Some(seq);
        true
    }

    /// Commits the sequence number that passed the last `check`; does nothing
    /// if the last `check` failed or was already committed.
    pub fn accept(&mut self)
        requires
            old(self).wf(),
        ensures
            final(self).wf(),
            final(self).pending is None,
            final(self).window_size == old(self).window_size,
            final(self).max_seq == old(self).max_seq,
            final(self).received@ == match old(self).pending {
                Some(s) => old(self).received@.insert(s),
                None => old(self).received@,
            },
    {
        let seq = match self.pending {
            Some(s) => s,
            None => {
                return;
            },
        };
        self.pending = None;
        let ghost old_received = self.received@;
        if !self.any_accepted {
            let mut fresh: Vec<bool> = Vec::new();
            let mut i: usize = 0;
            while i < self.window_size
                invariant
                    i <= self.window_size,
                    fresh@.len() == i,
                    forall|j: int| 0 <= j < i ==> !#[trigger] fresh@[j],
                decreases self.window_size - i,
            {
                fresh.push(false);
                i = i + 1;
            }
            self.mask = fresh;
            self.latest_seq = seq;
            self.any_accepted = true;
            if self.window_size > 0 {
                self.mask.set(0, true);
            }
            self.received = Ghost(old_received.insert(seq));
            proof {
                assert(old_received =~= Set::<u64>::empty());
                assert forall|i: int| 0 <= i < self.window_size implies (#[trigger] self.mask@[i] <==> (
                i <= self.latest_seq && self.received@.contains((self.latest_seq - i) as u64))) by {
                    if i > 0 && i <= self.latest_seq {
                        assert((self.latest_seq - i) as u64 != seq);
                    }
                }
                assert(self.received@.contains(seq));
            }
            return;
        }
        let ghost old_latest = self.latest_seq;
        let ghost old_mask = self.mask@;
        if seq > self.latest_seq {
            let shift = seq - self.latest_seq;
            let mut shifted: Vec<bool> = Vec::new();
            let mut i: usize = 0;
            while i < self.window_size
                invariant
                    i <= self.window_size,
                    self.mask@.len() == self.window_size,
                    shifted@.len() == i,
                    shift == seq - self.latest_seq,
                    forall|j: int|
                        0 <= j < i ==> #[trigger] shifted@[j] == (if j >= shift {
                            self.mask@[j - shift]
                        } else {
                            false
                        }),
                decreases self.window_size - i,
            {
                if i as u64 >= shift {
                    shifted.push(self.mask[i - shift as usize]);
                } else {
                    shifted.push(false);
                }
                i = i + 1;
            }
            self.mask = shifted;
            self.latest_seq = seq;
        }
        let diff = (self.latest_seq - seq) as usize;
        if diff < self.window_size {
            self.mask.set(diff, true);
        }
        self.received = Ghost(old_received.insert(seq));
        proof {
            assert(self.received@.contains(seq));
            assert forall|i: int| 0 <= i < self.window_size implies (#[trigger] self.mask@[i] <==> (
            i <= self.latest_seq && self.received@.contains((self.latest_seq - i) as u64))) by {
                if seq > old_latest {
                    let shift = seq - old_latest;
                    if i >= shift && i != diff {
                        assert(old_mask[i - shift] <==> (i - shift <= old_latest
                            && old_received.contains((old_latest - (i - shift)) as u64)));
                        assert((old_latest - (i - shift)) as u64 == (seq - i) as u64);
                    } else if i != diff {
                        if i <= seq {
                            assert((seq - i) as u64 > old_latest);
                        }
                    }
                } else {
                    if i != diff {
                        assert(old_mask[i] <==> (i <= old_latest && old_received.contains(
                            (old_latest - i) as u64,
                        )));
                    }
                }
            }
        }
    }
}

/// Once a sequence number has been accepted, `check` never finds it fresh
/// again: every record that the detector lets through is unique.
pub proof fn lemma_accepted_never_fresh(d: SlidingWindowDetector, seq: u64)
    requires
        d.wf(),
        d.received@.contains(seq),
    ensures
        !d.spec_is_fresh(seq),
{
    assert(d.received@ !== Set::<u64>::empty());
    if seq <= d.latest_seq && d.latest_seq - seq < d.window_size {
        assert(d.mask@[(d.latest_seq - seq) as int]);
    }
}

} // verus!
