//! The rolling record of tick durations: a fixed-size window of the most
//! recent deltas, oldest first, and the largest delta ever seen.

use vstd::prelude::*;

verus! {

/// Number of deltas the window holds.
pub const HISTORY_SIZE: usize = 120;

/// The window after the deltas of `log` were recorded, in order, into a window
/// that started as all zeros: the last `HISTORY_SIZE` of the zeros followed by
/// the log.
pub open spec fn window_of(log: Seq<u64>) -> Seq<u64> {
    let padded = Seq::new(HISTORY_SIZE as nat, |i: int| 0u64) + log;
    padded.subrange(padded.len() - HISTORY_SIZE as int, padded.len() as int)
}

/// The largest delta of `log`, or 0 when it is empty.
pub open spec fn highest_of(log: Seq<u64>) -> u64
    decreases log.len(),
{
    if log.len() == 0 {
        0
    } else {
        let before = highest_of(log.drop_last());
        if log.last() > before { log.last() } else { before }
    }
}

/// The delta recorded last, or 0 when none was.
pub open spec fn last_of(log: Seq<u64>) -> u64 {
    if log.len() == 0 { 0 } else { log.last() }
}

/// The window held in a ring: oldest sample at `head`, the others after it,
/// wrapping round; the largest and the latest delta kept beside it. Its view
/// is every delta recorded so far, in order.
pub struct DeltaHistory {
    samples: Vec<u64>,
    head: usize,
    highest: u64,
    last: u64,
    log: Ghost<Seq<u64>>,
}

impl View for DeltaHistory {
    type V = Seq<u64>;

    closed spec fn view(&self) -> Seq<u64> {
        self.log@
    }
}

impl DeltaHistory {
    /// The ring read from `head` on, oldest first.
    spec fn ring(&self) -> Seq<u64> {
        Seq::new(HISTORY_SIZE as nat, |i: int| self.samples@[(self.head + i) % (HISTORY_SIZE as int)])
    }

    /// The ring holds the window of the log, and the kept largest and latest
    /// deltas are those of the log.
    pub closed spec fn wf(&self) -> bool {
        &&& self.samples@.len() == HISTORY_SIZE
        &&& self.head < HISTORY_SIZE
        &&& self.ring() == window_of(self.log@)
        &&& self.highest == highest_of(self.log@)
        &&& self.last == last_of(self.log@)
    }

    /// An empty record: a window of zeros, and 0 as largest and latest delta.
    pub fn new() -> (r: Self)
        ensures
            r.wf(),
            r@ == Seq::<u64>::empty(),
    {
        let samples: Vec<u64> = vec![0u64; HISTORY_SIZE];
        let r = DeltaHistory { samples, head: 0, highest: 0, last: 0, log: Ghost(Seq::empty()) };
        assert(r.ring() =~= window_of(r.log@));
        r
    }

    /// Records one delta: the oldest sample leaves the window, `delta` joins it
    /// at the end, and the largest delta becomes `delta` if that is larger.
    pub fn record(&mut self, delta: u64)
        requires
            old(self).wf(),
        ensures
            final(self).wf(),
            final(self)@ == old(self)@.push(delta),
    {
        proof {
            lemma_window_push(self.log@, delta);
        }
        let ghost before = self.ring();
        let h = self.head;
        self.samples[h] = delta;
        self.head = if h + 1 == HISTORY_SIZE { 0 } else { h + 1 };
        if delta > self.highest {
            self.highest = delta;
        }
        self.last = delta;
        self.log = Ghost(self.log@.push(delta));
        assert(self.log@.drop_last() =~= old(self).log@);
        assert(self.ring() =~= before.drop_first().push(delta));
    }

    /// The largest delta ever recorded, or 0 when none was.
    pub fn highest(&self) -> (r: u64)
        requires
            self.wf(),
        ensures
            r == highest_of(self@),
    {
        self.highest
    }

    /// The delta recorded last, or 0 when none was.
    pub fn last(&self) -> (r: u64)
        requires
            self.wf(),
        ensures
            r == last_of(self@),
    {
        self.last
    }

    /// The window, oldest first.
    pub fn window(&self) -> (r: Vec<u64>)
        requires
            self.wf(),
        ensures
            r@ == window_of(self@),
    {
        let mut r: Vec<u64> = Vec::with_capacity(HISTORY_SIZE);
        let mut i: usize = 0;
        while i < HISTORY_SIZE
            invariant
                i <= HISTORY_SIZE,
                self.samples@.len() == HISTORY_SIZE,
                self.head < HISTORY_SIZE,
                r@ == self.ring().take(i as int),
            decreases HISTORY_SIZE - i,
        {
            let k: usize = (self.head + i) % HISTORY_SIZE;
            r.push(self.samples[k]);
            i = i + 1;
            assert(r@ =~= self.ring().take(i as int));
        }
        assert(r@ =~= self.ring());
        r
    }
}

/// The window always holds exactly `HISTORY_SIZE` samples, and right after a
/// delta is recorded the window's last sample is that delta.
pub proof fn lemma_window_shape(log: Seq<u64>, d: u64)
    ensures
        window_of(log).len() == HISTORY_SIZE,
        window_of(log.push(d)).len() == HISTORY_SIZE,
        window_of(log.push(d)).last() == d,
{
    lemma_window_push(log, d);
}

/// Before any delta is recorded the window is all zeros.
pub proof fn lemma_window_starts_zero()
    ensures
        window_of(Seq::<u64>::empty()) == Seq::new(HISTORY_SIZE as nat, |i: int| 0u64),
{
    assert(window_of(Seq::<u64>::empty()) =~= Seq::new(HISTORY_SIZE as nat, |i: int| 0u64));
}

/// The largest delta is the maximum of 0 and every delta ever recorded: no
/// recorded delta exceeds it, and unless it is 0 some recorded delta equals it.
pub proof fn lemma_highest_is_max(log: Seq<u64>)
    ensures
        forall|i: int| 0 <= i < log.len() ==> log[i] <= highest_of(log),
        highest_of(log) == 0 || exists|i: int| 0 <= i < log.len() && log[i] == highest_of(log),
    decreases log.len(),
{
    if log.len() > 0 {
        let before = log.drop_last();
        lemma_highest_is_max(before);
        assert forall|i: int| 0 <= i < log.len() implies log[i] <= highest_of(log) by {
            if i < log.len() - 1 {
                assert(log[i] == before[i]);
            }
        }
        if highest_of(log) != 0 && highest_of(log) != log.last() {
            let j = choose|j: int| 0 <= j < before.len() && before[j] == highest_of(before);
            assert(log[j] == before[j]);
        }
    }
}

/// Recording a delta never lowers the largest delta: it becomes the larger of
/// its old value and the new delta.
pub proof fn lemma_highest_never_falls(log: Seq<u64>, d: u64)
    ensures
        highest_of(log) <= highest_of(log.push(d)),
        highest_of(log.push(d)) == (if d > highest_of(log) { d } else { highest_of(log) }),
{
    assert(log.push(d).drop_last() =~= log);
}

/// Recording one delta drops the window's first sample and appends the delta.
proof fn lemma_window_push(log: Seq<u64>, d: u64)
    ensures
        window_of(log.push(d)) == window_of(log).drop_first().push(d),
{
    let zeros = Seq::new(HISTORY_SIZE as nat, |i: int| 0u64);
    assert(zeros + log.push(d) =~= (zeros + log).push(d));
    assert(window_of(log.push(d)) =~= window_of(log).drop_first().push(d));
}

} // verus!
