//! The wheel-pair joiner.
//!
//! The two wheel encoders report one at a time. The joiner holds one report
//! until the other wheel's arrives, and from each such pair but the first
//! gives the ticks that either wheel has moved since the pair before.

use crate::clock::{is_after, MILLISECOND};
use vstd::prelude::*;

verus! {

/// How long a report waits for the other wheel's.
pub const TIMEOUT: u64 = 100 * MILLISECOND;

/// The left wheel.
pub const L: u8 = 0;

/// The right wheel.
pub const R: u8 = 1;

/// No wheel: nothing is waiting.
const N: u8 = 2;

/// One encoder report.
pub struct Sample {
    pub time: u64,
    pub which: u8,
    pub value: i32,
}

/// What the joiner remembers.
pub struct Joined {
    /// Whether a pair has been seen.
    pub initialized: bool,
    /// The last pair, left and right; zeros before the first.
    pub memory: (i32, i32),
    /// The report that waits for the other wheel's.
    pub pending: Option<Sample>,
}

impl Joined {
    /// Nothing seen, nothing waiting.
    pub open spec fn fresh() -> Joined {
        Joined { initialized: false, memory: (0, 0), pending: None }
    }

    /// Whether `sample` is dropped: it names no wheel, or the wheel whose
    /// report is waiting.
    pub open spec fn ignores(self, sample: Sample) -> bool {
        sample.which > 1 || (self.pending is Some && self.pending->0.which == sample.which)
    }

    /// Whether `sample` becomes the waiting report: nothing waits, or what
    /// waits is older than the window.
    pub open spec fn holds(self, sample: Sample) -> bool {
        !self.ignores(sample) && (self.pending is None || is_after(
            sample.time,
            self.pending->0.time,
            TIMEOUT,
        ))
    }

    /// The pair that `sample` completes, left and right.
    pub open spec fn pair_with(self, sample: Sample) -> (i32, i32) {
        if sample.which == L {
            (sample.value, self.pending->0.value)
        } else {
            (self.pending->0.value, sample.value)
        }
    }

    /// The joiner after `sample`.
    pub open spec fn after(self, sample: Sample) -> Joined {
        if self.ignores(sample) {
            self
        } else if self.holds(sample) {
            Joined { pending: Some(sample), ..self }
        } else {
            Joined { initialized: true, memory: self.pair_with(sample), pending: None }
        }
    }

    /// What `sample` yields: the ticks moved between the last pair and the
    /// one that it completes, wrapped to 32 bits; nothing unless it completes
    /// a pair that is not the first.
    pub open spec fn yields(self, sample: Sample) -> Option<(i32, i32)> {
        if self.ignores(sample) || self.holds(sample) || !self.initialized {
            None
        } else {
            let pair = self.pair_with(sample);
            Some((pair.0.wrapping_sub(self.memory.0), pair.1.wrapping_sub(self.memory.1)))
        }
    }

    /// The joiner after `samples`, taken in order.
    pub open spec fn after_all(self, samples: Seq<Sample>) -> Joined
        decreases samples.len(),
    {
        if samples.len() == 0 {
            self
        } else {
            self.after_all(samples.drop_last()).after(samples.last())
        }
    }

    /// What `samples` yield, taken in order.
    pub open spec fn yields_all(self, samples: Seq<Sample>) -> Seq<(i32, i32)>
        decreases samples.len(),
    {
        if samples.len() == 0 {
            Seq::empty()
        } else {
            let before = self.yields_all(samples.drop_last());
            match self.after_all(samples.drop_last()).yields(samples.last()) {
                Some(delta) => before.push(delta),
                None => before,
            }
        }
    }
}

/// Joins the reports of the two wheel encoders into pairs.
pub struct Differential {
    initialized: bool,
    memory: (i32, i32),
    last_which: u8,
    last_value: i32,
    since: u64,
}

impl View for Differential {
    type V = Joined;

    closed spec fn view(&self) -> Joined {
        Joined {
            initialized: self.initialized,
            memory: self.memory,
            pending: if self.last_which == N {
                None
            } else {
                Some(Sample { time: self.since, which: self.last_which, value: self.last_value })
            },
        }
    }
}

impl Differential {
    #[verifier::type_invariant]
    spec fn well_formed(self) -> bool {
        self.last_which <= N
    }

    /// A joiner that has seen nothing.
    pub fn new() -> (joiner: Self)
        ensures
            joiner@ == Joined::fresh(),
    {
        Self { initialized: false, memory: (0, 0), last_which: N, last_value: 0, since: 0 }
    }

    /// Takes the report `value` of wheel `which` at `time`.
    pub fn update(&mut self, time: u64, which: u8, value: i32) -> (delta: Option<(i32, i32)>)
        ensures
            final(self)@ == old(self)@.after((Sample { time, which, value })),
            delta == old(self)@.yields((Sample { time, which, value })),
    {
        proof {
            use_type_invariant(&*self);
        }
        if which > 1 || which == self.last_which {
            return None;
        }
        if self.last_which == N || is_after(time, self.since, TIMEOUT) {
            self.last_which = which;
            self.last_value = value;
            self.since = time;
            None
        } else {
            let pair = if which == L {
                (value, self.last_value)
            } else {
                (self.last_value, value)
            };
            let before = self.memory;
            self.memory = pair;
            self.last_which = N;
            if self.initialized {
                Some((pair.0.wrapping_sub(before.0), pair.1.wrapping_sub(before.1)))
            } else {
                self.initialized = true;
                None
            }
        }
    }
}

/// The sum of `deltas`, left and right.
pub open spec fn total(deltas: Seq<(i32, i32)>) -> (int, int)
    decreases deltas.len(),
{
    if deltas.len() == 0 {
        (0, 0)
    } else {
        let before = total(deltas.drop_last());
        (before.0 + deltas.last().0, before.1 + deltas.last().1)
    }
}

/// What the `k`-th two samples report of wheel `which`.
pub open spec fn paired(samples: Seq<Sample>, k: int, which: u8) -> i32 {
    if samples[2 * k].which == which {
        samples[2 * k].value
    } else {
        samples[2 * k + 1].value
    }
}

/// Whether `samples` alternate between the two wheels, each no more than the
/// window after the one before.
pub open spec fn steady(samples: Seq<Sample>) -> bool {
    &&& forall|i: int| 0 <= i < samples.len() ==> (#[trigger] samples[i]).which <= 1
    &&& forall|i: int|
        0 <= i < samples.len() - 1 ==> (#[trigger] samples[i + 1]).which != samples[i].which
    &&& forall|i: int|
        0 <= i < samples.len() - 1 ==> (#[trigger] samples[i + 1]).time - samples[i].time
            <= TIMEOUT
}

/// Whether, from each two samples to the next two, neither wheel moves by
/// more ticks than 32 bits hold.
pub open spec fn unwrapped(samples: Seq<Sample>) -> bool {
    forall|k: int|
        #![trigger paired(samples, k, L)]
        1 <= k < samples.len() / 2 ==> {
            &&& i32::MIN <= paired(samples, k, L) - paired(samples, k - 1, L) <= i32::MAX
            &&& i32::MIN <= paired(samples, k, R) - paired(samples, k - 1, R) <= i32::MAX
        }
}

/// What a fresh joiner has made of the first `n` of a steady run of samples.
proof fn lemma_steady_prefix(samples: Seq<Sample>, n: int)
    requires
        steady(samples),
        unwrapped(samples),
        0 <= n <= samples.len(),
    ensures
        ({
            let joined = Joined::fresh().after_all(samples.take(n));
            let deltas = Joined::fresh().yields_all(samples.take(n));
            let pairs = n / 2;
            &&& n % 2 == 0 ==> joined.pending is None
            &&& n % 2 == 1 ==> joined.pending == Some(samples[n - 1])
            &&& joined.initialized == (pairs >= 1)
            &&& pairs == 0 ==> deltas.len() == 0
            &&& pairs >= 1 ==> {
                &&& joined.memory == (
                    paired(samples, pairs - 1, L),
                    paired(samples, pairs - 1, R),
                )
                &&& deltas.len() == pairs - 1
                &&& total(deltas) == (
                    paired(samples, pairs - 1, L) - paired(samples, 0, L),
                    paired(samples, pairs - 1, R) - paired(samples, 0, R),
                )
            }
        }),
    decreases n,
{
    if n == 0 {
        assert(samples.take(0) =~= Seq::<Sample>::empty());
    } else {
        lemma_steady_prefix(samples, n - 1);
        let taken = samples.take(n);
        assert(taken.drop_last() =~= samples.take(n - 1));
        assert(taken.last() == samples[n - 1]);
        let before = Joined::fresh().after_all(samples.take(n - 1));
        let deltas = Joined::fresh().yields_all(samples.take(n - 1));
        let sample = samples[n - 1];
        if n % 2 == 1 {
            assert(before.holds(sample));
        } else {
            let k = n / 2 - 1;
            assert(samples[n - 2 + 1].which != samples[n - 2].which);
            assert(samples[n - 2 + 1].time - samples[n - 2].time <= TIMEOUT);
            assert(!before.ignores(sample));
            assert(!before.holds(sample));
            assert(before.pair_with(sample) == (paired(samples, k, L), paired(samples, k, R)));
            if k >= 1 {
                assert(i32::MIN <= paired(samples, k, L) - paired(samples, k - 1, L) <= i32::MAX);
                let delta = before.yields(sample)->0;
                let after = Joined::fresh().yields_all(taken);
                assert(after == deltas.push(delta));
                assert(after.drop_last() =~= deltas);
            }
        }
    }
}

/// A steady run of samples loses nothing: fed to a fresh joiner, `n` samples
/// that alternate between the wheels, each within the window of the one
/// before, yield one delta for each two samples but the first two, and the
/// deltas add up to what either wheel has moved between the first two
/// samples and the last two.
pub proof fn lemma_steady_run(samples: Seq<Sample>)
    requires
        steady(samples),
        unwrapped(samples),
        samples.len() >= 2,
    ensures
        ({
            let deltas = Joined::fresh().yields_all(samples);
            let last = samples.len() / 2 - 1;
            &&& deltas.len() == samples.len() / 2 - 1
            &&& total(deltas) == (
                paired(samples, last, L) - paired(samples, 0, L),
                paired(samples, last, R) - paired(samples, 0, R),
            )
        }),
{
    lemma_steady_prefix(samples, samples.len() as int);
    assert(samples.take(samples.len() as int) =~= samples);
}

} // verus!
