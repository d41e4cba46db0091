//! How long a message takes there and back, in nanoseconds.

use vstd::prelude::*;

use crate::text;

verus! {

/// Enough samples for a meaningful p99 without keeping history forever.
pub const SAMPLE_WINDOW: usize = 200;

/// The time since a probe was sent, both on this machine's clock. A probe from
/// the future took no time.
pub fn round_trip(sent: u64, now: u64) -> (nanos: u64)
    ensures
        nanos == if now >= sent {
            now - sent
        } else {
            0
        },
{
    now.saturating_sub(sent)
}

/// Samples in ascending order.
pub open spec fn ordered(samples: Seq<u64>) -> Seq<u64> {
    samples.sort_by(|a: u64, b: u64| a <= b)
}

/// Whether samples never descend.
pub open spec fn ascending(samples: Seq<u64>) -> bool {
    forall|i: int, j: int| 0 <= i <= j < samples.len() ==> samples[i] <= samples[j]
}

/// The latest round trips, oldest first.
#[derive(Debug)]
pub struct Samples {
    pub values: Vec<u64>,
}

/// What a run of samples comes to.
#[derive(Debug, Clone, Copy, PartialEq, Eq, Structural)]
pub struct Summary {
    pub p50: u64,
    pub p99: u64,
    pub min: u64,
    pub max: u64,
    pub n: usize,
}

impl View for Samples {
    type V = Seq<u64>;

    open spec fn view(&self) -> Seq<u64> {
        self.values@
    }
}

/// The last so many of a sequence.
pub open spec fn latest(values: Seq<u64>) -> Seq<u64> {
    if values.len() <= SAMPLE_WINDOW {
        values
    } else {
        values.skip(values.len() - SAMPLE_WINDOW)
    }
}

/// What these samples come to. The p50 is the sample halfway up, and the p99
/// the one nearest to 99 hundredths of the way, the upper where two are as near.
pub open spec fn summary_of(samples: Seq<u64>) -> Summary {
    let sorted = ordered(samples);
    let n = samples.len() as int;
    Summary {
        p50: sorted[n / 2],
        p99: sorted[(99 * (n - 1) + 50) / 100],
        min: sorted[0],
        max: sorted[n - 1],
        n: n as usize,
    }
}

impl Samples {
    /// No more samples than the window holds.
    pub open spec fn inv(self) -> bool {
        self@.len() <= SAMPLE_WINDOW
    }

    pub fn new() -> (samples: Samples)
        ensures
            samples.inv(),
            samples@ == Seq::<u64>::empty(),
    {
        Samples { values: Vec::new() }
    }

    /// Takes in a sample, and lets go of the oldest where the window is full.
    pub fn push(&mut self, nanos: u64)
        requires
            old(self).inv(),
        ensures
            final(self).inv(),
            final(self)@ == latest(old(self)@.push(nanos)),
    {
        if self.values.len() == SAMPLE_WINDOW {
            self.values.remove(0);
        }
        self.values.push(nanos);
        assert(self@ =~= latest(old(self)@.push(nanos)));
    }

    /// The typical round trip, for the status: of two samples in the middle,
    /// the lower.
    pub fn p50(&self) -> (nanos: Option<u64>)
        ensures
            nanos == if self@.len() == 0 {
                None
            } else {
                Some(ordered(self@)[(self@.len() - 1) / 2])
            },
    {
        let sorted = sort(&self.values);
        proof {
            lemma_same_length(self@);
        }
        if sorted.len() == 0 {
            None
        } else {
            Some(sorted[(sorted.len() - 1) / 2])
        }
    }

    /// What the samples come to, once there are any.
    pub fn summary(&self) -> (summary: Option<Summary>)
        requires
            self.inv(),
        ensures
            summary == if self@.len() == 0 {
                None
            } else {
                Some(summary_of(self@))
            },
    {
        let sorted = sort(&self.values);
        proof {
            lemma_same_length(self@);
        }
        let n: usize = sorted.len();
        if n == 0 {
            return None;
        }
        Some(
            Summary {
                p50: sorted[n / 2],
                p99: sorted[(99 * (n - 1) + 50) / 100],
                min: sorted[0],
                max: sorted[n - 1],
                n,
            },
        )
    }
}

impl Summary {
    /// The summary on one line; the four times are given as they are to be
    /// written, in milliseconds.
    pub fn line(&self, p50: &str, p99: &str, min: &str, max: &str) -> (line: String)
        ensures
            line@ == "rtt p50 "@ + p50@ + "ms  p99 "@ + p99@ + "ms  min "@ + min@ + "ms  max "@
                + max@ + "ms  n="@ + text::decimal(self.n as int),
    {
        let mut line = "rtt p50 ".to_owned();
        line.append(p50);
        line.append("ms  p99 ");
        line.append(p99);
        line.append("ms  min ");
        line.append(min);
        line.append("ms  max ");
        line.append(max);
        line.append("ms  n=");
        line.append(text::number(self.n as u64).as_str());
        line
    }
}

/// Ordering samples neither loses nor adds any.
proof fn lemma_same_length(samples: Seq<u64>)
    ensures
        ordered(samples).len() == samples.len(),
{
    let leq = |a: u64, b: u64| a <= b;
    samples.lemma_sort_by_ensures(leq);
    broadcast use vstd::seq_lib::group_to_multiset_ensures;

    assert(ordered(samples).to_multiset().len() == samples.to_multiset().len());
}

/// An ascending arrangement of the samples is the ordered one.
pub proof fn lemma_ordered_is_unique(samples: Seq<u64>, sorted: Seq<u64>)
    requires
        ascending(sorted),
        sorted.to_multiset() == samples.to_multiset(),
    ensures
        sorted == ordered(samples),
{
    let leq = |a: u64, b: u64| a <= b;
    samples.lemma_sort_by_ensures(leq);
    vstd::seq_lib::lemma_sorted_unique(sorted, ordered(samples), leq);
}

/// Sorts samples, by inserting each where it belongs among those before it.
fn sort(values: &Vec<u64>) -> (sorted: Vec<u64>)
    ensures
        sorted@ == ordered(values@),
{
    let mut sorted: Vec<u64> = Vec::new();
    let mut i: usize = 0;
    assert(values@.take(0) =~= sorted@);
    while i < values.len()
        invariant
            i <= values@.len(),
            sorted@.len() == i,
            ascending(sorted@),
            sorted@.to_multiset() == values@.take(i as int).to_multiset(),
        decreases values@.len() - i,
    {
        let value = values[i];
        let mut at: usize = 0;
        while at < sorted.len() && sorted[at] <= value
            invariant
                at <= sorted@.len(),
                forall|j: int| 0 <= j < at ==> sorted@[j] <= value,
            decreases sorted@.len() - at,
        {
            at += 1;
        }
        let ghost before = sorted@;
        sorted.insert(at, value);
        proof {
            broadcast use vstd::seq_lib::group_to_multiset_ensures;

            vstd::seq_lib::to_multiset_insert(before, at as int, value);
            assert(values@.take(i + 1) =~= values@.take(i as int).push(value));
        }
        i += 1;
    }
    proof {
        assert(values@.take(i as int) =~= values@);
        lemma_ordered_is_unique(values@, sorted@);
    }
    sorted
}

/// The window holds the latest samples: taking in one more after any history
/// leaves the latest of the whole history.
pub proof fn law_the_window_holds_the_latest(history: Seq<u64>, nanos: u64)
    ensures
        latest(latest(history).push(nanos)) == latest(history.push(nanos)),
{
    assert(latest(latest(history).push(nanos)) =~= latest(history.push(nanos)));
}

/// The figures of a summary come in order, and each is one of the samples.
pub proof fn law_a_summary_is_in_order(samples: Seq<u64>)
    requires
        0 < samples.len() <= SAMPLE_WINDOW,
    ensures
        ({
            let summary = summary_of(samples);
            &&& summary.min <= summary.p50 <= summary.p99 <= summary.max
            &&& samples.contains(summary.min)
            &&& samples.contains(summary.p50)
            &&& samples.contains(summary.p99)
            &&& samples.contains(summary.max)
        }),
{
    let leq = |a: u64, b: u64| a <= b;
    let sorted = ordered(samples);
    let n = samples.len() as int;
    lemma_same_length(samples);
    samples.lemma_sort_by_ensures(leq);
    assert forall|i: int| 0 <= i < n implies samples.contains(#[trigger] sorted[i]) by {
        assert(sorted.contains(sorted[i]));
    }
    let p99 = (99 * (n - 1) + 50) / 100;
    assert(n / 2 <= p99 <= n - 1);
    assert(leq(sorted[0], sorted[n / 2]));
    assert(leq(sorted[n / 2], sorted[p99]));
    assert(leq(sorted[p99], sorted[n - 1]));
}

/// The figures of a summary are those at their ranks, however the samples came:
/// the first and the last of them in ascending order, the one halfway up, and
/// the one nearest to 99 hundredths of the way, the upper where two are as near.
/// No sample is below the least of them or above the greatest.
pub proof fn law_the_figures_stand_at_their_ranks(samples: Seq<u64>, sorted: Seq<u64>, rank: int)
    requires
        0 < samples.len() <= SAMPLE_WINDOW,
        forall|i: int, j: int| 0 <= i <= j < sorted.len() ==> sorted[i] <= sorted[j],
        sorted.to_multiset() == samples.to_multiset(),
        100 * rank - 50 <= 99 * (samples.len() - 1) < 100 * rank + 50,
    ensures
        ({
            let summary = summary_of(samples);
            let n = samples.len() as int;
            &&& ordered(samples) == sorted
            &&& summary.min == sorted[0]
            &&& summary.p50 == sorted[n / 2]
            &&& summary.p99 == sorted[rank]
            &&& summary.max == sorted[n - 1]
            &&& summary.n == n
            &&& forall|i: int|
                0 <= i < n ==> summary.min <= #[trigger] samples[i] <= summary.max
        }),
{
    let n = samples.len() as int;
    lemma_ordered_is_unique(samples, sorted);
    lemma_same_length(samples);
    assert((99 * (n - 1) + 50) / 100 == rank);
    broadcast use vstd::seq_lib::group_to_multiset_ensures;

    assert forall|i: int| 0 <= i < n implies sorted[0] <= #[trigger] samples[i] <= sorted[n
        - 1] by {
        assert(samples.to_multiset().count(samples[i]) > 0);
        assert(sorted.contains(samples[i]));
        let k = choose|k: int| 0 <= k < sorted.len() && sorted[k] == samples[i];
        assert(sorted[0] <= sorted[k] <= sorted[n - 1]);
    }
}

/// The window holds the last two hundred samples, in the order they came, and
/// all of them while there are no more.
pub proof fn law_the_window_is_the_last_two_hundred(values: Seq<u64>)
    ensures
        ({
            let window = latest(values);
            let dropped = values.len() - window.len();
            &&& window.len() == if values.len() <= 200 {
                values.len()
            } else {
                200
            }
            &&& forall|i: int| 0 <= i < window.len() ==> #[trigger] window[i] == values[dropped + i]
        }),
{
}

/// The samples' model is the samples, and their window is never overfull.
pub proof fn law_samples_are_what_their_model_says(samples: Samples)
    ensures
        samples@ == samples.values@,
        samples.inv() <==> samples.values@.len() <= 200,
{
}

/// A round trip is the time from the probe's being sent to its coming back, and
/// none where it would come back before it was sent.
pub proof fn law_a_round_trip_is_the_time_between(sent: u64, now: u64, nanos: u64)
    requires
        call_ensures(round_trip, (sent, now), nanos),
    ensures
        sent <= now ==> sent + nanos == now,
        sent > now ==> nanos == 0,
{
}

/// The typical sample is the lower of those in the middle: however the samples
/// are put in ascending order, it stands halfway up, rounded down.
pub proof fn law_the_typical_sample_is_in_the_middle(
    samples: Samples,
    sorted: Seq<u64>,
    typical: Option<u64>,
)
    requires
        forall|i: int, j: int| 0 <= i <= j < sorted.len() ==> sorted[i] <= sorted[j],
        sorted.to_multiset() == samples.values@.to_multiset(),
        call_ensures(Samples::p50, (&samples,), typical),
    ensures
        typical is None <==> samples.values@.len() == 0,
        typical matches Some(nanos) ==> nanos == sorted[(samples.values@.len() - 1) / 2],
{
    lemma_ordered_is_unique(samples@, sorted);
}

} // verus!
