//! The two figures that a measuring worker reports of its latency samples:
//! the median and the tail, which is the ninety-ninth percentile.

use vstd::prelude::*;

verus! {

/// Each sample is at most the ones after it.
pub open spec fn ascending(samples: Seq<u64>) -> bool {
    forall|i: int, j: int| 0 <= i <= j < samples.len() ==> samples[i] <= samples[j]
}

/// `ordered` holds the samples of `samples`, each as often, smallest first.
pub open spec fn is_sorting_of(ordered: Seq<u64>, samples: Seq<u64>) -> bool {
    ascending(ordered) && ordered.to_multiset() == samples.to_multiset()
}

/// The place of the tail latency among `count` ordered samples: ninety-nine
/// hundredths of the way up, rounded down.
pub open spec fn tail_index(count: nat) -> nat {
    count * 99 / 100
}

/// The tail latency of samples in ascending order.
pub open spec fn tail_of(ordered: Seq<u64>) -> u64 {
    ordered[tail_index(ordered.len()) as int]
}

/// The median of samples in ascending order: with an odd number of samples
/// the one in the middle; with an even number the mean, rounded down, of
/// the two in the middle.
pub open spec fn median_of(ordered: Seq<u64>) -> u64 {
    let half = ordered.len() as int / 2;
    if ordered.len() % 2 == 0 {
        ((ordered[half - 1] + ordered[half]) / 2) as u64
    } else {
        ordered[half]
    }
}

/// The median and the tail of a set of latency samples, in clock cycles.
#[derive(Debug, PartialEq, Eq, Clone, Copy)]
pub struct LatencySummary {
    pub median: u64,
    pub tail: u64,
}

/// `<[u64]>::sort` on the vector: afterwards it holds the same samples, each
/// as often as before, in ascending order.
#[verifier::external_body]
fn sort_samples(samples: &mut Vec<u64>)
    ensures
        is_sorting_of(final(samples)@, old(samples)@),
{
    samples.sort();
}

/// Sorts the samples and reads the median and the tail latency off them.
/// There must be a sample.
pub fn summarize(samples: &mut Vec<u64>) -> (summary: LatencySummary)
    requires
        old(samples)@.len() > 0,
    ensures
        is_sorting_of(final(samples)@, old(samples)@),
        final(samples)@.len() == old(samples)@.len(),
        summary.median == median_of(final(samples)@),
        summary.tail == tail_of(final(samples)@),
{
    sort_samples(samples);
    proof {
        samples@.to_multiset_ensures();
        old(samples)@.to_multiset_ensures();
    }
    let count = samples.len();
    let tail_at = count / 100 * 99 + count % 100 * 99 / 100;
    assert(tail_at == tail_index(count as nat));
    let tail = samples[tail_at];
    let half = count / 2;
    let median = if count % 2 == 0 {
        let low = samples[half - 1];
        let high = samples[half];
        low / 2 + high / 2 + (low % 2 + high % 2) / 2
    } else {
        samples[half]
    };
    LatencySummary { median, tail }
}

/// The smallest sample of an ascending sequence is its first, so two
/// ascending sequences with the same samples begin alike.
proof fn lemma_same_first(a: Seq<u64>, b: Seq<u64>)
    requires
        ascending(a),
        ascending(b),
        a.to_multiset() == b.to_multiset(),
        a.len() > 0,
    ensures
        b.len() == a.len(),
        a[0] == b[0],
{
    a.to_multiset_ensures();
    b.to_multiset_ensures();
    assert(a.contains(a[0]));
    assert(b.to_multiset().count(a[0]) > 0);
    assert(b.contains(a[0]));
    assert(b.contains(b[0]));
    assert(a.to_multiset().count(b[0]) > 0);
    assert(a.contains(b[0]));
}

/// Samples have only one ascending order: the summary depends on the
/// samples alone, not on how they were sorted.
pub proof fn lemma_sorting_is_unique(a: Seq<u64>, b: Seq<u64>, samples: Seq<u64>)
    requires
        is_sorting_of(a, samples),
        is_sorting_of(b, samples),
    ensures
        a == b,
    decreases a.len(),
{
    a.to_multiset_ensures();
    b.to_multiset_ensures();
    if a.len() == 0 {
        assert(a =~= b);
    } else {
        lemma_same_first(a, b);
        let rest_a = a.drop_first();
        let rest_b = b.drop_first();
        assert(a.remove(0) =~= rest_a);
        assert(b.remove(0) =~= rest_b);
        assert(rest_a.to_multiset() == a.to_multiset().remove(a[0]));
        assert(rest_b.to_multiset() == b.to_multiset().remove(b[0]));
        assert(ascending(rest_a)) by {
            assert forall|i: int, j: int| 0 <= i <= j < rest_a.len() implies rest_a[i]
                <= rest_a[j] by {
                assert(rest_a[i] == a[i + 1] && rest_a[j] == a[j + 1]);
            }
        }
        assert(ascending(rest_b)) by {
            assert forall|i: int, j: int| 0 <= i <= j < rest_b.len() implies rest_b[i]
                <= rest_b[j] by {
                assert(rest_b[i] == b[i + 1] && rest_b[j] == b[j + 1]);
            }
        }
        lemma_sorting_is_unique(rest_a, rest_b, rest_a);
        assert(a =~= seq![a[0]] + rest_a);
        assert(b =~= seq![b[0]] + rest_b);
    }
}

} // verus!
