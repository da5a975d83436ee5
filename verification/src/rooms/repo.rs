//! Records exchanged with the room persistence layer, and the completion of
//! per-dimension vote histograms.
use vstd::prelude::*;

verus! {

/// An evidence row to insert for a poll dimension.
pub struct NewEvidence<'a> {
    pub stance: &'a str,
    pub claim: &'a str,
    pub source: Option<&'a str>,
}

/// Number of vote histogram buckets per dimension.
pub const NUM_BUCKETS: i32 = 10;

/// The count of one histogram bucket.
#[derive(Debug, Clone)]
pub struct BucketCount {
    /// 1-indexed bucket number (1 = lowest range, 10 = highest)
    pub bucket: i32,
    pub count: i64,
}

/// The count that `rows` (pairs of bucket and count) records for `bucket`:
/// the last row naming it, or 0 when none does.
pub open spec fn recorded_count(rows: Seq<(i32, i64)>, bucket: int) -> i64
    decreases rows.len(),
{
    if rows.len() == 0 {
        0
    } else if rows.last().0 == bucket {
        rows.last().1
    } else {
        recorded_count(rows.drop_last(), bucket)
    }
}

fn lookup_count(rows: &Vec<(i32, i64)>, bucket: i32) -> (r: i64)
    ensures
        r == recorded_count(rows@, bucket as int),
{
    let mut i: usize = rows.len();
    proof {
        assert(rows@.take(rows@.len() as int) =~= rows@);
    }
    while i > 0
        invariant
            i <= rows@.len(),
            recorded_count(rows@, bucket as int) == recorded_count(rows@.take(i as int), bucket as int),
        decreases i,
    {
        let (b, c) = rows[i - 1];
        proof {
            assert(rows@.take(i as int).drop_last() =~= rows@.take(i - 1));
        }
        if b == bucket {
            return c;
        }
        i -= 1;
    }
    0
}

/// All ten buckets of a dimension's histogram, in order, each with the count
/// that `rows` records for it (0 for a bucket without votes).
pub fn complete_buckets(rows: &Vec<(i32, i64)>) -> (buckets: Vec<BucketCount>)
    ensures
        buckets@.len() == NUM_BUCKETS,
        forall|k: int|
            0 <= k < NUM_BUCKETS ==> (#[trigger] buckets@[k]).bucket == k + 1 && buckets@[k].count
                == recorded_count(rows@, k + 1),
{
    proof {
        assert(rows@.take(rows@.len() as int) =~= rows@);
    }
    let mut buckets: Vec<BucketCount> = Vec::new();
    let mut b: i32 = 1;
    while b <= NUM_BUCKETS
        invariant
            1 <= b <= NUM_BUCKETS + 1,
            buckets@.len() == b - 1,
            forall|k: int|
                0 <= k < b - 1 ==> (#[trigger] buckets@[k]).bucket == k + 1 && buckets@[k].count
                    == recorded_count(rows@, k + 1),
        decreases NUM_BUCKETS + 1 - b,
    {
        let count = lookup_count(rows, b);
        buckets.push(BucketCount { bucket: b, count });
        b += 1;
    }
    buckets
}


/// A histogram takes every row into account: a bucket that some row names
/// gets the count of the last row naming it, and a bucket that no row names
/// gets 0.
pub proof fn lemma_recorded_count_is_last_row(rows: Seq<(i32, i64)>, bucket: int)
    ensures
        (exists|i: int| 0 <= i < rows.len() && rows[i].0 == bucket) ==> exists|i: int|
            0 <= i < rows.len() && rows[i].0 == bucket && recorded_count(rows, bucket) == rows[i].1
                && forall|j: int| i < j < rows.len() ==> rows[j].0 != bucket,
        (forall|i: int| 0 <= i < rows.len() ==> rows[i].0 != bucket) ==> recorded_count(rows, bucket)
            == 0,
    decreases rows.len(),
{
    if rows.len() > 0 {
        let d = rows.drop_last();
        lemma_recorded_count_is_last_row(d, bucket);
        if rows.last().0 == bucket {
            assert(rows[rows.len() - 1].0 == bucket);
        } else if exists|i: int| 0 <= i < rows.len() && rows[i].0 == bucket {
            let i = choose|i: int| 0 <= i < rows.len() && rows[i].0 == bucket;
            assert(d[i].0 == bucket);
            let w = choose|w: int|
                0 <= w < d.len() && d[w].0 == bucket && recorded_count(d, bucket) == d[w].1
                    && forall|j: int| w < j < d.len() ==> d[j].0 != bucket;
            assert(rows[w] == d[w]);
            assert forall|j: int| w < j < rows.len() implies rows[j].0 != bucket by {
                if j < d.len() {
                    assert(rows[j] == d[j]);
                }
            }
        } else {
            assert forall|i: int| 0 <= i < d.len() implies d[i].0 != bucket by {
                assert(rows[i] == d[i]);
            }
        }
    }
}

/// The completed histogram of a single row `(b, c)` with `b` among the ten
/// buckets has count `c` in bucket `b` and 0 in every other bucket.
pub proof fn lemma_single_row_histogram(b: i32, c: i64, bucket: int)
    ensures
        recorded_count(seq![(b, c)], bucket) == if bucket == b { c } else { 0 },
{
    let rows = seq![(b, c)];
    assert(rows.drop_last() =~= Seq::<(i32, i64)>::empty());
    assert(recorded_count(Seq::<(i32, i64)>::empty(), bucket) == 0);
    assert(rows.last() == (b, c));
}

} // verus!
