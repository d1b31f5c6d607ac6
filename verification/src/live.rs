//! The live-index manager: on a fixed tick it prunes segments past their
//! time to live, commits in-flight inserts after the auto-commit interval,
//! and compacts segments that share a calendar day. The clock readings and
//! the disk work come from the caller; the decisions are verified here.

use vstd::prelude::*;

verus! {

/// How often the manager's event loop wakes, in milliseconds.
pub const EVENT_LOOP_INTERVAL_MS: u64 = 5_000;

/// How long a live segment may live before it is pruned.
pub const SEGMENT_TTL_MS: u64 = 1_209_600_000;

/// How long inserts may stay uncommitted.
pub const AUTO_COMMIT_INTERVAL_MS: u64 = 10_000;

/// How often pruning runs.
pub const PRUNE_INTERVAL_MS: u64 = 300_000;

/// How often compaction by date runs.
pub const COMPACT_INTERVAL_MS: u64 = 3_600_000;

/// What one tick of the live-index manager decides to do.
#[derive(Debug, Clone, Copy, PartialEq, Eq, Structural)]
pub struct TickActions {
    pub prune: bool,
    pub commit: bool,
    pub compact: bool,
}

/// Decides one tick: prune when the prune interval has passed, commit
/// when inserts wait and the auto-commit interval has passed, compact when
/// the compaction interval has passed. Times are unix milliseconds.
pub fn tick(
    now_ms: u64,
    last_prune_ms: u64,
    last_commit_ms: u64,
    last_compact_ms: u64,
    has_inserts: bool,
) -> (r: TickActions)
    ensures
        r.prune == (last_prune_ms + PRUNE_INTERVAL_MS < now_ms),
        r.commit == (last_commit_ms + AUTO_COMMIT_INTERVAL_MS < now_ms && has_inserts),
        r.compact == (last_compact_ms + COMPACT_INTERVAL_MS < now_ms),
{
    let prune = last_prune_ms < u64::MAX - PRUNE_INTERVAL_MS && last_prune_ms + PRUNE_INTERVAL_MS
        < now_ms;
    let commit = has_inserts && last_commit_ms < u64::MAX - AUTO_COMMIT_INTERVAL_MS
        && last_commit_ms + AUTO_COMMIT_INTERVAL_MS < now_ms;
    let compact = last_compact_ms < u64::MAX - COMPACT_INTERVAL_MS && last_compact_ms
        + COMPACT_INTERVAL_MS < now_ms;
    TickActions { prune, commit, compact }
}

/// The segments whose creation time lies further back than the time to
/// live: the ones a prune pass drops.
pub fn select_expired(created_ms: &Vec<u64>, now_ms: u64, ttl_ms: u64) -> (r: Vec<usize>)
    ensures
        forall|q: int|
            0 <= q < r@.len() ==> (#[trigger] r@[q]) < created_ms@.len() && created_ms@[r@[q] as int]
                + ttl_ms < now_ms,
        forall|i: int|
            0 <= i < created_ms@.len() && created_ms@[i] + ttl_ms < now_ms ==> exists|q: int|
                0 <= q < r@.len() && (#[trigger] r@[q]) == i,
{
    let mut r: Vec<usize> = Vec::new();
    let mut i: usize = 0;
    while i < created_ms.len()
        invariant
            i <= created_ms@.len(),
            forall|q: int|
                0 <= q < r@.len() ==> (#[trigger] r@[q]) < created_ms@.len()
                    && created_ms@[r@[q] as int] + ttl_ms < now_ms,
            forall|j: int|
                0 <= j < i && created_ms@[j] + ttl_ms < now_ms ==> exists|q: int|
                    0 <= q < r@.len() && (#[trigger] r@[q]) == j,
        decreases created_ms@.len() - i,
    {
        let c = created_ms[i];
        let ghost prev = r@;
        if c <= u64::MAX - ttl_ms {
            if c + ttl_ms < now_ms {
                r.push(i);
                proof {
                    assert(r@[prev.len() as int] == i as usize);
                }
            }
        }
        proof {
            assert forall|j: int|
                0 <= j < i + 1 && created_ms@[j] + ttl_ms < now_ms implies exists|q: int|
                0 <= q < r@.len() && (#[trigger] r@[q]) == j by {
                if j < i {
                    let q = choose|q: int| 0 <= q < prev.len() && (#[trigger] prev[q]) == j;
                    assert(r@[q] == j);
                } else {
                    assert(r@[r@.len() - 1] == j);
                }
            }
        }
        i = i + 1;
    }
    r
}

/// The calendar day a unix-millisecond timestamp falls in: segments
/// sharing a day share a compaction bucket.
pub fn day_bucket(unix_ms: u64) -> (r: u64)
    ensures
        r == unix_ms / 86_400_000,
{
    unix_ms / 86_400_000
}

} // verus!
