//! Batch assembly: draining the durable queue into one size-bounded batch.
//!
//! A batch is the longest prefix of the queue, oldest-first, whose
//! cumulative record size stays within a byte threshold. A record whose
//! size alone exceeds the threshold is never popped: it stays at the head
//! of the queue and every later cycle assembles an empty batch — a
//! deliberate reproduction of the head-of-line stall the admission policy
//! permits, not a silent fix.
use vstd::prelude::*;
use crate::queue::{total_size, DiskQueue, StoredEntry};

verus! {

/// The batch threshold the forwarder flushes with. It is a fixed constant:
/// the configured `batch_max_bytes` and `batch_max_events` are accepted in
/// the configuration but are not consulted here.
pub const FLUSH_THRESHOLD_BYTES: usize = 512 * 1024;

/// How many entries one batch drains from the front of `s` with `budget`
/// bytes left: entries are taken while each fits the remaining budget.
pub open spec fn drain_count(s: Seq<StoredEntry>, budget: int) -> nat
    decreases s.len(),
{
    if s.len() == 0 {
        0
    } else if s[0].data@.len() > budget {
        0
    } else {
        1 + drain_count(s.drop_first(), budget - s[0].data@.len())
    }
}

/// Drains the queue, oldest-first, into one batch: an entry is taken only
/// while the batch's cumulative size stays within `threshold`; the first
/// entry that does not fit is left at the head of the queue. The drained
/// entries are claimed here, before any delivery outcome is known.
pub fn assemble_batch(queue: &mut DiskQueue, threshold: usize) -> (batch: Vec<StoredEntry>)
    requires
        old(queue).wf(),
    ensures
        final(queue).wf(),
        final(queue).spec_cap() == old(queue).spec_cap(),
        // Exactly the longest fitting prefix is taken, in FIFO order.
        batch@.len() == drain_count(old(queue)@, threshold as int),
        batch@.len() <= old(queue)@.len(),
        batch@ == old(queue)@.take(batch@.len() as int),
        final(queue)@ == old(queue)@.skip(batch@.len() as int),
        // The batch fits the threshold.
        total_size(batch@) <= threshold,
        // Maximality: when an entry is left behind, adding it would have
        // pushed the batch over the threshold.
        batch@.len() < old(queue)@.len() ==> total_size(batch@)
            + old(queue)@[batch@.len() as int].data@.len() > threshold,
{
    let mut batch: Vec<StoredEntry> = Vec::new();
    let mut bytes: usize = 0;
    proof {
        assert(old(queue)@.skip(0) =~= old(queue)@);
        assert(batch@ =~= old(queue)@.take(0));
        assert(batch@ =~= Seq::<StoredEntry>::empty());
    }
    loop
        invariant
            queue.wf(),
            queue.spec_cap() == old(queue).spec_cap(),
            bytes <= threshold,
            batch@.len() <= old(queue)@.len(),
            batch@ == old(queue)@.take(batch@.len() as int),
            queue@ == old(queue)@.skip(batch@.len() as int),
            bytes == total_size(batch@),
            drain_count(old(queue)@, threshold as int) == batch@.len() + drain_count(
                queue@,
                threshold - bytes,
            ),
        ensures
            queue.wf(),
            queue.spec_cap() == old(queue).spec_cap(),
            batch@.len() <= old(queue)@.len(),
            batch@ == old(queue)@.take(batch@.len() as int),
            queue@ == old(queue)@.skip(batch@.len() as int),
            bytes == total_size(batch@),
            bytes <= threshold,
            batch@.len() == drain_count(old(queue)@, threshold as int),
            batch@.len() < old(queue)@.len() ==> bytes
                + old(queue)@[batch@.len() as int].data@.len() > threshold,
        decreases queue@.len(),
    {
        let sz = match queue.head_size() {
            None => {
                proof {
                    assert(queue@.len() == 0);
                    assert(drain_count(queue@, threshold - bytes) == 0);
                }
                break;
            },
            Some(s) => s,
        };
        if sz > threshold - bytes {
            proof {
                assert(queue@[0].data@.len() > threshold - bytes);
                assert(drain_count(queue@, threshold - bytes) == 0);
                assert(old(queue)@[batch@.len() as int] == queue@[0]);
            }
            break;
        }
        let ghost prev_batch = batch@;
        let ghost prev_queue = queue@;
        let ghost prev_bytes = bytes;
        let e = match queue.pop_oldest() {
            Some(e) => e,
            None => {
                proof {
                    assert(false);
                }
                return batch;
            },
        };
        bytes = bytes + sz;
        batch.push(e);
        proof {
            let k = prev_batch.len() as int;
            assert(old(queue)@[k] == prev_queue[0]);
            assert(batch@ =~= old(queue)@.take(k + 1));
            crate::queue::lemma_total_size_push(prev_batch, prev_queue[0]);
            assert(queue@ =~= old(queue)@.skip(k + 1));
            assert(drain_count(prev_queue, threshold - prev_bytes) == 1 + drain_count(
                prev_queue.drop_first(),
                threshold - prev_bytes - prev_queue[0].data@.len(),
            ));
        }
    }
    batch
}

} // verus!
