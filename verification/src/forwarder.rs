//! The forwarder: the single owner of the durable queue and the retry
//! governor, stepped by two events.
//!
//! A record arriving from the intake channel is written through to the
//! durable queue under a fresh key. A flush tick assembles one batch,
//! prepares its wire body, and — after the caller has attempted delivery —
//! takes the outcome back into the retry budget. The caller runs the event
//! loop, performs storage and network effects, and hands every decision to
//! these steps; nothing here blocks or performs I/O.
//!
//! Entries are claimed out of the durable queue when a batch is assembled,
//! before the delivery outcome is known: a batch lost in flight is not
//! re-queued, and the retry budget is bookkeeping only — the next tick
//! always attempts whatever is newly available.
use vstd::prelude::*;
use crate::batch::{assemble_batch, drain_count, FLUSH_THRESHOLD_BYTES};
use crate::codec::{build_body, concat_of, is_zstd_mode_spec, zstd_frame_of, views_of, WireBody,
    ZSTD_LEVEL};
use crate::naming::{fresh_entry_name, is_entry_key};
use crate::queue::{clone_bytes, total_size, DiskQueue, StoredEntry};
use crate::retry::RetryGovernor;

verus! {

/// What one admitted record did to the durable queue: the key it was
/// stored under, and the entries that were evicted to make room, oldest
/// first. The caller mirrors both to storage.
pub struct AdmitOutcome {
    pub name: Vec<u8>,
    pub evicted: Vec<StoredEntry>,
}

/// What a flush tick decided.
pub enum FlushStep {
    /// Nothing fit in the batch; nothing to deliver this cycle.
    Empty,
    /// One wire body, ready for a single delivery attempt.
    Ready(WireBody),
}

/// What a flush tick drained and decided. The drained keys name the
/// entries that were claimed from the queue, for the caller to drop from
/// storage whatever the delivery outcome.
pub struct FlushOutcome {
    pub drained: Vec<Vec<u8>>,
    pub step: FlushStep,
}

/// The body a flush assembles from the first `k` entries of the queue.
pub open spec fn drained_body(s: Seq<StoredEntry>, k: int) -> Seq<u8> {
    concat_of(s.take(k).map_values(|e: StoredEntry| e.data@))
}

/// The orchestrator of the delivery pipeline.
pub struct Forwarder {
    queue: DiskQueue,
    retry: RetryGovernor,
    compression: Vec<u8>,
}

impl Forwarder {
    pub closed spec fn spec_queue(&self) -> DiskQueue {
        self.queue
    }

    pub closed spec fn spec_retry(&self) -> RetryGovernor {
        self.retry
    }

    pub closed spec fn spec_compression(&self) -> Seq<u8> {
        self.compression@
    }

    pub open spec fn wf(&self) -> bool {
        self.spec_queue().wf() && self.spec_retry().wf()
    }

    /// A forwarder over an opened queue, with a full retry budget and the
    /// configured compression mode.
    pub fn new(queue: DiskQueue, retry_budget: usize, compression: Vec<u8>) -> (f: Forwarder)
        requires
            queue.wf(),
        ensures
            f.wf(),
            f.spec_queue() == queue,
            f.spec_retry().spec_initial() == retry_budget,
            f.spec_retry().spec_budget() == retry_budget,
            f.spec_compression() == compression@,
    {
        Forwarder { queue, retry: RetryGovernor::new(retry_budget), compression }
    }

    /// One record arrived: write it through to the durable queue under a
    /// fresh key, evicting oldest entries first when over capacity.
    pub fn on_record(&mut self, data: Vec<u8>) -> (r: AdmitOutcome)
        requires
            old(self).wf(),
        ensures
            final(self).wf(),
            final(self).spec_retry() == old(self).spec_retry(),
            final(self).spec_compression() == old(self).spec_compression(),
            final(self).spec_queue().spec_cap() == old(self).spec_queue().spec_cap(),
            is_entry_key(r.name@),
            // Eviction acts on the oldest entries, before admission.
            r.evicted@.len() <= old(self).spec_queue()@.len(),
            r.evicted@ == old(self).spec_queue()@.take(r.evicted@.len() as int),
            total_size(old(self).spec_queue()@.skip(r.evicted@.len() as int))
                <= old(self).spec_queue().spec_cap(),
            r.evicted@.len() > 0 ==> total_size(
                old(self).spec_queue()@.skip(r.evicted@.len() as int),
            ) + r.evicted@.last().data@.len() > old(self).spec_queue().spec_cap(),
            // The record is resident afterwards, under the fresh key.
            exists|e: StoredEntry|
                e.name@ == r.name@ && e.data@ == data@ && final(self).spec_queue()@.to_multiset()
                    == #[trigger] old(self).spec_queue()@.skip(
                    r.evicted@.len() as int,
                ).to_multiset().insert(e),
            final(self).spec_queue()@.len() == old(self).spec_queue()@.len() - r.evicted@.len()
                + 1,
            // The resident total stays within one record of the capacity.
            total_size(final(self).spec_queue()@) <= old(self).spec_queue().spec_cap()
                + data@.len(),
    {
        let name = fresh_entry_name();
        let name_copy = clone_bytes(&name);
        let ghost gname = name;
        let ghost gdata = data;
        let evicted = self.queue.enqueue(name, data);
        proof {
            let e = StoredEntry { name: gname, data: gdata };
            assert(e.name@ == name_copy@ && e.data@ == gdata@
                && final(self).spec_queue()@.to_multiset() == old(self).spec_queue()@.skip(
                evicted@.len() as int,
            ).to_multiset().insert(e));
        }
        AdmitOutcome { name: name_copy, evicted }
    }

    /// The admitted record could not be persisted: take the admission
    /// back, so the record is not retained. Non-fatal: the loop goes on.
    pub fn on_persist_failed(&mut self, name: &[u8]) -> (r: Option<StoredEntry>)
        requires
            old(self).wf(),
        ensures
            final(self).wf(),
            final(self).spec_retry() == old(self).spec_retry(),
            final(self).spec_compression() == old(self).spec_compression(),
            final(self).spec_queue().spec_cap() == old(self).spec_queue().spec_cap(),
            r is None ==> final(self).spec_queue()@ == old(self).spec_queue()@ && forall|i: int|
                0 <= i < old(self).spec_queue()@.len() ==> #[trigger] old(
                    self,
                ).spec_queue()@[i].name@ != name@,
            r is Some ==> r->0.name@ == name@ && exists|i: int|
                0 <= i < old(self).spec_queue()@.len() && r->0 == old(self).spec_queue()@[i]
                    && final(self).spec_queue()@ == #[trigger] old(self).spec_queue()@.remove(i),
    {
        self.queue.remove_entry(name)
    }

    /// One flush tick: claim the longest fitting prefix of the queue as a
    /// batch and prepare its wire body. An empty batch delivers nothing;
    /// every non-empty batch comes back ready for one delivery attempt.
    pub fn on_flush_tick(&mut self) -> (r: FlushOutcome)
        requires
            old(self).wf(),
        ensures
            final(self).wf(),
            final(self).spec_retry() == old(self).spec_retry(),
            final(self).spec_compression() == old(self).spec_compression(),
            final(self).spec_queue().spec_cap() == old(self).spec_queue().spec_cap(),
            // Exactly the longest fitting prefix is claimed, in FIFO order.
            r.drained@.len() == drain_count(
                old(self).spec_queue()@,
                FLUSH_THRESHOLD_BYTES as int,
            ),
            forall|i: int|
                0 <= i < r.drained@.len() ==> #[trigger] r.drained@[i]
                    == old(self).spec_queue()@[i].name,
            final(self).spec_queue()@ == old(self).spec_queue()@.skip(r.drained@.len() as int),
            // An empty batch means nothing is delivered this cycle; any
            // other batch is owed a ready body.
            r.step is Empty <==> r.drained@.len() == 0,
            r.drained@.len() > 0 ==> r.step is Ready,
            // A ready body carries the claimed records, raw or framed.
            r.step matches FlushStep::Ready(b) ==> {
                let body = drained_body(old(self).spec_queue()@, r.drained@.len() as int);
                &&& b.zstd == is_zstd_mode_spec(old(self).spec_compression())
                &&& !is_zstd_mode_spec(old(self).spec_compression()) ==> b.bytes@ == body
                &&& is_zstd_mode_spec(old(self).spec_compression()) ==> b.bytes@
                    == zstd_frame_of(body, ZSTD_LEVEL as int)
            },
    {
        let mut batch = assemble_batch(&mut self.queue, FLUSH_THRESHOLD_BYTES);
        let ghost claimed = batch@;
        let mut drained: Vec<Vec<u8>> = Vec::new();
        let mut records: Vec<Vec<u8>> = Vec::new();
        loop
            invariant
                drained@.len() == records@.len(),
                drained@.len() + batch@.len() == claimed.len(),
                batch@ == claimed.skip(drained@.len() as int),
                forall|i: int| 0 <= i < drained@.len() ==> #[trigger] drained@[i]
                    == claimed[i].name,
                forall|i: int| 0 <= i < records@.len() ==> #[trigger] records@[i]
                    == claimed[i].data,
            ensures
                drained@.len() == claimed.len(),
                records@.len() == claimed.len(),
                forall|i: int| 0 <= i < drained@.len() ==> #[trigger] drained@[i]
                    == claimed[i].name,
                forall|i: int| 0 <= i < records@.len() ==> #[trigger] records@[i]
                    == claimed[i].data,
            decreases batch@.len(),
        {
            if batch.len() == 0 {
                break;
            }
            let ghost prev = batch@;
            let e = batch.remove(0);
            proof {
                assert(e == claimed[drained@.len() as int]);
                assert(prev.remove(0) =~= prev.drop_first());
                assert(batch@ =~= claimed.skip(drained@.len() as int + 1));
            }
            drained.push(e.name);
            records.push(e.data);
        }
        if drained.len() == 0 {
            return FlushOutcome { drained, step: FlushStep::Empty };
        }
        let wb = build_body(&records, self.compression.as_slice());
        proof {
            let k = claimed.len() as int;
            assert(views_of(records@) =~= old(self).spec_queue()@.take(k).map_values(
                |e: StoredEntry| e.data@,
            ));
        }
        let step = FlushStep::Ready(wb);
        proof {
            assert forall|i: int| 0 <= i < drained@.len() implies #[trigger] drained@[i] == old(
                self,
            ).spec_queue()@[i].name by {
                let oldq = old(self).spec_queue()@;
                assert(claimed == oldq.take(claimed.len() as int));
                assert(oldq.take(claimed.len() as int)[i] == oldq[i]);
                assert(claimed[i] == old(self).spec_queue()@[i]);
            }
        }
        FlushOutcome { drained, step }
    }

    /// The delivery outcome of the last flush: a success restores the full
    /// retry budget, a failure spends one credit, saturating at zero. The
    /// budget never gates the next attempt.
    pub fn on_send_outcome(&mut self, success: bool)
        requires
            old(self).wf(),
        ensures
            final(self).wf(),
            final(self).spec_queue() == old(self).spec_queue(),
            final(self).spec_compression() == old(self).spec_compression(),
            final(self).spec_retry().spec_initial() == old(self).spec_retry().spec_initial(),
            success ==> final(self).spec_retry().spec_budget() == old(
                self,
            ).spec_retry().spec_initial(),
            !success ==> final(self).spec_retry().spec_budget() == if old(
                self,
            ).spec_retry().spec_budget() > 0 {
                (old(self).spec_retry().spec_budget() - 1) as usize
            } else {
                0usize
            },
    {
        if success {
            self.retry.on_success();
        } else {
            self.retry.on_failure();
        }
    }

    /// The durable queue, for observation.
    pub fn queue(&self) -> (q: &DiskQueue)
        ensures
            *q == self.spec_queue(),
    {
        &self.queue
    }

    /// The remaining retry credits.
    pub fn retry_budget(&self) -> (b: usize)
        ensures
            b == self.spec_retry().spec_budget(),
    {
        self.retry.budget()
    }

    /// True when the retry budget is spent; reported beside delivery
    /// warnings, never acted on.
    pub fn retry_exhausted(&self) -> (e: bool)
        ensures
            e == (self.spec_retry().spec_budget() == 0),
    {
        self.retry.exhausted()
    }
}

} // verus!
