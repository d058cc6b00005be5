//! The shared write pattern of the two indexes: a bounded buffer keyed by
//! document id, flushed as one batch when it is full, when the flush
//! interval has passed, or at shutdown.
//!
//! Within a buffer, re-indexing an id replaces the earlier version: a flush
//! emits one delete-and-add pair per id, applied to the index in one step,
//! so no reader state ever shows a deletion without its paired insertion.

use crate::envelope::Envelope;
use crate::envelope::EnvelopeView;
use crate::index::has_id;
use crate::index::unique_ids;
use crate::index::EnvelopeIndex;
use vstd::prelude::*;

verus! {

/// The buffer threshold of the envelope index.
pub const ENVELOPE_BATCH_SIZE: usize = 1000;

/// The buffer threshold of the raw-message index.
pub const EML_BATCH_SIZE: usize = 200;

/// The flush interval, in milliseconds.
pub const MAX_BUFFER_MS: u64 = 30000;

/// A pending batch of documents, one per id.
pub struct WriteBuffer {
    pub entries: Vec<Envelope>,
    /// Flush as soon as this many documents are pending.
    pub batch_size: usize,
    /// When the buffer was last flushed, in milliseconds.
    pub last_flush_ms: u64,
}

impl View for WriteBuffer {
    type V = Seq<EnvelopeView>;

    open spec fn view(&self) -> Seq<EnvelopeView> {
        self.entries.deep_view()
    }
}

impl WriteBuffer {
    pub open spec fn wf(&self) -> bool {
        unique_ids(self@)
    }

    pub fn new(batch_size: usize, now_ms: u64) -> (r: WriteBuffer)
        ensures
            r@ =~= Seq::<EnvelopeView>::empty(),
            r.wf(),
            r.batch_size == batch_size,
            r.last_flush_ms == now_ms,
    {
        let r = WriteBuffer { entries: Vec::new(), batch_size, last_flush_ms: now_ms };
        proof {
            assert(r@ =~= Seq::<EnvelopeView>::empty());
        }
        r
    }

    /// Queues a document under its id. A pending document with the same id
    /// is replaced: within one batch the last write wins.
    pub fn enqueue(&mut self, doc: Envelope)
        requires
            old(self).wf(),
        ensures
            final(self).wf(),
            final(self).batch_size == old(self).batch_size,
            final(self).last_flush_ms == old(self).last_flush_ms,
            has_id(final(self)@, doc@.id),
            (if has_id(old(self)@, doc@.id) {
                exists|i: int|
                    0 <= i < old(self)@.len() && old(self)@[i].id == doc@.id && final(self)@
                        =~= old(self)@.update(i, doc@)
            } else {
                final(self)@ =~= old(self)@.push(doc@)
            }),
    {
        let ghost d = doc@;
        let mut i: usize = 0;
        let n = self.entries.len();
        while i < n
            invariant
                n == self@.len(),
                i <= n,
                forall|k: int| 0 <= k < i ==> (#[trigger] self@[k]).id != d.id,
                d == doc@,
                self@ == old(self)@,
                self.batch_size == old(self).batch_size,
                self.last_flush_ms == old(self).last_flush_ms,
                self.wf(),
            decreases n - i,
        {
            proof {
                assert(self@[i as int] == self.entries@[i as int].deep_view());
            }
            if self.entries[i].id == doc.id {
                let ghost pre = self@;
                self.entries.set(i, doc);
                proof {
                    assert(self@ =~= pre.update(i as int, d));
                    assert forall|x: int, y: int|
                        0 <= x < y < self@.len() implies (#[trigger] self@[x]).id
                        != (#[trigger] self@[y]).id by {
                        assert(pre[x].id == self@[x].id || x == i);
                        assert(pre[y].id == self@[y].id || y == i);
                    }
                    assert(self@[i as int].id == d.id);
                }
                return ;
            }
            i = i + 1;
        }
        let ghost pre = self@;
        self.entries.push(doc);
        proof {
            assert(self@ =~= pre.push(d));
            assert(self@[pre.len() as int].id == d.id);
            assert forall|x: int, y: int|
                0 <= x < y < self@.len() implies (#[trigger] self@[x]).id
                != (#[trigger] self@[y]).id by {
                if y == pre.len() {
                    assert(self@[x] == pre[x]);
                    assert(!has_id(pre, d.id));
                }
            }
        }
    }

    /// Whether a flush is due: the buffer reached its threshold, or the
    /// flush interval has passed and something is pending.
    pub fn flush_due(&self, now_ms: u64) -> (r: bool)
        ensures
            r == (self@.len() >= self.batch_size || (now_ms >= self.last_flush_ms
                + MAX_BUFFER_MS && self@.len() > 0)),
    {
        if self.entries.len() >= self.batch_size {
            return true;
        }
        if self.entries.len() == 0 {
            return false;
        }
        now_ms >= self.last_flush_ms && now_ms - self.last_flush_ms >= MAX_BUFFER_MS
    }

    /// Takes the pending batch out, leaving the buffer empty and recording
    /// the flush time.
    pub fn drain(&mut self, now_ms: u64) -> (batch: Vec<Envelope>)
        requires
            old(self).wf(),
        ensures
            batch.deep_view() == old(self)@,
            final(self)@ =~= Seq::<EnvelopeView>::empty(),
            final(self).wf(),
            final(self).batch_size == old(self).batch_size,
            final(self).last_flush_ms == now_ms,
            unique_ids(batch.deep_view()),
    {
        let mut batch: Vec<Envelope> = Vec::new();
        core::mem::swap(&mut batch, &mut self.entries);
        self.last_flush_ms = now_ms;
        proof {
            assert(self@ =~= Seq::<EnvelopeView>::empty());
        }
        batch
    }
}

/// Applies one flushed batch to the index in a single step: every batched id
/// ends up present, holding the batched document. No id is deleted without
/// its replacement appearing in the same step, and documents outside the
/// batch are untouched.
pub fn apply_batch(index: &mut EnvelopeIndex, batch: Vec<Envelope>)
    requires
        old(index).wf(),
        unique_ids(batch.deep_view()),
    ensures
        final(index).wf(),
        // every batched document is now stored
        forall|b: int|
            0 <= b < batch.deep_view().len() ==> has_id(
                final(index)@,
                (#[trigger] batch.deep_view()[b]).id,
            ),
        // and it is stored holding the batched content
        forall|b: int|
            0 <= b < batch.deep_view().len() ==> crate::index::has_doc(
                final(index)@,
                #[trigger] batch.deep_view()[b],
            ),
        // what is stored is either a batched document or an untouched old one
        forall|i: int|
            0 <= i < final(index)@.len() ==> (batch.deep_view().contains(#[trigger] final(index)@[i])
                || old(index)@.contains(final(index)@[i])),
        // old documents outside the batch survive
        forall|i: int|
            0 <= i < old(index)@.len() && !has_id(batch.deep_view(), (#[trigger] old(index)@[i]).id)
                ==> has_id(final(index)@, old(index)@[i].id),
{
    let ghost bv = batch.deep_view();
    let n = batch.len();
    let mut rest = batch;
    let ghost pre = index@;
    let mut done: usize = 0;
    while rest.len() > 0
        invariant
            index.wf(),
            unique_ids(bv),
            bv.len() <= usize::MAX,
            rest.deep_view() =~= bv.subrange(0, bv.len() - done),
            done == bv.len() - rest.deep_view().len(),
            // processed suffix documents are stored
            forall|b: int|
                bv.len() - done <= b < bv.len() ==> has_id(index@, (#[trigger] bv[b]).id),
            forall|b: int|
                bv.len() - done <= b < bv.len() ==> crate::index::has_doc(
                    index@,
                    #[trigger] bv[b],
                ),
            // provenance
            forall|i: int|
                0 <= i < index@.len() ==> (bv.contains(#[trigger] index@[i]) || pre.contains(
                    index@[i],
                )),
            // untouched-by-id survival
            forall|i: int|
                0 <= i < pre.len() && !has_id(bv, (#[trigger] pre[i]).id) ==> has_id(
                    index@,
                    pre[i].id,
                ),
        decreases rest@.len(),
    {
        let ghost rest_pre = rest.deep_view();
        let e = rest.pop().unwrap();
        proof {
            assert(rest.deep_view() =~= rest_pre.drop_last());
            assert(e@ == rest_pre.last());
            assert(e@ == bv[bv.len() - done - 1]);
        }
        let ghost ixpre = index@;
        index.upsert(e);
        done = done + 1;
        proof {
            let d = e@;
            crate::index::lemma_upsert_preserves(ixpre, index@, d);
            assert forall|b: int|
                bv.len() - done <= b < bv.len() implies crate::index::has_doc(
                index@,
                #[trigger] bv[b],
            ) by {
                if b == bv.len() - done {
                    assert(bv[b] == d);
                } else {
                    assert(crate::index::has_doc(ixpre, bv[b]));
                    assert(bv[b].id != d.id) by {
                        assert(bv[bv.len() - done] == d);
                    }
                }
            }
            if has_id(ixpre, d.id) {
                let i = choose|i: int|
                    0 <= i < ixpre.len() && ixpre[i].id == d.id && index@ =~= ixpre.update(i, d);
                assert forall|x: int|
                    0 <= x < index@.len() implies (bv.contains(#[trigger] index@[x]) || pre.contains(
                    index@[x],
                )) by {
                    if x == i {
                        assert(bv.contains(d)) by {
                            assert(bv[bv.len() - done] == d);
                        }
                    } else {
                        assert(index@[x] == ixpre[x]);
                    }
                }
                assert forall|b: int|
                    bv.len() - done <= b < bv.len() implies has_id(index@, (#[trigger] bv[b]).id) by {
                    if b == bv.len() - done {
                        assert(index@[i].id == d.id);
                    } else {
                        assert(has_id(ixpre, bv[b].id));
                        let w = choose|w: int| 0 <= w < ixpre.len() && ixpre[w].id == bv[b].id;
                        if w == i {
                            assert(index@[i].id == d.id);
                            assert(unique_ids(bv));
                            assert(bv[b].id != d.id) by {
                                assert(bv[bv.len() - done] == d);
                            }
                            assert(false);
                        } else {
                            assert(index@[w].id == bv[b].id);
                        }
                    }
                }
                assert forall|x: int|
                    0 <= x < pre.len() && !has_id(bv, (#[trigger] pre[x]).id) implies has_id(
                    index@,
                    pre[x].id,
                ) by {
                    assert(has_id(ixpre, pre[x].id));
                    let w = choose|w: int| 0 <= w < ixpre.len() && ixpre[w].id == pre[x].id;
                    if w == i {
                        assert(bv.contains(d)) by {
                            assert(bv[bv.len() - done] == d);
                        }
                        assert(has_id(bv, pre[x].id)) by {
                            let z = choose|z: int| 0 <= z < bv.len() && bv[z] == d;
                            assert(bv[z].id == pre[x].id);
                        }
                        assert(false);
                    } else {
                        assert(index@[w].id == pre[x].id);
                    }
                }
            } else {
                assert(index@ =~= ixpre.push(d));
                assert forall|x: int|
                    0 <= x < index@.len() implies (bv.contains(#[trigger] index@[x]) || pre.contains(
                    index@[x],
                )) by {
                    if x == ixpre.len() {
                        assert(bv.contains(d)) by {
                            assert(bv[bv.len() - done] == d);
                        }
                    } else {
                        assert(index@[x] == ixpre[x]);
                    }
                }
                assert forall|b: int|
                    bv.len() - done <= b < bv.len() implies has_id(index@, (#[trigger] bv[b]).id) by {
                    if b == bv.len() - done {
                        assert(index@[ixpre.len() as int].id == d.id);
                    } else {
                        assert(has_id(ixpre, bv[b].id));
                        let w = choose|w: int| 0 <= w < ixpre.len() && ixpre[w].id == bv[b].id;
                        assert(index@[w].id == bv[b].id);
                    }
                }
                assert forall|x: int|
                    0 <= x < pre.len() && !has_id(bv, (#[trigger] pre[x]).id) implies has_id(
                    index@,
                    pre[x].id,
                ) by {
                    assert(has_id(ixpre, pre[x].id));
                    let w = choose|w: int| 0 <= w < ixpre.len() && ixpre[w].id == pre[x].id;
                    assert(index@[w].id == pre[x].id);
                }
            }
        }
    }
    proof {
        assert(rest.deep_view().len() == 0);
        assert(done == bv.len());
    }
}

/// The commit retry policy: a transient I/O failure is retried up to three
/// times with linear backoff; the delay before retry `attempt` (0-based) is
/// `(attempt + 1)` seconds. Exhausted retries, or any other failure, are
/// fatal.
pub fn commit_retry_delay_ms(attempt: u32, io_error: bool) -> (r: Option<u64>)
    ensures
        r matches Some(d) ==> io_error && attempt < 3 && d == (attempt + 1) * 1000,
        r is None <==> (!io_error || attempt >= 3),
{
    if io_error && attempt < 3 {
        Some(((attempt + 1) as u64) * 1000)
    } else {
        None
    }
}

} // verus!
