//! The IMAP synchronization logic: the uid batching policy, the
//! sequence-range arithmetic of paged fetches, the catch-up cursor, the
//! uid-validity reset rule, progress reporting for large catch-ups, and
//! the controller that keeps at most one worker per account and stops one
//! cleanly.

use crate::index::EnvelopeIndex;
use crate::write_buffer::apply_batch;
use vstd::prelude::*;

verus! {

/// The default per-fetch batch size where the account sets none.
pub const DEFAULT_BATCH_SIZE: u32 = 50;

/// Progress is published when more than this many batches worth of uids
/// are discovered at once.
pub const PROGRESS_FACTOR: u64 = 5;

/// The uids a closed range covers, in order.
pub open spec fn expand_range(lo: int, hi: int) -> Seq<u32>
    decreases hi - lo + 1,
{
    if lo > hi || lo < 0 || hi > u32::MAX {
        Seq::empty()
    } else {
        seq![lo as u32] + expand_range(lo + 1, hi)
    }
}

/// The uids a batch of ranges covers, in order.
pub open spec fn expand_batch(batch: Seq<(u32, u32)>) -> Seq<u32>
    decreases batch.len(),
{
    if batch.len() == 0 {
        Seq::empty()
    } else {
        expand_range(batch[0].0 as int, batch[0].1 as int) + expand_batch(batch.drop_first())
    }
}

/// The uids a whole batching covers, in order.
pub open spec fn expand_all(batches: Seq<Seq<(u32, u32)>>) -> Seq<u32>
    decreases batches.len(),
{
    if batches.len() == 0 {
        Seq::empty()
    } else {
        expand_batch(batches[0]) + expand_all(batches.drop_first())
    }
}

/// How many uids a batch of ranges covers.
pub open spec fn batch_count(batch: Seq<(u32, u32)>) -> int
    decreases batch.len(),
{
    if batch.len() == 0 {
        0
    } else {
        (batch[0].1 - batch[0].0 + 1) + batch_count(batch.drop_first())
    }
}

/// A range list is well formed when every range is ordered.
pub open spec fn batch_wf(batch: Seq<(u32, u32)>) -> bool {
    forall|i: int| 0 <= i < batch.len() ==> (#[trigger] batch[i]).0 <= batch[i].1
}

/// Ranges inside one batch are maximal runs: consecutive ranges never
/// touch, so a contiguous run is never split inside a batch.
pub open spec fn batch_collapsed(batch: Seq<(u32, u32)>) -> bool {
    forall|i: int| 0 <= i < batch.len() - 1 ==> (#[trigger] batch[i]).1 + 1 < batch[i + 1].0
}

proof fn lemma_expand_range_snoc(lo: int, hi: int)
    requires
        0 <= lo <= hi + 1,
        hi + 1 <= u32::MAX,
    ensures
        expand_range(lo, hi + 1) =~= expand_range(lo, hi) + seq![(hi + 1) as u32],
    decreases hi - lo + 1,
{
    if lo <= hi {
        lemma_expand_range_snoc(lo + 1, hi);
        assert(expand_range(lo, hi + 1) == seq![lo as u32] + expand_range(lo + 1, hi + 1));
        assert(expand_range(lo, hi) == seq![lo as u32] + expand_range(lo + 1, hi));
    } else {
        assert(expand_range(lo, hi) =~= Seq::<u32>::empty());
        assert(expand_range(lo + 1, hi + 1) =~= Seq::<u32>::empty());
        assert(expand_range(lo, hi + 1) =~= seq![lo as u32]);
    }
}

proof fn lemma_expand_batch_snoc(batch: Seq<(u32, u32)>, r: (u32, u32))
    ensures
        expand_batch(batch.push(r)) =~= expand_batch(batch) + expand_range(r.0 as int, r.1 as int),
    decreases batch.len(),
{
    if batch.len() == 0 {
        assert(batch.push(r).drop_first() =~= Seq::<(u32, u32)>::empty());
        assert(expand_batch(Seq::<(u32, u32)>::empty()) =~= Seq::<u32>::empty());
        assert(batch.push(r)[0] == r);
        assert(expand_batch(batch.push(r)) =~= expand_range(r.0 as int, r.1 as int));
    } else {
        assert(batch.push(r).drop_first() =~= batch.drop_first().push(r));
        assert(batch.push(r)[0] == batch[0]);
        lemma_expand_batch_snoc(batch.drop_first(), r);
    }
}

proof fn lemma_batch_count_snoc(batch: Seq<(u32, u32)>, r: (u32, u32))
    ensures
        batch_count(batch.push(r)) == batch_count(batch) + (r.1 - r.0 + 1),
    decreases batch.len(),
{
    if batch.len() == 0 {
        assert(batch.push(r).drop_first() =~= Seq::<(u32, u32)>::empty());
        assert(batch_count(Seq::<(u32, u32)>::empty()) == 0);
        assert(batch.push(r)[0] == r);
    } else {
        assert(batch.push(r).drop_first() =~= batch.drop_first().push(r));
        assert(batch.push(r)[0] == batch[0]);
        lemma_batch_count_snoc(batch.drop_first(), r);
    }
}

proof fn lemma_expand_all_snoc(batches: Seq<Seq<(u32, u32)>>, b: Seq<(u32, u32)>)
    ensures
        expand_all(batches.push(b)) =~= expand_all(batches) + expand_batch(b),
    decreases batches.len(),
{
    if batches.len() == 0 {
        assert(batches.push(b).drop_first() =~= Seq::<Seq<(u32, u32)>>::empty());
        assert(expand_all(Seq::<Seq<(u32, u32)>>::empty()) =~= Seq::<u32>::empty());
        assert(batches.push(b)[0] == b);
        assert(expand_all(batches.push(b)) =~= expand_batch(b));
    } else {
        assert(batches.push(b).drop_first() =~= batches.drop_first().push(b));
        assert(batches.push(b)[0] == batches[0]);
        lemma_expand_all_snoc(batches.drop_first(), b);
    }
}

/// Splits a sorted uid list into batches of collapsed contiguous ranges:
/// the batches cover exactly the input uids in order, each batch holds at
/// most `batch_size` uids, every batch before the last holds exactly
/// `batch_size`, and no batch splits a contiguous run into touching
/// ranges.
pub fn generate_uid_batches(uids: &Vec<u32>, batch_size: u32) -> (r: Vec<Vec<(u32, u32)>>)
    requires
        batch_size >= 1,
        forall|i: int, j: int| 0 <= i < j < uids@.len() ==> uids@[i] < uids@[j],
    ensures
        expand_all(r.deep_view()) =~= uids@,
        forall|k: int|
            0 <= k < r.deep_view().len() ==> batch_count(#[trigger] r.deep_view()[k])
                <= batch_size,
        forall|k: int|
            0 <= k < r.deep_view().len() - 1 ==> batch_count(#[trigger] r.deep_view()[k])
                == batch_size,
        forall|k: int| 0 <= k < r.deep_view().len() ==> batch_wf(#[trigger] r.deep_view()[k]),
        forall|k: int|
            0 <= k < r.deep_view().len() ==> batch_collapsed(#[trigger] r.deep_view()[k]),
{
    let mut batches: Vec<Vec<(u32, u32)>> = Vec::new();
    let mut cur_batch: Vec<(u32, u32)> = Vec::new();
    let mut have_range = false;
    let mut lo: u32 = 0;
    let mut hi: u32 = 0;
    let mut count: u32 = 0;
    let mut i: usize = 0;
    proof {
        assert(expand_all(batches.deep_view()) =~= Seq::<u32>::empty());
        assert(expand_batch(cur_batch@) =~= Seq::<u32>::empty());
        assert(uids@.subrange(0, 0) =~= Seq::<u32>::empty());
    }
    while i < uids.len()
        invariant
            batch_size >= 1,
            forall|x: int, y: int| 0 <= x < y < uids@.len() ==> uids@[x] < uids@[y],
            i <= uids@.len(),
            count <= batch_size,
            !have_range ==> count == batch_count(cur_batch@),
            have_range ==> lo <= hi && count == batch_count(cur_batch@) + (hi - lo + 1),
            have_range ==> count >= 1,
            expand_all(batches.deep_view()) + expand_batch(cur_batch@) + (if have_range {
                expand_range(lo as int, hi as int)
            } else {
                Seq::<u32>::empty()
            }) =~= uids@.subrange(0, i as int),
            i > 0 && have_range ==> hi == uids@[i - 1],
            i > 0 ==> have_range,
            batch_wf(cur_batch@),
            batch_collapsed(cur_batch@),
            have_range && cur_batch@.len() > 0 ==> cur_batch@[cur_batch@.len() - 1].1 + 1 < lo,
            forall|k: int|
                0 <= k < batches.deep_view().len() ==> batch_count(
                    #[trigger] batches.deep_view()[k],
                ) == batch_size,
            forall|k: int|
                0 <= k < batches.deep_view().len() ==> batch_wf(#[trigger] batches.deep_view()[k]),
            forall|k: int|
                0 <= k < batches.deep_view().len() ==> batch_collapsed(
                    #[trigger] batches.deep_view()[k],
                ),
        decreases uids@.len() - i,
    {
        let u = uids[i];
        proof {
            assert(uids@.subrange(0, i + 1) =~= uids@.subrange(0, i as int).push(uids@[i as int]));
            if i > 0 && have_range {
                assert(uids@[i - 1] < uids@[i as int]);
            }
        }
        if have_range && count < batch_size && hi < u32::MAX && u == hi + 1 {
            proof {
                lemma_expand_range_snoc(lo as int, hi as int);
            }
            hi = u;
            count = count + 1;
        } else {
            let ghost old_batches = batches.deep_view();
            let ghost old_cur = cur_batch@;
            if have_range {
                proof {
                    lemma_expand_batch_snoc(cur_batch@, (lo, hi));
                    lemma_batch_count_snoc(cur_batch@, (lo, hi));
                }
                cur_batch.push((lo, hi));
            }
            if count == batch_size {
                let ghost closing = cur_batch@;
                let full = cur_batch;
                cur_batch = Vec::new();
                proof {
                    lemma_expand_all_snoc(batches.deep_view(), closing);
                    assert(expand_batch(cur_batch@) =~= Seq::<u32>::empty());
                }
                batches.push(full);
                proof {
                    assert(batches.deep_view() =~~= old_batches.push(closing));
                }
                count = 0;
            }
            proof {
                assert(expand_range(u as int + 1, u as int) =~= Seq::<u32>::empty());
                assert(expand_range(u as int, u as int) =~= seq![u]);
            }
            lo = u;
            hi = u;
            have_range = true;
            count = count + 1;
        }
        i = i + 1;
    }
    let ghost old_batches = batches.deep_view();
    let ghost old_cur = cur_batch@;
    if have_range {
        proof {
            lemma_expand_batch_snoc(cur_batch@, (lo, hi));
            lemma_batch_count_snoc(cur_batch@, (lo, hi));
        }
        cur_batch.push((lo, hi));
    }
    if cur_batch.len() > 0 {
        let ghost closing = cur_batch@;
        proof {
            lemma_expand_all_snoc(batches.deep_view(), closing);
        }
        let full = cur_batch;
        batches.push(full);
        proof {
            assert(batches.deep_view() =~~= old_batches.push(closing));
        }
    } else {
        proof {
            assert(expand_batch(cur_batch@) =~= Seq::<u32>::empty());
        }
    }
    proof {
        assert(uids@.subrange(0, uids@.len() as int) =~= uids@);
    }
    batches
}

/// Whether a catch-up is large enough that per-batch progress is
/// published: the discovered count exceeds five batches' worth.
pub fn progress_needed(discovered: u64, batch_size: u32) -> (r: bool)
    ensures
        r == (discovered > PROGRESS_FACTOR * batch_size),
{
    discovered > PROGRESS_FACTOR * (batch_size as u64)
}

/// The running-state progress values a large drain publishes: strictly
/// increasing from one up to the batch count.
pub fn progress_sequence(n_batches: u32) -> (r: Vec<u32>)
    ensures
        r@.len() == n_batches,
        forall|k: int| 0 <= k < r@.len() ==> #[trigger] r@[k] == k + 1,
        forall|i: int, j: int| 0 <= i < j < r@.len() ==> r@[i] < r@[j],
    decreases n_batches,
{
    let mut out: Vec<u32> = Vec::new();
    let mut k: u32 = 0;
    while k < n_batches
        invariant
            k <= n_batches,
            out@.len() == k,
            forall|x: int| 0 <= x < k ==> #[trigger] out@[x] == x + 1,
        decreases n_batches - k,
    {
        out.push(k + 1);
        k = k + 1;
    }
    out
}

/// The catch-up cursor: one past the highest indexed uid, or the first uid
/// where the mailbox holds nothing yet.
pub fn catchup_start_uid(max_uid: Option<u64>) -> (r: u64)
    ensures
        match max_uid {
            Some(m) => r == (if m < u64::MAX {
                (m + 1) as u64
            } else {
                m
            }),
            None => r == 1,
        },
{
    match max_uid {
        Some(m) => if m < u64::MAX {
            m + 1
        } else {
            m
        },
        None => 1,
    }
}

/// The uid-validity reset rule: a cached value that differs from the
/// server's reported value makes every cached uid stale, so the mailbox's
/// documents must be dropped and the cursor reset.
pub fn uid_validity_reset_needed(cached: Option<u32>, server: Option<u32>) -> (r: bool)
    ensures
        r == (cached is Some && server is Some && cached != server),
{
    match (cached, server) {
        (Some(c), Some(s)) => c != s,
        _ => false,
    }
}

/// The sequence-number window a paged fetch retrieves: for a mailbox with
/// `total` messages, page `page` of size `page_size`, newest first when
/// descending. Yields nothing when the page lies past the mailbox.
pub fn fetch_range(total: u64, page: u64, page_size: u64, desc: bool) -> (r: Option<(u64, u64)>)
    requires
        page >= 1,
        page_size >= 1,
    ensures
        r matches Some(w) ==> 1 <= w.0 <= w.1 <= total && w.1 - w.0 + 1 <= page_size,
        total == 0 ==> r is None,
        (desc && total > 0) ==> (match r {
            Some(w) => w.1 == (if total > (page - 1) * page_size {
                total - (page - 1) * page_size
            } else {
                0
            }) && w.0 as int == (if w.1 as int - (page_size as int - 1) >= 1 {
                w.1 as int - (page_size as int - 1)
            } else {
                1int
            }),
            None => total <= (page - 1) * page_size,
        }),
        (!desc && total > 0) ==> (match r {
            Some(w) => w.0 == (page - 1) * page_size + 1 && w.1 == (if w.0 + (page_size - 1)
                <= total {
                (w.0 + page_size - 1) as u64
            } else {
                total
            }),
            None => (page - 1) * page_size + 1 > total,
        }),
{
    if total == 0 {
        return None;
    }
    proof {
        assert(((page - 1) as u128) * (page_size as u128) <= 0xffffffffffffffffu128
            * 0xffffffffffffffffu128) by (nonlinear_arith)
            requires
                ((page - 1) as u128) <= 0xffffffffffffffffu128,
                ((page_size) as u128) <= 0xffffffffffffffffu128,
        ;
    }
    let off128: u128 = ((page - 1) as u128) * (page_size as u128);
    if desc {
        if off128 >= total as u128 {
            return None;
        }
        let end = total - (off128 as u64);
        let start = if end > page_size - 1 {
            let s = end - (page_size - 1);
            if s >= 1 {
                s
            } else {
                1
            }
        } else {
            1
        };
        Some((start, end))
    } else {
        if off128 >= total as u128 {
            return None;
        }
        let start = (off128 as u64) + 1;
        let end = if start <= total - (if page_size <= total {
            page_size - 1
        } else {
            total
        }) {
            start + (page_size - 1)
        } else {
            total
        };
        let end2 = if end > total {
            total
        } else {
            end
        };
        Some((start, end2))
    }
}

/// The sync controller: the accounts with a live worker, at most one each.
pub struct SyncController {
    pub running: Vec<u64>,
}

impl SyncController {
    /// No account appears twice.
    pub open spec fn wf(&self) -> bool {
        forall|i: int, j: int|
            0 <= i < j < self.running@.len() ==> (#[trigger] self.running@[i])
                != (#[trigger] self.running@[j])
    }

    /// Whether this account's worker may still commit documents.
    pub open spec fn is_running(&self, account_id: u64) -> bool {
        self.running@.contains(account_id)
    }

    pub fn new() -> (r: SyncController)
        ensures
            r.wf(),
            r.running@ =~= Seq::<u64>::empty(),
    {
        SyncController { running: Vec::new() }
    }

    /// Starts a worker for the account; idempotent: an account with a live
    /// worker is left alone, so there is never more than one.
    pub fn trigger_start(&mut self, account_id: u64) -> (started: bool)
        requires
            old(self).wf(),
        ensures
            final(self).wf(),
            final(self).is_running(account_id),
            started <==> !old(self).is_running(account_id),
            started ==> final(self).running@ =~= old(self).running@.push(account_id),
            !started ==> final(self).running@ == old(self).running@,
    {
        if crate::index::contains_u64(&self.running, account_id) {
            return false;
        }
        let ghost pre = self.running@;
        self.running.push(account_id);
        proof {
            assert(self.running@[pre.len() as int] == account_id);
            assert forall|i: int, j: int|
                0 <= i < j < self.running@.len() implies (#[trigger] self.running@[i])
                != (#[trigger] self.running@[j]) by {
                if j == pre.len() {
                    assert(self.running@[i] == pre[i]);
                    assert(!pre.contains(account_id));
                }
            }
        }
        true
    }

    /// Stops the account's worker: once this returns, the account is not
    /// running, so its worker commits nothing further.
    pub fn stop(&mut self, account_id: u64)
        requires
            old(self).wf(),
        ensures
            final(self).wf(),
            !final(self).is_running(account_id),
            forall|a: u64|
                a != account_id ==> (final(self).is_running(a) <==> old(self).is_running(a)),
    {
        let ghost pre = self.running@;
        let mut out: Vec<u64> = Vec::new();
        let mut i: usize = 0;
        while i < self.running.len()
            invariant
                pre == self.running@,
                old(self).wf(),
                i <= pre.len(),
                forall|k: int| 0 <= k < out@.len() ==> #[trigger] out@[k] != account_id,
                forall|k: int|
                    0 <= k < out@.len() ==> exists|x: int|
                        0 <= x < i && pre[x] == #[trigger] out@[k],
                forall|x: int|
                    0 <= x < i && (#[trigger] pre[x]) != account_id ==> out@.contains(pre[x]),
                forall|x: int, y: int|
                    0 <= x < y < out@.len() ==> (#[trigger] out@[x]) != (#[trigger] out@[y]),
            decreases pre.len() - i,
        {
            let ghost prev = out@;
            if self.running[i] != account_id {
                out.push(self.running[i]);
                proof {
                    assert forall|x: int, y: int|
                        0 <= x < y < out@.len() implies (#[trigger] out@[x])
                        != (#[trigger] out@[y]) by {
                        if y == prev.len() {
                            assert(out@[x] == prev[x]);
                            assert(out@[y] == pre[i as int]);
                            let w = choose|w: int| 0 <= w < i && pre[w] == prev[x];
                            assert(pre[w] != pre[i as int]);
                        }
                    }
                    assert forall|k: int|
                        0 <= k < out@.len() implies exists|x: int|
                            0 <= x < i + 1 && pre[x] == #[trigger] out@[k] by {
                        if k < prev.len() {
                            let w = choose|w: int| 0 <= w < i && pre[w] == prev[k as int];
                            assert(pre[w] == out@[k]);
                        } else {
                            assert(pre[i as int] == out@[k]);
                        }
                    }
                    assert forall|x: int|
                        0 <= x < i + 1 && (#[trigger] pre[x]) != account_id implies out@.contains(
                        pre[x],
                    ) by {
                        if x < i {
                            let w = choose|w: int| 0 <= w < prev.len() && prev[w] == pre[x];
                            assert(out@[w] == pre[x]);
                        } else {
                            assert(out@[prev.len() as int] == pre[x]);
                        }
                    }
                }
            } else {
                proof {
                    assert forall|x: int|
                        0 <= x < i + 1 && (#[trigger] pre[x]) != account_id implies out@.contains(
                        pre[x],
                    ) by {
                        if x < i {
                            let w = choose|w: int| 0 <= w < prev.len() && prev[w] == pre[x];
                            assert(out@[w] == pre[x]);
                        }
                    }
                }
            }
            i = i + 1;
        }
        self.running = out;
        proof {
            assert forall|a: u64|
                a != account_id implies (self.is_running(a) <==> pre.contains(a)) by {
                if pre.contains(a) {
                    let w = choose|w: int| 0 <= w < pre.len() && pre[w] == a;
                    assert(self.running@.contains(a));
                }
                if self.running@.contains(a) {
                    let k = choose|k: int|
                        0 <= k < self.running@.len() && self.running@[k] == a;
                    let x = choose|x: int| 0 <= x < pre.len() && pre[x] == self.running@[k];
                    assert(pre.contains(a));
                }
            }
            assert(!self.running@.contains(account_id)) by {
                if self.running@.contains(account_id) {
                    let k = choose|k: int|
                        0 <= k < self.running@.len() && self.running@[k] == account_id;
                }
            }
        }
    }
}

/// A worker's batch commit gate: a batch lands in the index only while the
/// controller still runs the account. A stopped account's drain leaves the
/// index untouched.
pub fn commit_batch_if_running(
    controller: &SyncController,
    account_id: u64,
    index: &mut EnvelopeIndex,
    batch: Vec<crate::envelope::Envelope>,
) -> (committed: bool)
    requires
        old(index).wf(),
        crate::index::unique_ids(batch.deep_view()),
    ensures
        final(index).wf(),
        committed == controller.is_running(account_id),
        !committed ==> final(index)@ == old(index)@,
{
    if crate::index::contains_u64(&controller.running, account_id) {
        apply_batch(index, batch);
        true
    } else {
        false
    }
}

} // verus!
