//! The envelope index: a deletion-aware document store over envelope ids,
//! with filtered, date-ordered, paginated search and the aggregations the
//! dashboard needs.
//!
//! Documents are kept with unique ids; writing an id that is present
//! replaces the stored document.

use crate::envelope::DataPage;
use crate::envelope::Envelope;
use crate::envelope::EnvelopeView;
use crate::error::BichonError;
use crate::error::ErrorCode;
use crate::query::allowed_ok;
use crate::query::env_matches;
use crate::query::matches_filter;
use crate::query::SearchFilter;
use vstd::prelude::*;
use vstd::multiset::Multiset;
use vstd::seq_lib::lemma_multiset_commutative;
use vstd::string::StringExecFns;

verus! {

broadcast use vstd::seq_lib::group_seq_properties;

/// The sort key of a read operation: by internal date or by size, each with
/// the document id as tie breaker.
#[derive(Clone, Copy, Debug, PartialEq, Eq, Structural)]
pub enum SortKey {
    Date,
    Size,
}

/// The ordering a read operation returns documents in: `le(a, b)` says `a`
/// may stand before `b`.
pub open spec fn key_le(a: EnvelopeView, b: EnvelopeView, key: SortKey, desc: bool) -> bool {
    let (ka, kb) = match key {
        SortKey::Date => ((a.internal_date as int, a.id as int), (b.internal_date as int, b.id as int)),
        SortKey::Size => ((a.size as int, a.id as int), (b.size as int, b.id as int)),
    };
    if desc {
        kb.0 < ka.0 || (kb.0 == ka.0 && kb.1 <= ka.1)
    } else {
        ka.0 < kb.0 || (ka.0 == kb.0 && ka.1 <= kb.1)
    }
}

/// A sequence is sorted for the given key and direction.
pub open spec fn sorted_views(s: Seq<EnvelopeView>, key: SortKey, desc: bool) -> bool {
    forall|i: int, j: int| 0 <= i < j < s.len() ==> key_le(#[trigger] s[i], #[trigger] s[j], key, desc)
}

/// The clause a search selects on: the filter, and the account restriction.
pub open spec fn search_pred(f: SearchFilter, allowed: Option<Seq<u64>>) -> spec_fn(
    EnvelopeView,
) -> bool {
    |ev: EnvelopeView| env_matches(ev, f) && allowed_ok(allowed, ev)
}

/// No two documents share an id.
pub open spec fn unique_ids(s: Seq<EnvelopeView>) -> bool {
    forall|i: int, j: int| 0 <= i < j < s.len() ==> (#[trigger] s[i]).id != (#[trigger] s[j]).id
}

/// Whether some document in `s` has id `id`.
pub open spec fn has_id(s: Seq<EnvelopeView>, id: u64) -> bool {
    exists|i: int| 0 <= i < s.len() && (#[trigger] s[i]).id == id
}

/// Whether some document in `s` equals `e`.
pub open spec fn has_doc(s: Seq<EnvelopeView>, e: EnvelopeView) -> bool {
    exists|i: int| 0 <= i < s.len() && (#[trigger] s[i]) == e
}

/// Whether some document has id `id` and lies in the given account and
/// mailbox.
pub open spec fn has_id_in(s: Seq<EnvelopeView>, id: u64, account_id: u64, mailbox_id: u64) -> bool {
    exists|i: int|
        0 <= i < s.len() && (#[trigger] s[i]).id == id && s[i].account_id == account_id
            && s[i].mailbox_id == mailbox_id
}

/// What one `upsert` transition keeps: the written document is stored,
/// every id that was present is still present, and every id-account-mailbox
/// association of a different id survives.
pub proof fn lemma_upsert_preserves(pre: Seq<EnvelopeView>, post: Seq<EnvelopeView>, d: EnvelopeView)
    requires
        (if has_id(pre, d.id) {
            exists|i: int| 0 <= i < pre.len() && pre[i].id == d.id && post =~= pre.update(i, d)
        } else {
            post =~= pre.push(d)
        }),
    ensures
        has_doc(post, d),
        has_id_in(post, d.id, d.account_id, d.mailbox_id),
        forall|x: u64| has_id(pre, x) ==> has_id(post, x),
        forall|x: u64, a: u64, m: u64|
            has_id_in(pre, x, a, m) && x != d.id ==> has_id_in(post, x, a, m),
        forall|x: EnvelopeView| has_doc(pre, x) && x.id != d.id ==> has_doc(post, x),
{
    if has_id(pre, d.id) {
        let i = choose|i: int| 0 <= i < pre.len() && pre[i].id == d.id && post =~= pre.update(i, d);
        assert(post[i] == d);
        assert forall|x: EnvelopeView| has_doc(pre, x) && x.id != d.id implies has_doc(
            post,
            x,
        ) by {
            let j = choose|j: int| 0 <= j < pre.len() && (#[trigger] pre[j]) == x;
            assert(j != i);
            assert(post[j] == pre[j]);
        }
        assert forall|x: u64| has_id(pre, x) implies has_id(post, x) by {
            let j = choose|j: int| 0 <= j < pre.len() && (#[trigger] pre[j]).id == x;
            if j == i {
                assert(post[i].id == d.id && d.id == x);
            } else {
                assert(post[j] == pre[j]);
            }
        }
        assert forall|x: u64, a: u64, m: u64|
            has_id_in(pre, x, a, m) && x != d.id implies has_id_in(post, x, a, m) by {
            let j = choose|j: int|
                0 <= j < pre.len() && (#[trigger] pre[j]).id == x && pre[j].account_id == a
                    && pre[j].mailbox_id == m;
            assert(j != i);
            assert(post[j] == pre[j]);
        }
    } else {
        assert(post[pre.len() as int] == d);
        assert forall|x: u64| has_id(pre, x) implies has_id(post, x) by {
            let j = choose|j: int| 0 <= j < pre.len() && (#[trigger] pre[j]).id == x;
            assert(post[j] == pre[j]);
        }
        assert forall|x: u64, a: u64, m: u64|
            has_id_in(pre, x, a, m) && x != d.id implies has_id_in(post, x, a, m) by {
            let j = choose|j: int|
                0 <= j < pre.len() && (#[trigger] pre[j]).id == x && pre[j].account_id == a
                    && pre[j].mailbox_id == m;
            assert(post[j] == pre[j]);
        }
        assert forall|x: EnvelopeView| has_doc(pre, x) && x.id != d.id implies has_doc(
            post,
            x,
        ) by {
            let j = choose|j: int| 0 <= j < pre.len() && (#[trigger] pre[j]) == x;
            assert(post[j] == pre[j]);
        }
    }
}

/// `key_le` is total and transitive for every key and direction.
pub proof fn lemma_key_le_order(a: EnvelopeView, b: EnvelopeView, c: EnvelopeView, key: SortKey, desc: bool)
    ensures
        key_le(a, b, key, desc) || key_le(b, a, key, desc),
        key_le(a, b, key, desc) && key_le(b, c, key, desc) ==> key_le(a, c, key, desc),
{
}

/// The envelope index model.
pub struct EnvelopeIndex {
    pub docs: Vec<Envelope>,
}

impl View for EnvelopeIndex {
    type V = Seq<EnvelopeView>;

    open spec fn view(&self) -> Seq<EnvelopeView> {
        self.docs.deep_view()
    }
}

impl EnvelopeIndex {
    /// The index keeps one document per id.
    pub open spec fn wf(&self) -> bool {
        unique_ids(self@)
    }

    pub fn new() -> (r: EnvelopeIndex)
        ensures
            r@ =~= Seq::<EnvelopeView>::empty(),
            r.wf(),
    {
        let r = EnvelopeIndex { docs: Vec::new() };
        proof {
            assert(r@ =~= Seq::<EnvelopeView>::empty());
        }
        r
    }

    /// Total number of stored documents.
    pub fn total_emails(&self) -> (r: u64)
        requires
            self@.len() <= u64::MAX,
        ensures
            r == self@.len(),
    {
        self.docs.len() as u64
    }

    /// The position of the document with id `id`, if stored.
    fn find_index(&self, id: u64) -> (r: Option<usize>)
        ensures
            match r {
                Some(i) => i < self@.len() && self@[i as int].id == id,
                None => !has_id(self@, id),
            },
    {
        let mut i: usize = 0;
        while i < self.docs.len()
            invariant
                i <= self@.len(),
                forall|k: int| 0 <= k < i ==> (#[trigger] self@[k]).id != id,
            decreases self@.len() - i,
        {
            if self.docs[i].id == id {
                proof {
                    assert(self@[i as int] == self.docs@[i as int].deep_view());
                }
                return Some(i);
            }
            proof {
                assert(self@[i as int] == self.docs@[i as int].deep_view());
            }
            i = i + 1;
        }
        None
    }

    /// Writes a document under its id: the stored document with that id, if
    /// any, is replaced, and nothing else changes. Re-indexing an id is
    /// idempotent: the last write wins.
    pub fn upsert(&mut self, doc: Envelope)
        requires
            old(self).wf(),
        ensures
            final(self).wf(),
            has_id(final(self)@, doc@.id),
            // the new state, exactly
            (if has_id(old(self)@, doc@.id) {
                exists|i: int|
                    0 <= i < old(self)@.len() && old(self)@[i].id == doc@.id && final(self)@
                        =~= old(self)@.update(i, doc@)
            } else {
                final(self)@ =~= old(self)@.push(doc@)
            }),
    {
        let ghost d = doc@;
        match self.find_index(doc.id) {
            Some(i) => {
                let ghost pre = self@;
                self.docs.set(i, doc);
                proof {
                    assert(self@ =~= pre.update(i as int, d));
                    assert forall|x: int, y: int|
                        0 <= x < y < self@.len() implies (#[trigger] self@[x]).id
                        != (#[trigger] self@[y]).id by {
                        assert(pre[x].id == self@[x].id || x == i);
                        assert(pre[y].id == self@[y].id || y == i);
                    }
                    assert(self@[i as int].id == d.id);
                }
            },
            None => {
                let ghost pre = self@;
                self.docs.push(doc);
                proof {
                    assert(self@ =~= pre.push(d));
                    assert(self@[pre.len() as int].id == d.id);
                    assert forall|x: int, y: int|
                        0 <= x < y < self@.len() implies (#[trigger] self@[x]).id
                        != (#[trigger] self@[y]).id by {
                        if y < pre.len() {
                        } else {
                            assert(self@[y] == d);
                            assert(!has_id(pre, d.id));
                            assert(self@[x] == pre[x]);
                        }
                    }
                }
            },
        }
    }

    /// The stored document with the given account and id, if any.
    pub fn get_envelope_by_id(&self, account_id: u64, id: u64) -> (r: Option<Envelope>)
        ensures
            match r {
                Some(e) => exists|i: int|
                    0 <= i < self@.len() && #[trigger] self@[i] == e@ && e@.id == id
                        && e@.account_id == account_id,
                None => forall|i: int|
                    0 <= i < self@.len() ==> !((#[trigger] self@[i]).id == id && self@[i].account_id
                        == account_id),
            },
    {
        let mut i: usize = 0;
        while i < self.docs.len()
            invariant
                i <= self@.len(),
                forall|k: int|
                    0 <= k < i ==> !((#[trigger] self@[k]).id == id && self@[k].account_id
                        == account_id),
            decreases self@.len() - i,
        {
            proof {
                assert(self@[i as int] == self.docs@[i as int].deep_view());
            }
            if self.docs[i].id == id && self.docs[i].account_id == account_id {
                let e = self.docs[i].duplicate();
                return Some(e);
            }
            i = i + 1;
        }
        None
    }

    /// Removes every document selected by `keep == false`, keeping order.
    /// Used by the deletion operations below.
    fn retain_not_account(&mut self, account_id: u64)
        requires
            old(self).wf(),
        ensures
            final(self).wf(),
            final(self)@ =~= old(self)@.filter(|ev: EnvelopeView| ev.account_id != account_id),
    {
        let ghost pre = self@;
        let mut out: Vec<Envelope> = Vec::new();
        let mut i: usize = 0;
        while i < self.docs.len()
            invariant
                i <= self@.len(),
                self@ == pre,
                out.deep_view() =~= pre.subrange(0, i as int).filter(
                    |ev: EnvelopeView| ev.account_id != account_id,
                ),
            decreases self@.len() - i,
        {
            proof {
                assert(self@[i as int] == self.docs@[i as int].deep_view());
                assert(pre.subrange(0, i + 1).drop_last() =~= pre.subrange(0, i as int));
                assert(pre.subrange(0, i + 1).last() == pre[i as int]);
                lemma_filter_unfold(pre.subrange(0, i + 1), |ev: EnvelopeView| ev.account_id != account_id);
            }
            let ghost prev = out.deep_view();
            if self.docs[i].account_id != account_id {
                let d = self.docs[i].duplicate();
                out.push(d);
                proof {
                    assert(out.deep_view() =~~= prev.push(pre[i as int]));
                }
            }
            i = i + 1;
        }
        proof {
            assert(pre.subrange(0, pre.len() as int) =~= pre);
        }
        self.docs = out;
        proof {
            lemma_filter_unique(pre, |ev: EnvelopeView| ev.account_id != account_id);
        }
    }

    /// Deletes every envelope of the account, and nothing else.
    pub fn delete_account_envelopes(&mut self, account_id: u64)
        requires
            old(self).wf(),
        ensures
            final(self).wf(),
            final(self)@ =~= old(self)@.filter(|ev: EnvelopeView| ev.account_id != account_id),
    {
        self.retain_not_account(account_id)
    }
}

/// Ceiling division, as total page counts are computed.
pub open spec fn div_ceil_spec(total: int, page_size: int) -> int {
    if total == 0 {
        0
    } else if total % page_size == 0 {
        total / page_size
    } else {
        total / page_size + 1
    }
}

/// How many items the requested page holds: zero past the end, otherwise up
/// to `page_size`.
pub open spec fn page_len(total: int, off: int, page_size: int) -> int {
    if off >= total {
        0
    } else if total - off < page_size {
        total - off
    } else {
        page_size
    }
}

fn key_le_exec(a: &Envelope, b: &Envelope, key: SortKey, desc: bool) -> (r: bool)
    ensures
        r == key_le(a@, b@, key, desc),
{
    let (ka, kb): (i128, i128) = match key {
        SortKey::Date => (a.internal_date as i128, b.internal_date as i128),
        SortKey::Size => (a.size as i128, b.size as i128),
    };
    if desc {
        kb < ka || (kb == ka && b.id <= a.id)
    } else {
        ka < kb || (ka == kb && a.id <= b.id)
    }
}

/// Inserts a document into a sorted vector, keeping it sorted.
fn insert_sorted(out: &mut Vec<Envelope>, e: Envelope, key: SortKey, desc: bool)
    requires
        sorted_views(old(out).deep_view(), key, desc),
        old(out)@.len() < usize::MAX,
    ensures
        sorted_views(final(out).deep_view(), key, desc),
        final(out).deep_view().to_multiset() == old(out).deep_view().to_multiset().insert(e@),
        final(out)@.len() == old(out)@.len() + 1,
{
    broadcast use vstd::seq_lib::group_to_multiset_ensures;
    broadcast use vstd::multiset::group_multiset_axioms;

    let ghost pre = out.deep_view();
    let ghost ev = e@;
    let mut p: usize = out.len();
    loop
        invariant_except_break
            ev == e@,
            p <= out@.len(),
            out.deep_view() == pre,
            forall|k: int| p <= k < pre.len() ==> key_le(ev, #[trigger] pre[k], key, desc),
        ensures
            p <= out@.len(),
            out.deep_view() == pre,
            forall|k: int| p <= k < pre.len() ==> key_le(ev, #[trigger] pre[k], key, desc),
            p > 0 ==> key_le(pre[p - 1], ev, key, desc),
        decreases p,
    {
        if p == 0 {
            break;
        }
        proof {
            assert(out@[p - 1].deep_view() == pre[p - 1]);
        }
        let le = key_le_exec(&out[p - 1], &e, key, desc);
        if le {
            break;
        }
        proof {
            lemma_key_le_order(ev, pre[p - 1], ev, key, desc);
            assert(key_le(ev, pre[p - 1], key, desc));
        }
        p = p - 1;
    }
    let ghost pp = p as int;
    out.insert(p, e);
    proof {
        let post = out.deep_view();
        assert(post =~= pre.subrange(0, pp) + seq![ev] + pre.subrange(pp, pre.len() as int));
        assert(pre =~= pre.subrange(0, pp) + pre.subrange(pp, pre.len() as int));
        // sortedness
        assert forall|i: int, j: int|
            0 <= i < j < post.len() implies key_le(#[trigger] post[i], #[trigger] post[j], key, desc) by {
            lemma_key_le_order(post[i], post[j], ev, key, desc);
            if j < pp {
                assert(post[i] == pre[i] && post[j] == pre[j]);
            } else if i > pp {
                assert(post[i] == pre[i - 1] && post[j] == pre[j - 1]);
            } else if i == pp && j > pp {
                assert(post[j] == pre[j - 1]);
                assert(key_le(ev, pre[j - 1], key, desc));
            } else if i < pp && j == pp {
                assert(post[i] == pre[i]);
                assert(key_le(pre[pp - 1], ev, key, desc));
                if i < pp - 1 {
                    lemma_key_le_order(pre[i], pre[pp - 1], ev, key, desc);
                }
            } else {
                // i < pp < j
                assert(post[i] == pre[i] && post[j] == pre[j - 1]);
                if pp <= j - 1 {
                    if i < pp {
                        assert(key_le(pre[i], pre[j - 1], key, desc)) by {
                            if i < j - 1 {
                            } else {
                            }
                        }
                    }
                }
            }
        }
        // multiset
        lemma_multiset_commutative(pre.subrange(0, pp) + seq![ev], pre.subrange(pp, pre.len() as int));
        lemma_multiset_commutative(pre.subrange(0, pp), seq![ev]);
        lemma_multiset_commutative(pre.subrange(0, pp), pre.subrange(pp, pre.len() as int));
        assert(seq![ev].to_multiset() =~= Multiset::empty().insert(ev)) by {
            assert(seq![ev].drop_first() =~= Seq::<EnvelopeView>::empty());
        }
        assert(post.to_multiset() =~= pre.to_multiset().insert(ev));
    }
}

/// Sorts documents by the given key and direction. The result is sorted and
/// holds exactly the input documents.
fn sort_docs(input: Vec<Envelope>, key: SortKey, desc: bool) -> (r: Vec<Envelope>)
    ensures
        sorted_views(r.deep_view(), key, desc),
        r.deep_view().to_multiset() == input.deep_view().to_multiset(),
        r@.len() == input@.len(),
{
    broadcast use vstd::seq_lib::group_to_multiset_ensures;
    broadcast use vstd::multiset::group_multiset_axioms;

    let ghost whole = input.deep_view();
    let n = input.len();
    let mut rest = input;
    let mut out: Vec<Envelope> = Vec::new();
    proof {
        assert(out.deep_view() =~= Seq::<EnvelopeView>::empty());
        assert(out.deep_view().to_multiset().add(rest.deep_view().to_multiset()) =~= whole.to_multiset());
    }
    while rest.len() > 0
        invariant
            whole.len() <= usize::MAX,
            sorted_views(out.deep_view(), key, desc),
            out.deep_view().to_multiset().add(rest.deep_view().to_multiset())
                == whole.to_multiset(),
            out@.len() + rest@.len() == whole.len(),
        decreases rest@.len(),
    {
        let ghost rest_pre = rest.deep_view();
        let e = rest.pop().unwrap();
        proof {
            assert(rest.deep_view() =~= rest_pre.drop_last());
            assert(rest_pre =~= rest.deep_view().push(e@));
            assert((rest.deep_view().push(e@)).to_multiset() =~= rest.deep_view().to_multiset().insert(e@));
        }
        let ghost out_pre = out.deep_view();
        insert_sorted(&mut out, e, key, desc);
        proof {
            assert(out.deep_view().to_multiset() =~= out_pre.to_multiset().insert(e@));
            assert(out.deep_view().to_multiset().add(rest.deep_view().to_multiset())
                =~= whole.to_multiset()) by {
                assert(out_pre.to_multiset().insert(e@).add(rest.deep_view().to_multiset())
                    =~= out_pre.to_multiset().add(rest.deep_view().to_multiset().insert(e@)));
            }
        }
    }
    proof {
        assert(rest.deep_view() =~= Seq::<EnvelopeView>::empty());
        assert(out.deep_view().to_multiset() =~= whole.to_multiset());
    }
    out
}

/// Whether a vector of ids holds `x`.
pub fn contains_u64(v: &Vec<u64>, x: u64) -> (r: bool)
    ensures
        r == v@.contains(x),
{
    let mut i: usize = 0;
    while i < v.len()
        invariant
            i <= v@.len(),
            forall|k: int| 0 <= k < i ==> v@[k] != x,
        decreases v@.len() - i,
    {
        if v[i] == x {
            return true;
        }
        i = i + 1;
    }
    false
}

fn allowed_exec(allowed: &Option<Vec<u64>>, e: &Envelope) -> (r: bool)
    ensures
        r == allowed_ok(allowed.deep_view(), e@),
{
    match allowed {
        None => true,
        Some(v) => {
            let r = contains_u64(v, e.account_id);
            proof {
                assert(v.deep_view() =~= v@);
            }
            r
        },
    }
}

/// What a search with this filter and account restriction selects, exactly.
pub open spec fn search_ok(
    docs: Seq<EnvelopeView>,
    f: SearchFilter,
    allowed: Option<Seq<u64>>,
    page: u64,
    page_size: u64,
    desc: bool,
    pg: DataPage<Envelope>,
) -> bool {
    let pred = search_pred(f, allowed);
    let m = docs.filter(pred);
    let off = (page - 1) as int * page_size as int;
    let k = page_len(m.len() as int, off, page_size as int);
    &&& pg.total_items == m.len()
    &&& pg.current_page == Some(page)
    &&& pg.page_size == Some(page_size)
    &&& (pg.total_pages matches Some(tp) && tp == div_ceil_spec(m.len() as int, page_size as int))
    &&& pg.items.deep_view().len() == k
    &&& sorted_views(pg.items.deep_view(), SortKey::Date, desc)
    &&& forall|i: int| 0 <= i < k ==> pred(#[trigger] pg.items.deep_view()[i])
    &&& (k > 0 ==> exists|all: Seq<EnvelopeView>|
        all.to_multiset() == m.to_multiset() && sorted_views(all, SortKey::Date, desc) && off + k
            <= all.len() && pg.items.deep_view() == all.subrange(off, off + k))
}

/// If two sequences hold the same documents and a predicate holds of each
/// element of one, it holds of each element of the other.
pub proof fn lemma_multiset_pred(
    a: Seq<EnvelopeView>,
    b: Seq<EnvelopeView>,
    pred: spec_fn(EnvelopeView) -> bool,
)
    requires
        a.to_multiset() == b.to_multiset(),
        forall|i: int| 0 <= i < b.len() ==> pred(#[trigger] b[i]),
    ensures
        forall|i: int| 0 <= i < a.len() ==> pred(#[trigger] a[i]),
{
    broadcast use vstd::seq_lib::group_to_multiset_ensures;

    assert forall|i: int| 0 <= i < a.len() implies pred(#[trigger] a[i]) by {
        assert(a.contains(a[i]));
        assert(a.to_multiset().count(a[i]) > 0);
        assert(b.contains(a[i]));
        let j = choose|j: int| 0 <= j < b.len() && b[j] == a[i];
        assert(pred(b[j]));
    }
}

impl EnvelopeIndex {
    /// The stored documents matching the filter under the restriction, in
    /// stored order.
    fn filter_matching(&self, filter: &SearchFilter, allowed: &Option<Vec<u64>>) -> (r: Vec<
        Envelope,
    >)
        ensures
            r.deep_view() == self@.filter(search_pred(*filter, allowed.deep_view())),
    {
        let ghost pred = search_pred(*filter, allowed.deep_view());
        let ghost whole = self@;
        let mut out: Vec<Envelope> = Vec::new();
        proof {
            assert(whole.subrange(0, 0).filter(pred) =~= Seq::<EnvelopeView>::empty()) by {
                reveal(Seq::filter);
                assert(whole.subrange(0, 0) =~= Seq::<EnvelopeView>::empty());
            }
            assert(out.deep_view() =~= Seq::<EnvelopeView>::empty());
        }
        let mut i: usize = 0;
        while i < self.docs.len()
            invariant
                pred == search_pred(*filter, allowed.deep_view()),
                whole == self@,
                i <= whole.len(),
                out.deep_view() == whole.subrange(0, i as int).filter(pred),
            decreases whole.len() - i,
        {
            proof {
                assert(self@[i as int] == self.docs@[i as int].deep_view());
                assert(whole.subrange(0, i + 1).drop_last() =~= whole.subrange(0, i as int));
                assert(whole.subrange(0, i + 1).last() == whole[i as int]);
                lemma_filter_unfold(whole.subrange(0, i + 1), pred);
            }
            let ghost prev = out.deep_view();
            let m = matches_filter(&self.docs[i], filter);
            let al = allowed_exec(allowed, &self.docs[i]);
            if m && al {
                let d = self.docs[i].duplicate();
                out.push(d);
                proof {
                    assert(out.deep_view() =~~= prev.push(whole[i as int]));
                }
            }
            i = i + 1;
        }
        proof {
            assert(whole.subrange(0, whole.len() as int) =~= whole);
        }
        out
    }

    /// Copies the page `[off, off+k)` out of a result list.
    fn page_slice(sorted: &Vec<Envelope>, off: usize, k: usize) -> (r: Vec<Envelope>)
        requires
            off + k <= sorted@.len(),
        ensures
            r.deep_view() == sorted.deep_view().subrange(off as int, off + k),
    {
        let mut out: Vec<Envelope> = Vec::new();
        proof {
            assert(out.deep_view() =~= sorted.deep_view().subrange(off as int, off as int));
        }
        let sl = sorted.len();
        let mut i: usize = 0;
        while i < k
            invariant
                sorted@.len() == sl,
                off + k <= sorted@.len(),
                i <= k,
                out.deep_view() == sorted.deep_view().subrange(off as int, off + i),
            decreases k - i,
        {
            let ghost prev = out.deep_view();
            let d = sorted[off + i].duplicate();
            out.push(d);
            proof {
                assert(out.deep_view() =~~= prev.push(sorted.deep_view()[off + i]));
                assert(prev.push(sorted.deep_view()[off + i]) =~= sorted.deep_view().subrange(
                    off as int,
                    off + i + 1,
                ));
            }
            i = i + 1;
        }
        out
    }

    /// Searches the index: documents matching the filter (restricted to the
    /// allowed accounts where given), ordered by internal date with the
    /// document id as tie breaker, paginated. Pages are 1-based; a zero page
    /// or page size is an invalid parameter; a page past the end is empty
    /// with the totals still filled in.
    pub fn search(
        &self,
        filter: &SearchFilter,
        page: u64,
        page_size: u64,
        desc: bool,
        allowed: &Option<Vec<u64>>,
    ) -> (r: Result<DataPage<Envelope>, BichonError>)
        ensures
            r is Err <==> (page == 0 || page_size == 0),
            r matches Err(e) ==> e.code == ErrorCode::InvalidParameter,
            r matches Ok(pg) ==> search_ok(
                self@,
                *filter,
                allowed.deep_view(),
                page,
                page_size,
                desc,
                pg,
            ),
    {
        if page == 0 || page_size == 0 {
            return Result::Err(
                BichonError::new(
                    ErrorCode::InvalidParameter,
                    String::from_str("page and page_size must be greater than 0"),
                ),
            );
        }
        let ghost pred = search_pred(*filter, allowed.deep_view());
        let filtered = self.filter_matching(filter, allowed);
        let ghost m = self@.filter(pred);
        let total_usize = filtered.len();
        let total: u64 = total_usize as u64;
        let q: u64 = total / page_size;
        let rem_q: u64 = total % page_size;
        proof {
            assert(q * page_size + rem_q == total && q <= q * page_size) by (nonlinear_arith)
                requires
                    page_size >= 1,
                    q == total / page_size,
                    rem_q == total % page_size,
            ;
        }
        let total_pages: u64 = if total == 0 {
            0
        } else if rem_q == 0 {
            q
        } else {
            q + 1
        };
        proof {
            assert(total_pages == div_ceil_spec(m.len() as int, page_size as int));
        }
        proof {
            assert(((page - 1) as u128) * (page_size as u128) <= 0xffffffffffffffffu128
                * 0xffffffffffffffffu128) by (nonlinear_arith)
                requires
                    ((page - 1) as u128) <= 0xffffffffffffffffu128,
                    ((page_size) as u128) <= 0xffffffffffffffffu128,
            ;
        }
        let off128: u128 = ((page - 1) as u128) * (page_size as u128);
        let ghost off = (page - 1) as int * page_size as int;
        proof {
            assert(off128 == off);
        }
        if off128 >= total as u128 {
            let items: Vec<Envelope> = Vec::new();
            proof {
                assert(items.deep_view() =~= Seq::<EnvelopeView>::empty());
                assert(page_len(m.len() as int, off, page_size as int) == 0);
            }
            return Result::Ok(
                DataPage {
                    current_page: Some(page),
                    page_size: Some(page_size),
                    total_items: total,
                    total_pages: Some(total_pages),
                    items,
                },
            );
        }
        let sorted = sort_docs(filtered, SortKey::Date, desc);
        let off_usize: usize = off128 as usize;
        let rem: u64 = total - (off128 as u64);
        let k_u64: u64 = if page_size < rem {
            page_size
        } else {
            rem
        };
        let k: usize = k_u64 as usize;
        proof {
            assert(k == page_len(m.len() as int, off, page_size as int));
            assert(off_usize + k <= sorted@.len());
        }
        let items = Self::page_slice(&sorted, off_usize, k);
        proof {
            assert(items.deep_view() == sorted.deep_view().subrange(off, off + k));
            assert forall|i: int| 0 <= i < m.len() implies pred(#[trigger] m[i]) by {
                broadcast use vstd::seq_lib::group_filter_ensures;

            }
            lemma_multiset_pred(sorted.deep_view(), m, pred);
            assert forall|i: int| 0 <= i < k implies pred(#[trigger] items.deep_view()[i]) by {
                assert(items.deep_view()[i] == sorted.deep_view()[off + i]);
            }
            assert forall|i: int, j: int|
                0 <= i < j < items.deep_view().len() implies key_le(
                #[trigger] items.deep_view()[i],
                #[trigger] items.deep_view()[j],
                SortKey::Date,
                desc,
            ) by {
                assert(items.deep_view()[i] == sorted.deep_view()[off + i]);
                assert(items.deep_view()[j] == sorted.deep_view()[off + j]);
            }
        }
        Result::Ok(
            DataPage {
                current_page: Some(page),
                page_size: Some(page_size),
                total_items: total,
                total_pages: Some(total_pages),
                items,
            },
        )
    }
}

/// Membership of a document in a mailbox.
pub open spec fn in_mailbox(ev: EnvelopeView, account_id: u64, mailbox_id: u64) -> bool {
    ev.account_id == account_id && ev.mailbox_id == mailbox_id
}

/// Membership of a document in a thread.
pub open spec fn in_thread(ev: EnvelopeView, account_id: u64, thread_id: u64) -> bool {
    ev.account_id == account_id && ev.thread_id == thread_id
}

/// The filter that a mailbox listing compiles to.
pub open spec fn mailbox_filter(account_id: u64, mailbox_id: u64) -> SearchFilter {
    SearchFilter {
        text: None,
        from: None,
        to: None,
        cc: None,
        bcc: None,
        since: None,
        before: None,
        account_id: Some(account_id),
        mailbox_id: Some(mailbox_id),
        thread_id: None,
        min_size: None,
        max_size: None,
        message_id: None,
        has_attachment: None,
        attachment_name: None,
        tags: None,
    }
}

/// The filter that a thread listing compiles to.
pub open spec fn thread_filter(account_id: u64, thread_id: u64) -> SearchFilter {
    SearchFilter { thread_id: Some(thread_id), mailbox_id: None, ..mailbox_filter(account_id, 0) }
}

/// Whether a multi-account request selects this document.
pub open spec fn multi_selected(ev: EnvelopeView, ds: Seq<(u64, Vec<u64>)>) -> bool {
    exists|p: int|
        0 <= p < ds.len() && (#[trigger] ds[p]).0 == ev.account_id && ds[p].1@.contains(ev.id)
}

/// The document with its facet tags replaced.
pub open spec fn retag(ev: EnvelopeView, ts: Seq<Seq<char>>) -> EnvelopeView {
    EnvelopeView { tags: ts, ..ev }
}

fn multi_selected_exec(e: &Envelope, ds: &Vec<(u64, Vec<u64>)>) -> (r: bool)
    ensures
        r == multi_selected(e@, ds@),
{
    let mut p: usize = 0;
    while p < ds.len()
        invariant
            p <= ds@.len(),
            forall|k: int|
                0 <= k < p ==> !((#[trigger] ds@[k]).0 == e@.account_id && ds@[k].1@.contains(
                    e@.id,
                )),
        decreases ds@.len() - p,
    {
        if ds[p].0 == e.account_id {
            if contains_u64(&ds[p].1, e.id) {
                return true;
            }
        }
        p = p + 1;
    }
    false
}

impl EnvelopeIndex {
    /// Lists one mailbox's envelopes, ordered by internal date: strictly
    /// monotone in the requested direction, since ids break ties.
    pub fn list_mailbox_envelopes(
        &self,
        account_id: u64,
        mailbox_id: u64,
        page: u64,
        page_size: u64,
        desc: bool,
    ) -> (r: Result<DataPage<Envelope>, BichonError>)
        ensures
            r is Err <==> (page == 0 || page_size == 0),
            r matches Err(e) ==> e.code == ErrorCode::InvalidParameter,
            r matches Ok(pg) ==> search_ok(
                self@,
                mailbox_filter(account_id, mailbox_id),
                None,
                page,
                page_size,
                desc,
                pg,
            ),
            r matches Ok(pg) ==> forall|i: int, j: int|
                0 <= i < j < pg.items.deep_view().len() ==> (if desc {
                    (#[trigger] pg.items.deep_view()[i]).internal_date
                        >= (#[trigger] pg.items.deep_view()[j]).internal_date
                } else {
                    pg.items.deep_view()[i].internal_date <= pg.items.deep_view()[j].internal_date
                }),
    {
        let mut f = SearchFilter::match_all();
        f.account_id = Some(account_id);
        f.mailbox_id = Some(mailbox_id);
        proof {
            assert(f == mailbox_filter(account_id, mailbox_id));
        }
        let r = self.search(&f, page, page_size, desc, &None);
        proof {
            if r is Ok {
                let pg = r->Ok_0;
                assert(sorted_views(pg.items.deep_view(), SortKey::Date, desc));
            }
        }
        r
    }

    /// Lists one thread's envelopes, ordered by internal date.
    pub fn list_thread_envelopes(
        &self,
        account_id: u64,
        thread_id: u64,
        page: u64,
        page_size: u64,
        desc: bool,
    ) -> (r: Result<DataPage<Envelope>, BichonError>)
        ensures
            r is Err <==> (page == 0 || page_size == 0),
            r matches Err(e) ==> e.code == ErrorCode::InvalidParameter,
            r matches Ok(pg) ==> search_ok(
                self@,
                thread_filter(account_id, thread_id),
                None,
                page,
                page_size,
                desc,
                pg,
            ),
    {
        let mut f = SearchFilter::match_all();
        f.account_id = Some(account_id);
        f.thread_id = Some(thread_id);
        proof {
            assert(f == thread_filter(account_id, thread_id));
        }
        self.search(&f, page, page_size, desc, &None)
    }

    /// The highest uid indexed into a mailbox: at least every indexed uid,
    /// and present only when the mailbox holds a document.
    pub fn get_max_uid(&self, account_id: u64, mailbox_id: u64) -> (r: Option<u64>)
        ensures
            match r {
                None => forall|i: int|
                    0 <= i < self@.len() ==> !in_mailbox(#[trigger] self@[i], account_id, mailbox_id),
                Some(m) => {
                    &&& exists|i: int|
                        0 <= i < self@.len() && in_mailbox(#[trigger] self@[i], account_id, mailbox_id)
                            && self@[i].uid == m
                    &&& forall|i: int|
                        0 <= i < self@.len() && in_mailbox(#[trigger] self@[i], account_id, mailbox_id)
                            ==> self@[i].uid <= m
                },
            },
    {
        let mut best: Option<u64> = None;
        let mut i: usize = 0;
        while i < self.docs.len()
            invariant
                i <= self@.len(),
                match best {
                    None => forall|k: int|
                        0 <= k < i ==> !in_mailbox(#[trigger] self@[k], account_id, mailbox_id),
                    Some(m) => {
                        &&& exists|k: int|
                            0 <= k < i && in_mailbox(#[trigger] self@[k], account_id, mailbox_id)
                                && self@[k].uid == m
                        &&& forall|k: int|
                            0 <= k < i && in_mailbox(#[trigger] self@[k], account_id, mailbox_id)
                                ==> self@[k].uid <= m
                    },
                },
            decreases self@.len() - i,
        {
            proof {
                assert(self@[i as int] == self.docs@[i as int].deep_view());
            }
            if self.docs[i].account_id == account_id && self.docs[i].mailbox_id == mailbox_id {
                let uid = self.docs[i].uid;
                best = match best {
                    None => Some(uid),
                    Some(m) => if uid > m {
                        Some(uid)
                    } else {
                        Some(m)
                    },
                };
            }
            i = i + 1;
        }
        best
    }

    /// Counts the documents of one mailbox.
    pub fn num_messages_in_mailbox(&self, account_id: u64, mailbox_id: u64) -> (r: u64)
        ensures
            r == self@.filter(
                |ev: EnvelopeView| in_mailbox(ev, account_id, mailbox_id),
            ).len(),
    {
        let ghost pred = |ev: EnvelopeView| in_mailbox(ev, account_id, mailbox_id);
        let mut count: usize = 0;
        let mut i: usize = 0;
        proof {
            assert(self@.subrange(0, 0).filter(pred) =~= Seq::<EnvelopeView>::empty()) by {
                reveal(Seq::filter);
                assert(self@.subrange(0, 0) =~= Seq::<EnvelopeView>::empty());
            }
        }
        while i < self.docs.len()
            invariant
                pred == (|ev: EnvelopeView| in_mailbox(ev, account_id, mailbox_id)),
                i <= self@.len(),
                count <= i,
                count == self@.subrange(0, i as int).filter(pred).len(),
            decreases self@.len() - i,
        {
            proof {
                assert(self@[i as int] == self.docs@[i as int].deep_view());
                assert(self@.subrange(0, i + 1).drop_last() =~= self@.subrange(0, i as int));
                assert(self@.subrange(0, i + 1).last() == self@[i as int]);
                lemma_filter_unfold(self@.subrange(0, i + 1), pred);
            }
            if self.docs[i].account_id == account_id && self.docs[i].mailbox_id == mailbox_id {
                count = count + 1;
            }
            i = i + 1;
        }
        proof {
            assert(self@.subrange(0, self@.len() as int) =~= self@);
        }
        count as u64
    }

    /// Counts the documents of one thread.
    pub fn num_messages_in_thread(&self, account_id: u64, thread_id: u64) -> (r: u64)
        ensures
            r == self@.filter(|ev: EnvelopeView| in_thread(ev, account_id, thread_id)).len(),
    {
        let ghost pred = |ev: EnvelopeView| in_thread(ev, account_id, thread_id);
        let mut count: usize = 0;
        let mut i: usize = 0;
        proof {
            assert(self@.subrange(0, 0).filter(pred) =~= Seq::<EnvelopeView>::empty()) by {
                reveal(Seq::filter);
                assert(self@.subrange(0, 0) =~= Seq::<EnvelopeView>::empty());
            }
        }
        while i < self.docs.len()
            invariant
                pred == (|ev: EnvelopeView| in_thread(ev, account_id, thread_id)),
                i <= self@.len(),
                count <= i,
                count == self@.subrange(0, i as int).filter(pred).len(),
            decreases self@.len() - i,
        {
            proof {
                assert(self@[i as int] == self.docs@[i as int].deep_view());
                assert(self@.subrange(0, i + 1).drop_last() =~= self@.subrange(0, i as int));
                assert(self@.subrange(0, i + 1).last() == self@[i as int]);
                lemma_filter_unfold(self@.subrange(0, i + 1), pred);
            }
            if self.docs[i].account_id == account_id && self.docs[i].thread_id == thread_id {
                count = count + 1;
            }
            i = i + 1;
        }
        proof {
            assert(self@.subrange(0, self@.len() as int) =~= self@);
        }
        count as u64
    }

    /// Copies of every stored document, in stored order.
    fn clone_docs(&self) -> (r: Vec<Envelope>)
        ensures
            r.deep_view() == self@,
    {
        let mut out: Vec<Envelope> = Vec::new();
        proof {
            assert(out.deep_view() =~= self@.subrange(0, 0));
        }
        let mut i: usize = 0;
        while i < self.docs.len()
            invariant
                i <= self@.len(),
                out.deep_view() == self@.subrange(0, i as int),
            decreases self@.len() - i,
        {
            let ghost prev = out.deep_view();
            let d = self.docs[i].duplicate();
            out.push(d);
            proof {
                assert(self@[i as int] == self.docs@[i as int].deep_view());
                assert(out.deep_view() =~~= prev.push(self@[i as int]));
                assert(prev.push(self@[i as int]) =~= self@.subrange(0, i + 1));
            }
            i = i + 1;
        }
        proof {
            assert(self@.subrange(0, self@.len() as int) =~= self@);
        }
        out
    }

    /// The ten largest stored documents by size, largest first.
    pub fn top_10_largest_emails(&self) -> (r: Vec<Envelope>)
        ensures
            r@.len() == if self@.len() < 10 {
                self@.len() as int
            } else {
                10
            },
            sorted_views(r.deep_view(), SortKey::Size, true),
            exists|all: Seq<EnvelopeView>|
                all.to_multiset() == self@.to_multiset() && sorted_views(all, SortKey::Size, true)
                    && r.deep_view() == all.subrange(
                    0,
                    if self@.len() < 10 {
                        self@.len() as int
                    } else {
                        10
                    },
                ),
    {
        let copies = self.clone_docs();
        let n = copies.len();
        let sorted = sort_docs(copies, SortKey::Size, true);
        let k: usize = if n < 10 {
            n
        } else {
            10
        };
        let items = Self::page_slice(&sorted, 0, k);
        proof {
            assert forall|i: int, j: int|
                0 <= i < j < items.deep_view().len() implies key_le(
                #[trigger] items.deep_view()[i],
                #[trigger] items.deep_view()[j],
                SortKey::Size,
                true,
            ) by {
                assert(items.deep_view()[i] == sorted.deep_view()[i]);
                assert(items.deep_view()[j] == sorted.deep_view()[j]);
            }
            assert(sorted.deep_view().to_multiset() == self@.to_multiset());
            assert(items.deep_view() == sorted.deep_view().subrange(0, k as int));
            assert(items.deep_view().len() == k);
        }
        items
    }

    /// Deletes every document of the account in one of the given mailboxes,
    /// and nothing else.
    pub fn delete_mailbox_envelopes(&mut self, account_id: u64, mailbox_ids: &Vec<u64>)
        requires
            old(self).wf(),
        ensures
            final(self).wf(),
            final(self)@ =~= old(self)@.filter(
                |ev: EnvelopeView|
                    !(ev.account_id == account_id && mailbox_ids@.contains(ev.mailbox_id)),
            ),
    {
        let ghost pred = |ev: EnvelopeView|
            !(ev.account_id == account_id && mailbox_ids@.contains(ev.mailbox_id));
        let ghost pre = self@;
        let mut out: Vec<Envelope> = Vec::new();
        proof {
            assert(out.deep_view() =~= pre.subrange(0, 0).filter(pred)) by {
                reveal(Seq::filter);
                assert(pre.subrange(0, 0) =~= Seq::<EnvelopeView>::empty());
            }
        }
        let mut i: usize = 0;
        while i < self.docs.len()
            invariant
                pred == (|ev: EnvelopeView|
                    !(ev.account_id == account_id && mailbox_ids@.contains(ev.mailbox_id))),
                i <= self@.len(),
                self@ == pre,
                out.deep_view() == pre.subrange(0, i as int).filter(pred),
            decreases self@.len() - i,
        {
            proof {
                assert(self@[i as int] == self.docs@[i as int].deep_view());
                assert(pre.subrange(0, i + 1).drop_last() =~= pre.subrange(0, i as int));
                assert(pre.subrange(0, i + 1).last() == pre[i as int]);
                lemma_filter_unfold(pre.subrange(0, i + 1), pred);
            }
            let ghost prev = out.deep_view();
            let matches_mb = self.docs[i].account_id == account_id && contains_u64(
                mailbox_ids,
                self.docs[i].mailbox_id,
            );
            if !matches_mb {
                let d = self.docs[i].duplicate();
                out.push(d);
                proof {
                    assert(out.deep_view() =~~= prev.push(pre[i as int]));
                }
            }
            i = i + 1;
        }
        proof {
            assert(pre.subrange(0, pre.len() as int) =~= pre);
        }
        self.docs = out;
        proof {
            lemma_filter_unique(pre, pred);
        }
    }

    /// Deletes the given envelope ids of each account, and nothing else.
    pub fn delete_envelopes_multi_account(&mut self, deletes: &Vec<(u64, Vec<u64>)>)
        requires
            old(self).wf(),
        ensures
            final(self).wf(),
            final(self)@ =~= old(self)@.filter(
                |ev: EnvelopeView| !multi_selected(ev, deletes@),
            ),
    {
        let ghost pred = |ev: EnvelopeView| !multi_selected(ev, deletes@);
        let ghost pre = self@;
        let mut out: Vec<Envelope> = Vec::new();
        proof {
            assert(out.deep_view() =~= pre.subrange(0, 0).filter(pred)) by {
                reveal(Seq::filter);
                assert(pre.subrange(0, 0) =~= Seq::<EnvelopeView>::empty());
            }
        }
        let mut i: usize = 0;
        while i < self.docs.len()
            invariant
                pred == (|ev: EnvelopeView| !multi_selected(ev, deletes@)),
                i <= self@.len(),
                self@ == pre,
                out.deep_view() == pre.subrange(0, i as int).filter(pred),
            decreases self@.len() - i,
        {
            proof {
                assert(self@[i as int] == self.docs@[i as int].deep_view());
                assert(pre.subrange(0, i + 1).drop_last() =~= pre.subrange(0, i as int));
                assert(pre.subrange(0, i + 1).last() == pre[i as int]);
                lemma_filter_unfold(pre.subrange(0, i + 1), pred);
            }
            let ghost prev = out.deep_view();
            let sel = multi_selected_exec(&self.docs[i], deletes);
            if !sel {
                let d = self.docs[i].duplicate();
                out.push(d);
                proof {
                    assert(out.deep_view() =~~= prev.push(pre[i as int]));
                }
            }
            i = i + 1;
        }
        proof {
            assert(pre.subrange(0, pre.len() as int) =~= pre);
        }
        self.docs = out;
        proof {
            lemma_filter_unique(pre, pred);
        }
    }

    /// Rebuilds each selected document without its tag field and with the
    /// given facet values appended; every other document is untouched.
    pub fn update_envelope_tags(&mut self, updates: &Vec<(u64, Vec<u64>)>, tags: &Vec<String>)
        requires
            old(self).wf(),
        ensures
            final(self).wf(),
            final(self)@.len() == old(self)@.len(),
            forall|i: int|
                0 <= i < old(self)@.len() ==> final(self)@[i] == (if multi_selected(
                    #[trigger] old(self)@[i],
                    updates@,
                ) {
                    retag(old(self)@[i], tags.deep_view())
                } else {
                    old(self)@[i]
                }),
    {
        let ghost pre = self@;
        let mut i: usize = 0;
        while i < self.docs.len()
            invariant
                old(self).wf(),
                self@.len() == pre.len(),
                i <= pre.len(),
                forall|k: int|
                    0 <= k < i ==> self@[k] == (if multi_selected(#[trigger] pre[k], updates@) {
                        retag(pre[k], tags.deep_view())
                    } else {
                        pre[k]
                    }),
                forall|k: int| i <= k < pre.len() ==> #[trigger] self@[k] == pre[k],
            decreases pre.len() - i,
        {
            proof {
                assert(self@[i as int] == self.docs@[i as int].deep_view());
            }
            let sel = multi_selected_exec(&self.docs[i], updates);
            if sel {
                let mut d = self.docs[i].duplicate();
                d.tags = crate::envelope::clone_string_vec(tags);
                let ghost dv = d@;
                self.docs.set(i, d);
                proof {
                    assert(self@[i as int] == dv);
                    assert(dv == retag(pre[i as int], tags.deep_view()));
                }
            }
            i = i + 1;
        }
        proof {
            assert forall|x: int, y: int|
                0 <= x < y < self@.len() implies (#[trigger] self@[x]).id != (#[trigger] self@[y]).id by {
                assert(self@[x].id == pre[x].id);
                assert(self@[y].id == pre[y].id);
            }
        }
    }
}

/// Unfolds one step of `Seq::filter` from the back.
pub proof fn lemma_filter_unfold<A>(s: Seq<A>, pred: spec_fn(A) -> bool)
    requires
        s.len() > 0,
    ensures
        s.filter(pred) == if pred(s.last()) {
            s.drop_last().filter(pred).push(s.last())
        } else {
            s.drop_last().filter(pred)
        },
{
    reveal(Seq::filter);
}

/// Filtering a sequence of documents with unique ids keeps ids unique.
pub proof fn lemma_filter_unique(s: Seq<EnvelopeView>, pred: spec_fn(EnvelopeView) -> bool)
    requires
        unique_ids(s),
    ensures
        unique_ids(s.filter(pred)),
    decreases s.len(),
{
    reveal(Seq::filter);
    if s.len() > 0 {
        lemma_filter_unique(s.drop_last(), pred);
        let f = s.filter(pred);
        let fd = s.drop_last().filter(pred);
        if pred(s.last()) {
            assert forall|x: int, y: int|
                0 <= x < y < f.len() implies (#[trigger] f[x]).id != (#[trigger] f[y]).id by {
                if y < fd.len() {
                } else {
                    assert(f[y] == s.last());
                    assert(fd.contains(f[x])) by {
                        assert(f[x] == fd[x]);
                    }
                    lemma_filter_element_of(s.drop_last(), pred, x);
                    let w = choose|w: int|
                        0 <= w < s.drop_last().len() && s.drop_last()[w] == fd[x];
                    assert(s[w] == fd[x]);
                    assert(s[s.len() - 1] == s.last());
                    assert(s[w].id != s.last().id);
                }
            }
        }
    }
}

/// Every element of a filtered sequence comes from the original.
pub proof fn lemma_filter_element_of<A>(s: Seq<A>, pred: spec_fn(A) -> bool, i: int)
    requires
        0 <= i < s.filter(pred).len(),
    ensures
        exists|w: int| 0 <= w < s.len() && s[w] == s.filter(pred)[i],
        pred(s.filter(pred)[i]),
    decreases s.len(),
{
    reveal(Seq::filter);
    if s.len() > 0 {
        let fd = s.drop_last().filter(pred);
        if i < fd.len() {
            lemma_filter_element_of(s.drop_last(), pred, i);
            let w = choose|w: int| 0 <= w < s.drop_last().len() && s.drop_last()[w] == fd[i];
            assert(s[w] == s.filter(pred)[i]);
        } else {
            assert(s[s.len() - 1] == s.filter(pred)[i]);
        }
    }
}

} // verus!
