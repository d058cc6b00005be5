//! The tag facet listing: every facet path that occurs on (or above) a
//! stored tag, with the number of documents under it, collected
//! recursively from the root and restricted to the caller's accounts.

use crate::envelope::EnvelopeView;
use crate::index::lemma_filter_unfold;
use crate::index::EnvelopeIndex;
use crate::query::allowed_ok;
use vstd::prelude::*;
use vstd::string::StringExecFns;
use vstd::string::StrSliceExecFns;

verus! {

/// One facet with its document count.
#[derive(Clone, Debug, PartialEq, Eq)]
pub struct TagCount {
    pub tag: String,
    pub count: u64,
}

/// Facet matching over characters: the tag equals the facet, or lies
/// below it in the hierarchy.
pub open spec fn facet_matches_chars(t: Seq<char>, q: Seq<char>) -> bool {
    ||| t == q
    ||| (q.len() < t.len() && t.subrange(0, q.len() as int) == q && t[q.len() as int] == '/')
}

/// Whether some tag of the document is matched by the facet.
pub open spec fn has_tag_under(ev: EnvelopeView, q: Seq<char>) -> bool {
    exists|j: int| 0 <= j < ev.tags.len() && facet_matches_chars(#[trigger] ev.tags[j], q)
}

/// The selection a facet count filters by.
pub open spec fn facet_pred(allowed: Option<Seq<u64>>, q: Seq<char>) -> spec_fn(
    EnvelopeView,
) -> bool {
    |ev: EnvelopeView| allowed_ok(allowed, ev) && has_tag_under(ev, q)
}

/// How many allowed documents lie under the facet.
pub open spec fn facet_doc_count(
    docs: Seq<EnvelopeView>,
    allowed: Option<Seq<u64>>,
    q: Seq<char>,
) -> int {
    docs.filter(facet_pred(allowed, q)).len() as int
}

/// Whether `c` cuts the tag at a hierarchy boundary: at its end, or just
/// before a separator.
pub open spec fn is_cut(t: Seq<char>, c: int) -> bool {
    0 < c <= t.len() && (c == t.len() || t[c] == '/')
}

/// Whether the listing holds an entry for this facet path.
pub open spec fn listed(entries: Seq<TagCount>, q: Seq<char>) -> bool {
    exists|e: int| 0 <= e < entries.len() && (#[trigger] entries[e]).tag@ == q
}

/// The summed counts of a family of facets.
pub open spec fn sum_facet_counts(
    docs: Seq<EnvelopeView>,
    allowed: Option<Seq<u64>>,
    cs: Seq<Seq<char>>,
) -> int
    decreases cs.len(),
{
    if cs.len() == 0 {
        0
    } else {
        facet_doc_count(docs, allowed, cs[0]) + sum_facet_counts(docs, allowed, cs.drop_first())
    }
}

/// Whether exactly one facet of the family covers the document.
pub open spec fn exactly_one_child(ev: EnvelopeView, cs: Seq<Seq<char>>) -> bool {
    exists|i: int|
        0 <= i < cs.len() && has_tag_under(ev, #[trigger] cs[i]) && forall|j: int|
            0 <= j < cs.len() && j != i ==> !has_tag_under(ev, #[trigger] cs[j])
}

/// How many facets of the family cover the document: zero or one under the
/// partition hypothesis.
pub open spec fn child_hits(ev: EnvelopeView, cs: Seq<Seq<char>>) -> int
    decreases cs.len(),
{
    if cs.len() == 0 {
        0
    } else {
        (if has_tag_under(ev, cs[0]) {
            1int
        } else {
            0int
        }) + child_hits(ev, cs.drop_first())
    }
}

proof fn lemma_child_hits_one(ev: EnvelopeView, cs: Seq<Seq<char>>)
    requires
        exactly_one_child(ev, cs),
    ensures
        child_hits(ev, cs) == 1,
    decreases cs.len(),
{
    let i = choose|i: int|
        0 <= i < cs.len() && has_tag_under(ev, #[trigger] cs[i]) && forall|j: int|
            0 <= j < cs.len() && j != i ==> !has_tag_under(ev, #[trigger] cs[j]);
    if i == 0 {
        lemma_child_hits_zero(ev, cs.drop_first());
    } else {
        assert(!has_tag_under(ev, cs[0]));
        assert(exactly_one_child(ev, cs.drop_first())) by {
            assert(cs.drop_first()[i - 1] == cs[i]);
            assert forall|j: int|
                0 <= j < cs.drop_first().len() && j != i - 1 implies !has_tag_under(
                ev,
                #[trigger] cs.drop_first()[j],
            ) by {
                assert(cs.drop_first()[j] == cs[j + 1]);
            }
        }
        lemma_child_hits_one(ev, cs.drop_first());
    }
}

proof fn lemma_child_hits_zero(ev: EnvelopeView, cs: Seq<Seq<char>>)
    requires
        forall|j: int| 0 <= j < cs.len() ==> !has_tag_under(ev, #[trigger] cs[j]),
    ensures
        child_hits(ev, cs) == 0,
    decreases cs.len(),
{
    if cs.len() > 0 {
        lemma_child_hits_zero(ev, cs.drop_first());
    }
}

proof fn lemma_sum_counts_step(
    docs: Seq<EnvelopeView>,
    allowed: Option<Seq<u64>>,
    cs: Seq<Seq<char>>,
)
    requires
        docs.len() > 0,
    ensures
        sum_facet_counts(docs, allowed, cs) == sum_facet_counts(docs.drop_last(), allowed, cs)
            + (if allowed_ok(allowed, docs.last()) {
            child_hits(docs.last(), cs)
        } else {
            0int
        }),
    decreases cs.len(),
{
    reveal(Seq::filter);
    if cs.len() > 0 {
        lemma_sum_counts_step(docs, allowed, cs.drop_first());
    }
}

/// Facet recursion: where a family of descendant facets of one parent
/// covers every document under the parent exactly once — each family
/// member lies below the parent, and no covered document lies under two of
/// them — the family's summed counts equal the parent's count. This is the
/// relation the recursive facet listing exhibits between a facet and its
/// immediate children.
pub proof fn lemma_facet_recursion(
    docs: Seq<EnvelopeView>,
    allowed: Option<Seq<u64>>,
    parent: Seq<char>,
    cs: Seq<Seq<char>>,
)
    requires
        // every covered, allowed document under the parent lies under
        // exactly one family member
        forall|d: int|
            0 <= d < docs.len() && allowed_ok(allowed, #[trigger] docs[d]) && has_tag_under(
                docs[d],
                parent,
            ) ==> exactly_one_child(docs[d], cs),
        // family members cover only documents under the parent
        forall|d: int, i: int|
            0 <= d < docs.len() && 0 <= i < cs.len() && has_tag_under(
                #[trigger] docs[d],
                #[trigger] cs[i],
            ) ==> has_tag_under(docs[d], parent),
    ensures
        sum_facet_counts(docs, allowed, cs) == facet_doc_count(docs, allowed, parent),
    decreases docs.len(),
{
    reveal(Seq::filter);
    if docs.len() == 0 {
        assert(docs =~= Seq::<EnvelopeView>::empty());
        lemma_sum_counts_empty(allowed, cs);
        assert(docs.filter(facet_pred(allowed, parent)) =~= Seq::<EnvelopeView>::empty());
    } else {
        let rest = docs.drop_last();
        let d = docs.last();
        assert forall|x: int|
            0 <= x < rest.len() && allowed_ok(allowed, #[trigger] rest[x]) && has_tag_under(
                rest[x],
                parent,
            ) implies exactly_one_child(rest[x], cs) by {
            assert(rest[x] == docs[x]);
        }
        assert forall|x: int, i: int|
            0 <= x < rest.len() && 0 <= i < cs.len() && has_tag_under(
                #[trigger] rest[x],
                #[trigger] cs[i],
            ) implies has_tag_under(rest[x], parent) by {
            assert(rest[x] == docs[x]);
        }
        lemma_facet_recursion(rest, allowed, parent, cs);
        lemma_sum_counts_step(docs, allowed, cs);
        assert(docs[docs.len() - 1] == d);
        assert(facet_doc_count(docs, allowed, parent) == facet_doc_count(rest, allowed, parent)
            + (if allowed_ok(allowed, d) && has_tag_under(d, parent) {
            1int
        } else {
            0int
        })) by {
            reveal(Seq::filter);
            assert(docs.filter(facet_pred(allowed, parent)) == (if facet_pred(allowed, parent)(d) {
                rest.filter(facet_pred(allowed, parent)).push(d)
            } else {
                rest.filter(facet_pred(allowed, parent))
            }));
        }
        if allowed_ok(allowed, d) && has_tag_under(d, parent) {
            lemma_child_hits_one(d, cs);
            assert(sum_facet_counts(docs, allowed, cs) == facet_doc_count(rest, allowed, parent)
                + 1);
            assert(facet_doc_count(docs, allowed, parent) == facet_doc_count(
                rest,
                allowed,
                parent,
            ) + 1);
        } else if allowed_ok(allowed, d) {
            assert forall|j: int| 0 <= j < cs.len() implies !has_tag_under(d, #[trigger] cs[j]) by {
            }
            lemma_child_hits_zero(d, cs);
            assert(sum_facet_counts(docs, allowed, cs) == facet_doc_count(rest, allowed, parent));
            assert(facet_doc_count(docs, allowed, parent) == facet_doc_count(
                rest,
                allowed,
                parent,
            ));
        } else {
            assert(sum_facet_counts(docs, allowed, cs) == facet_doc_count(rest, allowed, parent));
            assert(facet_doc_count(docs, allowed, parent) == facet_doc_count(
                rest,
                allowed,
                parent,
            ));
        }
        assert(sum_facet_counts(docs, allowed, cs) == facet_doc_count(docs, allowed, parent));
    }
}

proof fn lemma_sum_counts_empty(allowed: Option<Seq<u64>>, cs: Seq<Seq<char>>)
    ensures
        sum_facet_counts(Seq::<EnvelopeView>::empty(), allowed, cs) == 0,
    decreases cs.len(),
{
    reveal(Seq::filter);
    if cs.len() > 0 {
        lemma_sum_counts_empty(allowed, cs.drop_first());
    }
}

fn facet_match_chars_exec(t: &str, q: &str) -> (r: bool)
    ensures
        r == facet_matches_chars(t@, q@),
{
    let tl = t.unicode_len();
    let ql = q.unicode_len();
    if ql > tl {
        return false;
    }
    let mut i: usize = 0;
    while i < ql
        invariant
            ql == q@.len(),
            tl == t@.len(),
            ql <= tl,
            i <= ql,
            forall|k: int| 0 <= k < i ==> t@[k] == q@[k],
        decreases ql - i,
    {
        if !(t.get_char(i) == q.get_char(i)) {
            proof {
                assert(t@.subrange(0, q@.len() as int)[i as int] != q@[i as int]);
                if t@ == q@ {
                    assert(t@[i as int] == q@[i as int]);
                }
            }
            return false;
        }
        i = i + 1;
    }
    proof {
        assert(t@.subrange(0, q@.len() as int) =~= q@);
    }
    if ql == tl {
        proof {
            assert(t@ =~= q@);
        }
        true
    } else {
        t.get_char(ql) == '/'
    }
}

fn has_tag_under_exec(e: &crate::envelope::Envelope, q: &String) -> (r: bool)
    ensures
        r == has_tag_under(e@, q@),
{
    let mut j: usize = 0;
    while j < e.tags.len()
        invariant
            j <= e.tags@.len(),
            forall|k: int| 0 <= k < j ==> !facet_matches_chars(#[trigger] e@.tags[k], q@),
        decreases e.tags@.len() - j,
    {
        proof {
            assert(e@.tags[j as int] == e.tags@[j as int]@);
        }
        if facet_match_chars_exec(e.tags[j].as_str(), q.as_str()) {
            return true;
        }
        j = j + 1;
    }
    false
}

fn allowed_exec(allowed: &Option<Vec<u64>>, e: &crate::envelope::Envelope) -> (r: bool)
    ensures
        r == allowed_ok(allowed.deep_view(), e@),
{
    match allowed {
        None => true,
        Some(v) => {
            let r = crate::index::contains_u64(v, e.account_id);
            proof {
                assert(v.deep_view() =~= v@);
            }
            r
        },
    }
}

fn key_listed(keys: &Vec<String>, q: &str) -> (r: bool)
    ensures
        r == (exists|k: int| 0 <= k < keys@.len() && (#[trigger] keys.deep_view()[k]) == q@),
{
    let mut k: usize = 0;
    while k < keys.len()
        invariant
            k <= keys@.len(),
            forall|x: int| 0 <= x < k ==> (#[trigger] keys.deep_view()[x]) != q@,
        decreases keys@.len() - k,
    {
        proof {
            assert(keys@[k as int]@ == keys.deep_view()[k as int]);
        }
        if crate::payload::bytes_eq(keys[k].as_str().as_bytes(), q.as_bytes()) {
            proof {
                broadcast use vstd::utf8::encode_utf8_decode_utf8;

                assert(vstd::utf8::decode_utf8(vstd::utf8::encode_utf8(keys.deep_view()[k as int]))
                    == keys.deep_view()[k as int]);
                assert(vstd::utf8::decode_utf8(vstd::utf8::encode_utf8(q@)) == q@);
                assert(keys.deep_view()[k as int] == q@);
            }
            return true;
        }
        k = k + 1;
    }
    false
}

impl EnvelopeIndex {
    /// Lists every facet occurring on an allowed document, at every level
    /// of its hierarchy, with the exact number of allowed documents under
    /// it. Keys are distinct; every ancestor path of every tag of every
    /// allowed document is listed.
    pub fn get_all_tags(&self, allowed: &Option<Vec<u64>>) -> (r: Vec<TagCount>)
        ensures
            forall|x: int, y: int|
                0 <= x < y < r@.len() ==> (#[trigger] r@[x]).tag@ != (#[trigger] r@[y]).tag@,
            forall|e: int|
                0 <= e < r@.len() ==> (#[trigger] r@[e]).count == facet_doc_count(
                    self@,
                    allowed.deep_view(),
                    r@[e].tag@,
                ),
            forall|d: int, j: int, c: int|
                0 <= d < self@.len() && allowed_ok(allowed.deep_view(), self@[d]) && 0
                    <= j < self@[d].tags.len() && #[trigger] is_cut(self@[d].tags[j], c)
                    ==> listed(r@, self@[d].tags[j].subrange(0, c)),
    {
        let keys = self.collect_keys(allowed);
        let mut out: Vec<TagCount> = Vec::new();
        let mut i: usize = 0;
        while i < keys.len()
            invariant
                i <= keys@.len(),
                out@.len() == i,
                forall|x: int, y: int|
                    0 <= x < y < keys@.len() ==> (#[trigger] keys.deep_view()[x])
                        != (#[trigger] keys.deep_view()[y]),
                forall|x: int|
                    0 <= x < i ==> (#[trigger] out@[x]).tag@ == keys.deep_view()[x]
                        && out@[x].count == facet_doc_count(
                        self@,
                        allowed.deep_view(),
                        keys.deep_view()[x],
                    ),
                forall|d: int, j: int, c: int|
                    0 <= d < self@.len() && allowed_ok(allowed.deep_view(), self@[d])
                        && 0 <= j < self@[d].tags.len() && #[trigger] is_cut(self@[d].tags[j], c)
                        ==> (exists|k: int|
                        0 <= k < keys@.len() && (#[trigger] keys.deep_view()[k]) == self@[
                            d
                        ].tags[j].subrange(0, c)),
            decreases keys@.len() - i,
        {
            proof {
                assert(keys@[i as int]@ == keys.deep_view()[i as int]);
            }
            let count = self.count_under(allowed, &keys[i]);
            let tag = keys[i].clone();
            out.push(TagCount { tag, count });
            i = i + 1;
        }
        proof {
            assert forall|d: int, j: int, c: int|
                0 <= d < self@.len() && allowed_ok(allowed.deep_view(), self@[d]) && 0
                    <= j < self@[d].tags.len() && #[trigger] is_cut(
                self@[d].tags[j],
                c,
            ) implies listed(out@, self@[d].tags[j].subrange(0, c)) by {
                let k = choose|k: int|
                    0 <= k < keys@.len() && (#[trigger] keys.deep_view()[k]) == self@[
                        d
                    ].tags[j].subrange(0, c);
                assert(out@[k].tag@ == self@[d].tags[j].subrange(0, c));
            }
        }
        out
    }

    /// Counts the allowed documents under one facet.
    fn count_under(&self, allowed: &Option<Vec<u64>>, q: &String) -> (r: u64)
        ensures
            r == facet_doc_count(self@, allowed.deep_view(), q@),
    {
        let ghost pred = |ev: EnvelopeView|
            allowed_ok(allowed.deep_view(), ev) && has_tag_under(ev, q@);
        let mut count: usize = 0;
        let mut i: usize = 0;
        proof {
            assert(self@.subrange(0, 0).filter(pred) =~= Seq::<EnvelopeView>::empty()) by {
                reveal(Seq::filter);
                assert(self@.subrange(0, 0) =~= Seq::<EnvelopeView>::empty());
            }
        }
        while i < self.docs.len()
            invariant
                pred == (|ev: EnvelopeView|
                    allowed_ok(allowed.deep_view(), ev) && has_tag_under(ev, q@)),
                i <= self@.len(),
                count <= i,
                count == self@.subrange(0, i as int).filter(pred).len(),
            decreases self@.len() - i,
        {
            proof {
                assert(self@[i as int] == self.docs@[i as int].deep_view());
                assert(self@.subrange(0, i + 1).drop_last() =~= self@.subrange(0, i as int));
                assert(self@.subrange(0, i + 1).last() == self@[i as int]);
                lemma_filter_unfold(self@.subrange(0, i + 1), pred);
            }
            let al = allowed_exec(allowed, &self.docs[i]);
            let hit = has_tag_under_exec(&self.docs[i], q);
            if al && hit {
                count = count + 1;
            }
            i = i + 1;
        }
        proof {
            assert(self@.subrange(0, self@.len() as int) =~= self@);
        }
        count as u64
    }

    /// Collects the distinct ancestor paths of every tag of every allowed
    /// document.
    fn collect_keys(&self, allowed: &Option<Vec<u64>>) -> (r: Vec<String>)
        ensures
            forall|x: int, y: int|
                0 <= x < y < r@.len() ==> (#[trigger] r.deep_view()[x])
                    != (#[trigger] r.deep_view()[y]),
            forall|d: int, j: int, c: int|
                0 <= d < self@.len() && allowed_ok(allowed.deep_view(), self@[d]) && 0
                    <= j < self@[d].tags.len() && #[trigger] is_cut(self@[d].tags[j], c)
                    ==> (exists|k: int|
                    0 <= k < r@.len() && (#[trigger] r.deep_view()[k]) == self@[d].tags[j].subrange(
                        0,
                        c,
                    )),
    {
        let mut keys: Vec<String> = Vec::new();
        let mut d: usize = 0;
        while d < self.docs.len()
            invariant
                d <= self@.len(),
                forall|x: int, y: int|
                    0 <= x < y < keys@.len() ==> (#[trigger] keys.deep_view()[x])
                        != (#[trigger] keys.deep_view()[y]),
                forall|dd: int, j: int, c: int|
                    0 <= dd < d && allowed_ok(allowed.deep_view(), self@[dd]) && 0 <= j
                        < self@[dd].tags.len() && #[trigger] is_cut(self@[dd].tags[j], c) ==> (
                    exists|k: int|
                        0 <= k < keys@.len() && (#[trigger] keys.deep_view()[k]) == self@[
                            dd
                        ].tags[j].subrange(0, c)),
            decreases self@.len() - d,
        {
            proof {
                assert(self@[d as int] == self.docs@[d as int].deep_view());
            }
            let al = allowed_exec(allowed, &self.docs[d]);
            if al {
                let mut j: usize = 0;
                while j < self.docs[d].tags.len()
                    invariant
                        d < self@.len(),
                        self@[d as int] == self.docs@[d as int].deep_view(),
                        allowed_ok(allowed.deep_view(), self@[d as int]),
                        j <= self@[d as int].tags.len(),
                        forall|x: int, y: int|
                            0 <= x < y < keys@.len() ==> (#[trigger] keys.deep_view()[x])
                                != (#[trigger] keys.deep_view()[y]),
                        forall|dd: int, jj: int, c: int|
                            0 <= dd < d && allowed_ok(allowed.deep_view(), self@[dd])
                                && 0 <= jj < self@[dd].tags.len() && #[trigger] is_cut(
                                self@[dd].tags[jj],
                                c,
                            ) ==> (exists|k: int|
                                0 <= k < keys@.len() && (#[trigger] keys.deep_view()[k])
                                    == self@[dd].tags[jj].subrange(0, c)),
                        forall|jj: int, c: int|
                            0 <= jj < j && #[trigger] is_cut(self@[d as int].tags[jj], c) ==> (
                            exists|k: int|
                                0 <= k < keys@.len() && (#[trigger] keys.deep_view()[k])
                                    == self@[d as int].tags[jj].subrange(0, c)),
                    decreases self@[d as int].tags.len() - j,
                {
                    proof {
                        assert(self@[d as int].tags[j as int] == self.docs@[d as int].tags@[
                            j as int
                        ]@);
                    }
                    self.push_cuts_of(&mut keys, d, j);
                    j = j + 1;
                }
            }
            d = d + 1;
        }
        keys
    }

    /// Adds every missing ancestor path of one tag to the key list.
    fn push_cuts_of(&self, keys: &mut Vec<String>, d: usize, j: usize)
        requires
            d < self@.len(),
            j < self@[d as int].tags.len(),
            forall|x: int, y: int|
                0 <= x < y < old(keys)@.len() ==> (#[trigger] old(keys).deep_view()[x])
                    != (#[trigger] old(keys).deep_view()[y]),
        ensures
            forall|x: int, y: int|
                0 <= x < y < final(keys)@.len() ==> (#[trigger] final(keys).deep_view()[x])
                    != (#[trigger] final(keys).deep_view()[y]),
            // old keys survive
            forall|k: int|
                0 <= k < old(keys)@.len() ==> final(keys).deep_view().contains(
                    #[trigger] old(keys).deep_view()[k],
                ),
            // every cut of this tag is now listed
            forall|c: int|
                is_cut(self@[d as int].tags[j as int], c) ==> (exists|k: int|
                    0 <= k < final(keys)@.len() && (#[trigger] final(keys).deep_view()[k])
                        == self@[d as int].tags[j as int].subrange(0, c)),
    {
        let tag = &self.docs[d].tags[j];
        let ghost tv = self@[d as int].tags[j as int];
        proof {
            assert(tv == tag@);
        }
        let len = tag.as_str().unicode_len();
        let mut c: usize = 1;
        while c < len
            invariant
                tv == tag@,
                len == tag@.len(),
                1 <= c <= len || (len == 0 && c == 1),
                forall|x: int, y: int|
                    0 <= x < y < keys@.len() ==> (#[trigger] keys.deep_view()[x])
                        != (#[trigger] keys.deep_view()[y]),
                forall|k: int|
                    0 <= k < old(keys)@.len() ==> keys.deep_view().contains(
                        #[trigger] old(keys).deep_view()[k],
                    ),
                forall|cc: int|
                    cc < c && is_cut(tv, cc) && cc < len ==> (exists|k: int|
                        0 <= k < keys@.len() && (#[trigger] keys.deep_view()[k]) == tv.subrange(
                            0,
                            cc,
                        )),
            decreases len - c,
        {
            let ghost entry = keys.deep_view();
            if tag.as_str().get_char(c) == '/' {
                let prefix = tag.as_str().substring_char(0, c);
                let candidate = String::from_str(prefix);
                proof {
                    assert(candidate@ == tv.subrange(0, c as int));
                }
                if !key_listed(keys, candidate.as_str()) {
                    let ghost prev = keys.deep_view();
                    keys.push(candidate);
                    proof {
                        assert(keys.deep_view() =~~= prev.push(tv.subrange(0, c as int)));
                        assert(keys.deep_view()[prev.len() as int] == tv.subrange(0, c as int));
                        assert forall|x: int, y: int|
                            0 <= x < y < keys@.len() implies (#[trigger] keys.deep_view()[x])
                            != (#[trigger] keys.deep_view()[y]) by {
                            if y == prev.len() {
                                assert(keys.deep_view()[x] == prev[x]);
                            }
                        }
                        assert forall|k: int|
                            0 <= k < old(keys)@.len() implies keys.deep_view().contains(
                            #[trigger] old(keys).deep_view()[k],
                        ) by {
                            let w = choose|w: int|
                                0 <= w < prev.len() && prev[w] == old(keys).deep_view()[k];
                            assert(keys.deep_view()[w] == old(keys).deep_view()[k]);
                        }
                        assert forall|cc: int|
                            cc < c + 1 && is_cut(tv, cc) && cc < len implies (exists|k: int|
                            0 <= k < keys@.len() && (#[trigger] keys.deep_view()[k])
                                == tv.subrange(0, cc)) by {
                            if cc == c {
                                assert(keys.deep_view()[prev.len() as int] == tv.subrange(0, cc));
                            } else {
                                let w = choose|w: int|
                                    0 <= w < prev.len() && (#[trigger] prev[w]) == tv.subrange(
                                        0,
                                        cc,
                                    );
                                assert(keys.deep_view()[w] == tv.subrange(0, cc));
                            }
                        }
                    }
                } else {
                    proof {
                        assert(exists|k: int|
                            0 <= k < keys@.len() && (#[trigger] keys.deep_view()[k])
                                == tv.subrange(0, c as int));
                    }
                }
            }
            c = c + 1;
        }
        if len > 0 {
            let prefix = tag.as_str().substring_char(0, len);
            let candidate = String::from_str(prefix);
            proof {
                assert(candidate@ =~= tv);
                assert(candidate@ == tv.subrange(0, len as int)) by {
                    assert(tv.subrange(0, tv.len() as int) =~= tv);
                }
            }
            let ghost before_end = keys.deep_view();
            if !key_listed(keys, candidate.as_str()) {
                let ghost prev = keys.deep_view();
                keys.push(candidate);
                proof {
                    assert(keys.deep_view() =~~= prev.push(tv.subrange(0, len as int)));
                    assert(keys.deep_view()[prev.len() as int] == tv.subrange(0, len as int));
                    assert forall|x: int, y: int|
                        0 <= x < y < keys@.len() implies (#[trigger] keys.deep_view()[x])
                        != (#[trigger] keys.deep_view()[y]) by {
                        if y == prev.len() {
                            assert(keys.deep_view()[x] == prev[x]);
                        }
                    }
                    assert forall|k: int|
                        0 <= k < old(keys)@.len() implies keys.deep_view().contains(
                        #[trigger] old(keys).deep_view()[k],
                    ) by {
                        let w = choose|w: int|
                            0 <= w < prev.len() && prev[w] == old(keys).deep_view()[k];
                        assert(keys.deep_view()[w] == old(keys).deep_view()[k]);
                    }
                    assert forall|cc: int|
                        is_cut(tv, cc) && cc < len implies (exists|k: int|
                        0 <= k < keys@.len() && (#[trigger] keys.deep_view()[k]) == tv.subrange(
                            0,
                            cc,
                        )) by {
                        let w = choose|w: int|
                            0 <= w < prev.len() && (#[trigger] prev[w]) == tv.subrange(0, cc);
                        assert(keys.deep_view()[w] == tv.subrange(0, cc));
                    }
                    assert(exists|k: int|
                        0 <= k < keys@.len() && (#[trigger] keys.deep_view()[k]) == tv.subrange(
                            0,
                            len as int,
                        ));
                }
            } else {
                proof {
                    assert(exists|k: int|
                        0 <= k < keys@.len() && (#[trigger] keys.deep_view()[k]) == tv.subrange(
                            0,
                            len as int,
                        ));
                }
            }
        }
        proof {
            assert forall|cc: int| is_cut(tv, cc) implies (exists|k: int|
                0 <= k < keys@.len() && (#[trigger] keys.deep_view()[k]) == tv.subrange(
                    0,
                    cc,
                )) by {
                assert(0 < cc <= len);
            }
        }
    }
}

} // verus!
