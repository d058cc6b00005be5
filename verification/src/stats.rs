//! Dashboard aggregations over the envelope index: total size, a 30-day
//! daily histogram, top senders, top accounts, and the attachment split.

use crate::envelope::Envelope;
use crate::envelope::EnvelopeView;
use crate::index::EnvelopeIndex;
use crate::index::lemma_filter_unfold;
use vstd::multiset::Multiset;
use vstd::prelude::*;
use vstd::seq_lib::lemma_multiset_commutative;
use vstd::string::StringExecFns;

verus! {

broadcast use vstd::seq_lib::group_seq_properties;

/// Milliseconds per day: the histogram bucket width.
pub const DAY_MS: u64 = 86400000;

/// Thirty days in milliseconds: the histogram window.
pub const WINDOW_MS: u64 = 2592000000;

/// One histogram bucket: the bucket's aligned start time and how many
/// documents fall in it.
#[derive(Clone, Debug, PartialEq, Eq)]
pub struct TimeBucket {
    pub timestamp_ms: i64,
    pub count: u64,
}

/// One terms-aggregation entry.
#[derive(Clone, Debug, PartialEq, Eq)]
pub struct Group {
    pub key: String,
    pub count: u64,
}

/// The mathematical value of a terms entry.
pub ghost struct GroupView {
    pub key: Seq<char>,
    pub count: u64,
}

impl View for Group {
    type V = GroupView;

    open spec fn view(&self) -> GroupView {
        GroupView { key: self.key@, count: self.count }
    }
}

impl DeepView for Group {
    type V = GroupView;

    open spec fn deep_view(&self) -> GroupView {
        self.view()
    }
}

/// The dashboard overview.
#[derive(Clone, Debug, PartialEq, Eq)]
pub struct DashboardStats {
    /// Sum of all stored sizes, clamped to the type's range.
    pub total_size_bytes: u64,
    /// Daily activity over the past thirty days.
    pub recent_activity: Vec<TimeBucket>,
    /// The ten most frequent senders, most frequent first.
    pub top_senders: Vec<Group>,
    /// The ten accounts with the most documents, resolved to email.
    pub top_accounts: Vec<Group>,
    pub with_attachment_count: u64,
    pub without_attachment_count: u64,
}

/// The sum of the stored sizes.
pub open spec fn sum_sizes(s: Seq<EnvelopeView>) -> nat
    decreases s.len(),
{
    if s.len() == 0 {
        0
    } else {
        (sum_sizes(s.drop_last()) + s.last().size) as nat
    }
}

/// A sum clamped into `u64`.
pub open spec fn clamp_u64(n: nat) -> u64 {
    if n > u64::MAX {
        u64::MAX
    } else {
        n as u64
    }
}

/// Whether a document falls into the histogram bucket numbered `b` of the
/// window `[lo, hi]`, with buckets aligned to whole days.
pub open spec fn in_bucket(ev: EnvelopeView, lo: i64, hi: i64, b: int) -> bool {
    &&& lo <= ev.internal_date <= hi
    &&& ev.internal_date as int / DAY_MS as int == lo as int / DAY_MS as int + b
}

/// How many documents have this sender.
pub open spec fn count_from(docs: Seq<EnvelopeView>, key: Seq<char>) -> int {
    docs.filter(|ev: EnvelopeView| ev.from == key).len() as int
}

/// How many documents this account holds.
pub open spec fn count_account(docs: Seq<EnvelopeView>, account_id: u64) -> int {
    docs.filter(|ev: EnvelopeView| ev.account_id == account_id).len() as int
}

/// Some document has this sender.
pub open spec fn from_occurs(docs: Seq<EnvelopeView>, key: Seq<char>) -> bool {
    exists|i: int| 0 <= i < docs.len() && (#[trigger] docs[i]).from == key
}

/// Some document belongs to this account.
pub open spec fn account_occurs(docs: Seq<EnvelopeView>, account_id: u64) -> bool {
    exists|i: int| 0 <= i < docs.len() && (#[trigger] docs[i]).account_id == account_id
}

/// Entries ordered by count, most frequent first.
pub open spec fn counts_desc(s: Seq<GroupView>) -> bool {
    forall|i: int, j: int| 0 <= i < j < s.len() ==> (#[trigger] s[i]).count >= (#[trigger] s[j]).count
}

proof fn lemma_sum_sizes_bound(s: Seq<EnvelopeView>)
    ensures
        sum_sizes(s) <= s.len() * u64::MAX,
    decreases s.len(),
{
    if s.len() > 0 {
        lemma_sum_sizes_bound(s.drop_last());
        assert((s.len() - 1) * u64::MAX + u64::MAX == s.len() * u64::MAX) by (nonlinear_arith);
    }
}

/// Some entry carries this sender key.
pub open spec fn has_sender_entry(gs: Seq<GroupView>, key: Seq<char>) -> bool {
    exists|i: int| 0 <= i < gs.len() && (#[trigger] gs[i]).key == key
}

/// A complete terms aggregation over senders: one entry per distinct sender,
/// with its exact document count.
pub open spec fn sender_groups_ok(docs: Seq<EnvelopeView>, gs: Seq<GroupView>) -> bool {
    &&& forall|i: int, j: int| 0 <= i < j < gs.len() ==> (#[trigger] gs[i]).key != (#[trigger] gs[j]).key
    &&& forall|i: int|
        0 <= i < gs.len() ==> (#[trigger] gs[i]).count == count_from(docs, gs[i].key)
            && from_occurs(docs, gs[i].key)
    &&& forall|d: int|
        0 <= d < docs.len() ==> has_sender_entry(gs, (#[trigger] docs[d]).from)
}

/// Some pair carries this account id.
pub open spec fn has_account_entry(gs: Seq<(u64, u64)>, aid: u64) -> bool {
    exists|i: int| 0 <= i < gs.len() && (#[trigger] gs[i]).0 == aid
}

/// A complete terms aggregation over accounts: one pair per distinct
/// account, with its exact document count.
pub open spec fn account_groups_ok(docs: Seq<EnvelopeView>, gs: Seq<(u64, u64)>) -> bool {
    &&& forall|i: int, j: int| 0 <= i < j < gs.len() ==> (#[trigger] gs[i]).0 != (#[trigger] gs[j]).0
    &&& forall|i: int|
        0 <= i < gs.len() ==> (#[trigger] gs[i]).1 == count_account(docs, gs[i].0)
            && account_occurs(docs, gs[i].0)
    &&& forall|d: int|
        0 <= d < docs.len() ==> has_account_entry(gs, (#[trigger] docs[d]).account_id)
}

/// Pairs ordered by count, most frequent first.
pub open spec fn pair_counts_desc(s: Seq<(u64, u64)>) -> bool {
    forall|i: int, j: int| 0 <= i < j < s.len() ==> (#[trigger] s[i]).1 >= (#[trigger] s[j]).1
}

/// The email of an account in a lookup list: the first match, or empty.
pub open spec fn spec_email_of(m: Seq<(u64, String)>, aid: u64) -> Seq<char>
    decreases m.len(),
{
    if m.len() == 0 {
        Seq::empty()
    } else if m[0].0 == aid {
        m[0].1@
    } else {
        spec_email_of(m.drop_first(), aid)
    }
}

fn email_of(m: &Vec<(u64, String)>, aid: u64) -> (r: String)
    ensures
        r@ == spec_email_of(m@, aid),
{
    proof {
        assert(m@.subrange(0, m@.len() as int) =~= m@);
    }
    let mut i: usize = 0;
    while i < m.len()
        invariant
            i <= m@.len(),
            spec_email_of(m@, aid) == spec_email_of(m@.subrange(i as int, m@.len() as int), aid),
        decreases m@.len() - i,
    {
        let ghost tail = m@.subrange(i as int, m@.len() as int);
        proof {
            assert(tail[0] == m@[i as int]);
            assert(tail.drop_first() =~= m@.subrange(i + 1, m@.len() as int));
        }
        if m[i].0 == aid {
            return m[i].1.clone();
        }
        i = i + 1;
    }
    proof {
        assert(m@.subrange(m@.len() as int, m@.len() as int) =~= Seq::<(u64, String)>::empty());
    }
    String::new()
}

/// Sorts account/count pairs by count, most frequent first.
fn sort_pairs(input: Vec<(u64, u64)>) -> (r: Vec<(u64, u64)>)
    ensures
        pair_counts_desc(r@),
        r@.to_multiset() == input@.to_multiset(),
        r@.len() == input@.len(),
{
    broadcast use vstd::seq_lib::group_to_multiset_ensures;
    broadcast use vstd::multiset::group_multiset_axioms;

    let ghost whole = input@;
    let n = input.len();
    let mut rest = input;
    let mut out: Vec<(u64, u64)> = Vec::new();
    proof {
        assert(out@ =~= Seq::<(u64, u64)>::empty());
        assert(out@.to_multiset().add(rest@.to_multiset()) =~= whole.to_multiset());
    }
    while rest.len() > 0
        invariant
            whole.len() <= usize::MAX,
            pair_counts_desc(out@),
            out@.to_multiset().add(rest@.to_multiset()) == whole.to_multiset(),
            out@.len() + rest@.len() == whole.len(),
        decreases rest@.len(),
    {
        let ghost rest_pre = rest@;
        let e = rest.pop().unwrap();
        proof {
            assert(rest_pre =~= rest@.push(e));
            assert((rest@.push(e)).to_multiset() =~= rest@.to_multiset().insert(e));
        }
        let ghost out_pre = out@;
        let mut p: usize = out.len();
        loop
            invariant_except_break
                p <= out@.len(),
                out@ == out_pre,
                forall|k: int| p <= k < out_pre.len() ==> e.1 >= (#[trigger] out_pre[k]).1,
            ensures
                p <= out@.len(),
                out@ == out_pre,
                forall|k: int| p <= k < out_pre.len() ==> e.1 >= (#[trigger] out_pre[k]).1,
                p > 0 ==> out_pre[p - 1].1 >= e.1,
            decreases p,
        {
            if p == 0 {
                break;
            }
            if out[p - 1].1 >= e.1 {
                break;
            }
            p = p - 1;
        }
        let ghost pp = p as int;
        out.insert(p, e);
        proof {
            assert(out@ =~= out_pre.subrange(0, pp) + seq![e] + out_pre.subrange(
                pp,
                out_pre.len() as int,
            ));
            assert(out_pre =~= out_pre.subrange(0, pp) + out_pre.subrange(pp, out_pre.len() as int));
            assert forall|i: int, j: int|
                0 <= i < j < out@.len() implies (#[trigger] out@[i]).1 >= (#[trigger] out@[j]).1 by {
                if j < pp {
                } else if i > pp {
                } else if i == pp && j > pp {
                    assert(out@[j] == out_pre[j - 1]);
                } else if i < pp && j == pp {
                    assert(out@[i] == out_pre[i]);
                    if i < pp - 1 {
                        assert(out_pre[i].1 >= out_pre[pp - 1].1);
                    }
                } else {
                    assert(out@[i] == out_pre[i] && out@[j] == out_pre[j - 1]);
                }
            }
            lemma_multiset_commutative(out_pre.subrange(0, pp) + seq![e], out_pre.subrange(
                pp,
                out_pre.len() as int,
            ));
            lemma_multiset_commutative(out_pre.subrange(0, pp), seq![e]);
            lemma_multiset_commutative(out_pre.subrange(0, pp), out_pre.subrange(
                pp,
                out_pre.len() as int,
            ));
            assert(seq![e].to_multiset() =~= Multiset::empty().insert(e)) by {
                assert(seq![e].drop_first() =~= Seq::<(u64, u64)>::empty());
            }
            assert(out@.to_multiset() =~= out_pre.to_multiset().insert(e));
            assert(out@.to_multiset().add(rest@.to_multiset()) =~= whole.to_multiset()) by {
                assert(out_pre.to_multiset().insert(e).add(rest@.to_multiset())
                    =~= out_pre.to_multiset().add(rest@.to_multiset().insert(e)));
            }
        }
    }
    proof {
        assert(rest@ =~= Seq::<(u64, u64)>::empty());
        assert(out@.to_multiset() =~= whole.to_multiset());
    }
    out
}

/// Sorts terms entries by count, most frequent first.
fn sort_groups(input: Vec<Group>) -> (r: Vec<Group>)
    ensures
        counts_desc(r.deep_view()),
        r.deep_view().to_multiset() == input.deep_view().to_multiset(),
        r@.len() == input@.len(),
{
    broadcast use vstd::seq_lib::group_to_multiset_ensures;
    broadcast use vstd::multiset::group_multiset_axioms;

    let ghost whole = input.deep_view();
    let n = input.len();
    let mut rest = input;
    let mut out: Vec<Group> = Vec::new();
    proof {
        assert(out.deep_view() =~= Seq::<GroupView>::empty());
        assert(out.deep_view().to_multiset().add(rest.deep_view().to_multiset())
            =~= whole.to_multiset());
    }
    while rest.len() > 0
        invariant
            whole.len() <= usize::MAX,
            counts_desc(out.deep_view()),
            out.deep_view().to_multiset().add(rest.deep_view().to_multiset())
                == whole.to_multiset(),
            out@.len() + rest@.len() == whole.len(),
        decreases rest@.len(),
    {
        let ghost rest_pre = rest.deep_view();
        let e = rest.pop().unwrap();
        proof {
            assert(rest.deep_view() =~= rest_pre.drop_last());
            assert(rest_pre =~= rest.deep_view().push(e@));
            assert((rest.deep_view().push(e@)).to_multiset()
                =~= rest.deep_view().to_multiset().insert(e@));
        }
        let ghost out_pre = out.deep_view();
        let ghost ev = e@;
        let mut p: usize = out.len();
        loop
            invariant_except_break
                ev == e@,
                p <= out@.len(),
                out.deep_view() == out_pre,
                forall|k: int| p <= k < out_pre.len() ==> ev.count >= (#[trigger] out_pre[k]).count,
            ensures
                p <= out@.len(),
                out.deep_view() == out_pre,
                forall|k: int| p <= k < out_pre.len() ==> ev.count >= (#[trigger] out_pre[k]).count,
                p > 0 ==> out_pre[p - 1].count >= ev.count,
            decreases p,
        {
            if p == 0 {
                break;
            }
            proof {
                assert(out@[p - 1].deep_view() == out_pre[p - 1]);
            }
            if out[p - 1].count >= e.count {
                break;
            }
            p = p - 1;
        }
        let ghost pp = p as int;
        out.insert(p, e);
        proof {
            let post = out.deep_view();
            assert(post =~= out_pre.subrange(0, pp) + seq![ev] + out_pre.subrange(
                pp,
                out_pre.len() as int,
            ));
            assert(out_pre =~= out_pre.subrange(0, pp) + out_pre.subrange(pp, out_pre.len() as int));
            assert forall|i: int, j: int|
                0 <= i < j < post.len() implies (#[trigger] post[i]).count
                >= (#[trigger] post[j]).count by {
                if j < pp {
                } else if i > pp {
                } else if i == pp && j > pp {
                    assert(post[j] == out_pre[j - 1]);
                } else if i < pp && j == pp {
                    assert(post[i] == out_pre[i]);
                    if i < pp - 1 {
                        assert(out_pre[i].count >= out_pre[pp - 1].count);
                    }
                } else {
                    assert(post[i] == out_pre[i] && post[j] == out_pre[j - 1]);
                }
            }
            lemma_multiset_commutative(out_pre.subrange(0, pp) + seq![ev], out_pre.subrange(
                pp,
                out_pre.len() as int,
            ));
            lemma_multiset_commutative(out_pre.subrange(0, pp), seq![ev]);
            lemma_multiset_commutative(out_pre.subrange(0, pp), out_pre.subrange(
                pp,
                out_pre.len() as int,
            ));
            assert(seq![ev].to_multiset() =~= Multiset::empty().insert(ev)) by {
                assert(seq![ev].drop_first() =~= Seq::<GroupView>::empty());
            }
            assert(post.to_multiset() =~= out_pre.to_multiset().insert(ev));
            assert(post.to_multiset().add(rest.deep_view().to_multiset()) =~= whole.to_multiset())
                by {
                assert(out_pre.to_multiset().insert(ev).add(rest.deep_view().to_multiset())
                    =~= out_pre.to_multiset().add(rest.deep_view().to_multiset().insert(ev)));
            }
        }
    }
    proof {
        assert(rest.deep_view() =~= Seq::<GroupView>::empty());
        assert(out.deep_view().to_multiset() =~= whole.to_multiset());
    }
    out
}

impl EnvelopeIndex {
    /// Counts the documents of one account.
    fn count_account_exec(&self, aid: u64) -> (r: u64)
        ensures
            r == count_account(self@, aid),
    {
        let ghost pred = |ev: EnvelopeView| ev.account_id == aid;
        let mut count: usize = 0;
        let mut i: usize = 0;
        proof {
            assert(self@.subrange(0, 0).filter(pred) =~= Seq::<EnvelopeView>::empty()) by {
                reveal(Seq::filter);
                assert(self@.subrange(0, 0) =~= Seq::<EnvelopeView>::empty());
            }
        }
        while i < self.docs.len()
            invariant
                pred == (|ev: EnvelopeView| ev.account_id == aid),
                i <= self@.len(),
                count <= i,
                count == self@.subrange(0, i as int).filter(pred).len(),
            decreases self@.len() - i,
        {
            proof {
                assert(self@[i as int] == self.docs@[i as int].deep_view());
                assert(self@.subrange(0, i + 1).drop_last() =~= self@.subrange(0, i as int));
                assert(self@.subrange(0, i + 1).last() == self@[i as int]);
                lemma_filter_unfold(self@.subrange(0, i + 1), pred);
            }
            if self.docs[i].account_id == aid {
                count = count + 1;
            }
            i = i + 1;
        }
        proof {
            assert(self@.subrange(0, self@.len() as int) =~= self@);
        }
        count as u64
    }

    /// The distinct account ids of the stored documents, in order of first
    /// appearance.
    fn distinct_accounts(&self) -> (r: Vec<u64>)
        ensures
            forall|x: int, y: int| 0 <= x < y < r@.len() ==> r@[x] != r@[y],
            forall|x: int| 0 <= x < r@.len() ==> account_occurs(self@, #[trigger] r@[x]),
            forall|d: int| 0 <= d < self@.len() ==> r@.contains((#[trigger] self@[d]).account_id),
    {
        let mut out: Vec<u64> = Vec::new();
        let mut i: usize = 0;
        while i < self.docs.len()
            invariant
                i <= self@.len(),
                forall|x: int, y: int| 0 <= x < y < out@.len() ==> out@[x] != out@[y],
                forall|x: int| 0 <= x < out@.len() ==> account_occurs(self@, #[trigger] out@[x]),
                forall|d: int| 0 <= d < i ==> out@.contains((#[trigger] self@[d]).account_id),
            decreases self@.len() - i,
        {
            proof {
                assert(self@[i as int] == self.docs@[i as int].deep_view());
            }
            let aid = self.docs[i].account_id;
            let seen = crate::index::contains_u64(&out, aid);
            if !seen {
                let ghost pre = out@;
                out.push(aid);
                proof {
                    assert(account_occurs(self@, aid)) by {
                        assert(self@[i as int].account_id == aid);
                    }
                    assert forall|d: int|
                        0 <= d < i + 1 implies out@.contains((#[trigger] self@[d]).account_id) by {
                        if d < i {
                            let w = choose|w: int|
                                0 <= w < pre.len() && pre[w] == self@[d].account_id;
                            assert(out@[w] == self@[d].account_id);
                        } else {
                            assert(out@[pre.len() as int] == aid);
                        }
                    }
                }
            } else {
                proof {
                    assert forall|d: int|
                        0 <= d < i + 1 implies out@.contains((#[trigger] self@[d]).account_id) by {
                        if d == i {
                            assert(out@.contains(aid));
                        }
                    }
                }
            }
            i = i + 1;
        }
        out
    }

    /// One (account id, count) pair per distinct account, counts exact, in
    /// order of first appearance.
    #[verifier::spinoff_prover]
    #[verifier::rlimit(100)]
    fn account_counts(&self) -> (r: Vec<(u64, u64)>)
        ensures
            account_groups_ok(self@, r@),
    {
        let ids = self.distinct_accounts();
        let mut out: Vec<(u64, u64)> = Vec::new();
        let mut i: usize = 0;
        while i < ids.len()
            invariant
                i <= ids@.len(),
                out@.len() == i,
                forall|x: int, y: int| 0 <= x < y < ids@.len() ==> ids@[x] != ids@[y],
                forall|x: int| 0 <= x < ids@.len() ==> account_occurs(self@, #[trigger] ids@[x]),
                forall|d: int|
                    0 <= d < self@.len() ==> ids@.contains((#[trigger] self@[d]).account_id),
                forall|x: int|
                    0 <= x < i ==> (#[trigger] out@[x]).0 == ids@[x] && out@[x].1 == count_account(
                        self@,
                        ids@[x],
                    ),
            decreases ids@.len() - i,
        {
            let aid = ids[i];
            let c = self.count_account_exec(aid);
            out.push((aid, c));
            i = i + 1;
        }
        proof {
            assert forall|x: int, y: int|
                0 <= x < y < out@.len() implies (#[trigger] out@[x]).0 != (#[trigger] out@[y]).0 by {
                assert(out@[x].0 == ids@[x] && out@[y].0 == ids@[y]);
            }
            assert forall|x: int|
                0 <= x < out@.len() implies (#[trigger] out@[x]).1 == count_account(
                self@,
                out@[x].0,
            ) && account_occurs(self@, out@[x].0) by {
                assert(out@[x].0 == ids@[x] && out@[x].1 == count_account(self@, ids@[x]));
            }
            assert forall|d: int|
                0 <= d < self@.len() implies has_account_entry(
                out@,
                (#[trigger] self@[d]).account_id,
            ) by {
                assert(ids@.contains(self@[d].account_id));
                let w = choose|w: int| 0 <= w < ids@.len() && ids@[w] == self@[d].account_id;
                assert(out@[w].0 == self@[d].account_id);
            }
        }
        out
    }

    /// The ten accounts with the most documents, most frequent first, each
    /// resolved to its email through the given lookup list (or empty where
    /// the account is unknown there).
    pub fn top_accounts(&self, account_emails: &Vec<(u64, String)>) -> (r: Vec<Group>)
        ensures
            exists|all: Seq<(u64, u64)>|
                {
                    &&& account_groups_ok(self@, all)
                    &&& pair_counts_desc(all)
                    &&& r@.len() == (if all.len() < 10 {
                        all.len() as int
                    } else {
                        10
                    })
                    &&& forall|i: int|
                        0 <= i < r@.len() ==> (#[trigger] r@[i])@.count == all[i].1 && r@[i]@.key
                            == spec_email_of(account_emails@, all[i].0)
                },
    {
        let counts = self.account_counts();
        let ghost base = counts@;
        let sorted = sort_pairs(counts);
        proof {
            lemma_pairs_perm_groups_ok(self@, base, sorted@);
        }
        let k: usize = if sorted.len() < 10 {
            sorted.len()
        } else {
            10
        };
        let mut out: Vec<Group> = Vec::new();
        let mut i: usize = 0;
        while i < k
            invariant
                k <= sorted@.len(),
                i <= k,
                out@.len() == i,
                forall|x: int|
                    0 <= x < i ==> (#[trigger] out@[x])@.count == sorted@[x].1 && out@[x]@.key
                        == spec_email_of(account_emails@, sorted@[x].0),
            decreases k - i,
        {
            let key = email_of(account_emails, sorted[i].0);
            out.push(Group { key, count: sorted[i].1 });
            i = i + 1;
        }
        out
    }

    /// Counts the documents of one sender.
    fn count_from_exec(&self, key: &String) -> (r: u64)
        ensures
            r == count_from(self@, key@),
    {
        let ghost kv = key@;
        let ghost pred = |ev: EnvelopeView| ev.from == kv;
        let mut count: usize = 0;
        let mut i: usize = 0;
        proof {
            assert(self@.subrange(0, 0).filter(pred) =~= Seq::<EnvelopeView>::empty()) by {
                reveal(Seq::filter);
                assert(self@.subrange(0, 0) =~= Seq::<EnvelopeView>::empty());
            }
        }
        while i < self.docs.len()
            invariant
                kv == key@,
                pred == (|ev: EnvelopeView| ev.from == kv),
                i <= self@.len(),
                count <= i,
                count == self@.subrange(0, i as int).filter(pred).len(),
            decreases self@.len() - i,
        {
            proof {
                assert(self@[i as int] == self.docs@[i as int].deep_view());
                assert(self@.subrange(0, i + 1).drop_last() =~= self@.subrange(0, i as int));
                assert(self@.subrange(0, i + 1).last() == self@[i as int]);
                lemma_filter_unfold(self@.subrange(0, i + 1), pred);
            }
            if crate::query::string_eq(&self.docs[i].from, key) {
                count = count + 1;
            }
            i = i + 1;
        }
        proof {
            assert(self@.subrange(0, self@.len() as int) =~= self@);
        }
        count as u64
    }

    /// The distinct senders of the stored documents, in order of first
    /// appearance.
    fn distinct_senders(&self) -> (r: Vec<String>)
        ensures
            forall|x: int, y: int|
                0 <= x < y < r.deep_view().len() ==> r.deep_view()[x] != r.deep_view()[y],
            forall|x: int|
                0 <= x < r.deep_view().len() ==> from_occurs(self@, #[trigger] r.deep_view()[x]),
            forall|d: int|
                0 <= d < self@.len() ==> r.deep_view().contains((#[trigger] self@[d]).from),
    {
        let mut out: Vec<String> = Vec::new();
        let mut i: usize = 0;
        while i < self.docs.len()
            invariant
                i <= self@.len(),
                forall|x: int, y: int|
                    0 <= x < y < out.deep_view().len() ==> out.deep_view()[x] != out.deep_view()[y],
                forall|x: int|
                    0 <= x < out.deep_view().len() ==> from_occurs(
                        self@,
                        #[trigger] out.deep_view()[x],
                    ),
                forall|d: int| 0 <= d < i ==> out.deep_view().contains((#[trigger] self@[d]).from),
            decreases self@.len() - i,
        {
            proof {
                assert(self@[i as int] == self.docs@[i as int].deep_view());
            }
            let mut seen = false;
            let mut k: usize = 0;
            let ghost key_i = self@[i as int].from;
            while k < out.len()
                invariant
                    key_i == self@[i as int].from,
                    i < self@.len(),
                    self@[i as int] == self.docs@[i as int].deep_view(),
                    k <= out.deep_view().len(),
                    seen ==> out.deep_view().contains(key_i),
                    !seen ==> forall|x: int| 0 <= x < k ==> out.deep_view()[x] != key_i,
                decreases out.deep_view().len() - k,
            {
                proof {
                    assert(out@[k as int]@ == out.deep_view()[k as int]);
                }
                if crate::query::string_eq(&out[k], &self.docs[i].from) && !seen {
                    seen = true;
                    proof {
                        assert(out.deep_view()[k as int] == key_i);
                    }
                }
                k = k + 1;
            }
            if !seen {
                let ghost pre = out.deep_view();
                out.push(self.docs[i].from.clone());
                proof {
                    assert(out.deep_view() =~~= pre.push(key_i));
                    assert(from_occurs(self@, key_i)) by {
                        assert(self@[i as int].from == key_i);
                    }
                    assert forall|d: int|
                        0 <= d < i + 1 implies out.deep_view().contains(
                        (#[trigger] self@[d]).from,
                    ) by {
                        if d < i {
                            let w = choose|w: int| 0 <= w < pre.len() && pre[w] == self@[d].from;
                            assert(out.deep_view()[w] == self@[d].from);
                        } else {
                            assert(out.deep_view()[pre.len() as int] == key_i);
                        }
                    }
                }
            } else {
                proof {
                    assert forall|d: int|
                        0 <= d < i + 1 implies out.deep_view().contains(
                        (#[trigger] self@[d]).from,
                    ) by {
                        if d == i {
                            assert(out.deep_view().contains(key_i));
                        }
                    }
                }
            }
            i = i + 1;
        }
        out
    }

    /// One entry per distinct sender, counts exact, in order of first
    /// appearance.
    #[verifier::spinoff_prover]
    #[verifier::rlimit(100)]
    fn sender_counts(&self) -> (r: Vec<Group>)
        ensures
            sender_groups_ok(self@, r.deep_view()),
    {
        let keys = self.distinct_senders();
        let mut out: Vec<Group> = Vec::new();
        let mut i: usize = 0;
        while i < keys.len()
            invariant
                i <= keys@.len(),
                out.deep_view().len() == i,
                forall|x: int, y: int|
                    0 <= x < y < keys.deep_view().len() ==> keys.deep_view()[x]
                        != keys.deep_view()[y],
                forall|x: int|
                    0 <= x < keys.deep_view().len() ==> from_occurs(
                        self@,
                        #[trigger] keys.deep_view()[x],
                    ),
                forall|d: int|
                    0 <= d < self@.len() ==> keys.deep_view().contains((#[trigger] self@[d]).from),
                forall|x: int|
                    0 <= x < i ==> (#[trigger] out.deep_view()[x]).key == keys.deep_view()[x]
                        && out.deep_view()[x].count == count_from(self@, keys.deep_view()[x]),
            decreases keys@.len() - i,
        {
            let ghost pre = out.deep_view();
            let c = self.count_from_exec(&keys[i]);
            proof {
                assert(keys@[i as int]@ == keys.deep_view()[i as int]);
            }
            let g = Group { key: keys[i].clone(), count: c };
            let ghost gv = g@;
            out.push(g);
            proof {
                assert(out.deep_view() =~~= pre.push(gv));
            }
            i = i + 1;
        }
        proof {
            assert forall|x: int, y: int|
                0 <= x < y < out.deep_view().len() implies (#[trigger] out.deep_view()[x]).key
                != (#[trigger] out.deep_view()[y]).key by {
                assert(out.deep_view()[x].key == keys.deep_view()[x]);
                assert(out.deep_view()[y].key == keys.deep_view()[y]);
            }
            assert forall|x: int|
                0 <= x < out.deep_view().len() implies (#[trigger] out.deep_view()[x]).count
                == count_from(self@, out.deep_view()[x].key) && from_occurs(
                self@,
                out.deep_view()[x].key,
            ) by {
                assert(out.deep_view()[x].key == keys.deep_view()[x]);
                assert(out.deep_view()[x].count == count_from(self@, keys.deep_view()[x]));
            }
            assert forall|d: int|
                0 <= d < self@.len() implies has_sender_entry(
                out.deep_view(),
                (#[trigger] self@[d]).from,
            ) by {
                assert(keys.deep_view().contains(self@[d].from));
                let w = choose|w: int|
                    0 <= w < keys.deep_view().len() && keys.deep_view()[w] == self@[d].from;
                assert(out.deep_view()[w].key == self@[d].from);
                assert(has_sender_entry(out.deep_view(), self@[d].from));
            }
        }
        out
    }

    /// The ten most frequent senders, most frequent first.
    pub fn top_senders(&self) -> (r: Vec<Group>)
        ensures
            exists|all: Seq<GroupView>|
                {
                    &&& sender_groups_ok(self@, all)
                    &&& counts_desc(all)
                    &&& r.deep_view() == all.subrange(
                        0,
                        if all.len() < 10 {
                            all.len() as int
                        } else {
                            10
                        },
                    )
                },
    {
        let counts = self.sender_counts();
        let ghost base = counts.deep_view();
        let sorted = sort_groups(counts);
        proof {
            lemma_groups_perm_ok(self@, base, sorted.deep_view());
        }
        let k: usize = if sorted.len() < 10 {
            sorted.len()
        } else {
            10
        };
        let mut out: Vec<Group> = Vec::new();
        proof {
            assert(out.deep_view() =~= sorted.deep_view().subrange(0, 0));
        }
        let mut i: usize = 0;
        while i < k
            invariant
                k <= sorted@.len(),
                i <= k,
                out.deep_view() == sorted.deep_view().subrange(0, i as int),
            decreases k - i,
        {
            let ghost prev = out.deep_view();
            let g = Group { key: sorted[i].key.clone(), count: sorted[i].count };
            proof {
                assert(sorted@[i as int].deep_view() == sorted.deep_view()[i as int]);
                assert(g.deep_view() == sorted.deep_view()[i as int]);
            }
            out.push(g);
            proof {
                assert(out.deep_view() =~~= prev.push(sorted.deep_view()[i as int]));
                assert(prev.push(sorted.deep_view()[i as int]) =~= sorted.deep_view().subrange(
                    0,
                    i + 1,
                ));
            }
            i = i + 1;
        }
        proof {
            assert(out.deep_view() =~= sorted.deep_view().subrange(
                0,
                if sorted.deep_view().len() < 10 {
                    sorted.deep_view().len() as int
                } else {
                    10
                },
            ));
        }
        out
    }
}

/// A permutation of a complete sender aggregation is itself complete.
proof fn lemma_groups_perm_ok(docs: Seq<EnvelopeView>, a: Seq<GroupView>, b: Seq<GroupView>)
    requires
        sender_groups_ok(docs, a),
        a.to_multiset() == b.to_multiset(),
    ensures
        sender_groups_ok(docs, b),
{
    broadcast use vstd::seq_lib::group_to_multiset_ensures;
    broadcast use vstd::multiset::group_multiset_axioms;

    assert forall|i: int|
        0 <= i < b.len() implies (#[trigger] b[i]).count == count_from(docs, b[i].key)
        && from_occurs(docs, b[i].key) by {
        assert(b.contains(b[i]));
        assert(b.to_multiset().count(b[i]) > 0);
        assert(a.contains(b[i]));
        let j = choose|j: int| 0 <= j < a.len() && a[j] == b[i];
        assert(a[j].count == count_from(docs, a[j].key));
    }
    assert forall|d: int|
        0 <= d < docs.len() implies has_sender_entry(b, (#[trigger] docs[d]).from) by {
        assert(has_sender_entry(a, docs[d].from));
        let j = choose|j: int| 0 <= j < a.len() && (#[trigger] a[j]).key == docs[d].from;
        assert(a.contains(a[j]));
        assert(a.to_multiset().count(a[j]) > 0);
        assert(b.to_multiset().count(a[j]) > 0);
        assert(b.contains(a[j]));
        let i = choose|i: int| 0 <= i < b.len() && b[i] == a[j];
        assert(b[i].key == docs[d].from);
        assert(has_sender_entry(b, docs[d].from));
    }
    assert forall|i: int, j: int|
        0 <= i < j < b.len() implies (#[trigger] b[i]).key != (#[trigger] b[j]).key by {
        if b[i].key == b[j].key {
            if b[i] == b[j] {
                let x = b[i];
                assert(a.no_duplicates()) by {
                    assert forall|p: int, q: int|
                        0 <= p < a.len() && 0 <= q < a.len() && p != q implies a[p] != a[q] by {
                        if p < q {
                            assert(a[p].key != a[q].key);
                        } else {
                            assert(a[q].key != a[p].key);
                        }
                    }
                }
                a.lemma_multiset_has_no_duplicates();
                assert(b.remove(j).to_multiset() =~= b.to_multiset().remove(x));
                assert(b.remove(j).contains(x)) by {
                    assert(b.remove(j)[i] == x);
                }
                assert(b.to_multiset().count(x) >= 2) by {
                    assert(b.remove(j).to_multiset().count(x) > 0);
                }
                assert(a.to_multiset().count(x) <= 1);
            } else {
                let x = b[i];
                let y = b[j];
                assert(b.contains(x) && b.contains(y));
                assert(b.to_multiset().count(x) > 0 && b.to_multiset().count(y) > 0);
                assert(a.contains(x) && a.contains(y));
                let p = choose|p: int| 0 <= p < a.len() && a[p] == x;
                let q = choose|q: int| 0 <= q < a.len() && a[q] == y;
                assert(p != q);
                if p < q {
                    assert(a[p].key != a[q].key);
                } else {
                    assert(a[q].key != a[p].key);
                }
            }
        }
    }
}

/// A permutation of a complete account aggregation is itself complete.
proof fn lemma_pairs_perm_groups_ok(docs: Seq<EnvelopeView>, a: Seq<(u64, u64)>, b: Seq<(u64, u64)>)
    requires
        account_groups_ok(docs, a),
        a.to_multiset() == b.to_multiset(),
    ensures
        account_groups_ok(docs, b),
{
    broadcast use vstd::seq_lib::group_to_multiset_ensures;
    broadcast use vstd::multiset::group_multiset_axioms;

    assert forall|i: int|
        0 <= i < b.len() implies (#[trigger] b[i]).1 == count_account(docs, b[i].0)
        && account_occurs(docs, b[i].0) by {
        assert(b.contains(b[i]));
        assert(b.to_multiset().count(b[i]) > 0);
        assert(a.contains(b[i]));
        let j = choose|j: int| 0 <= j < a.len() && a[j] == b[i];
        assert(a[j].1 == count_account(docs, a[j].0));
    }
    assert forall|d: int|
        0 <= d < docs.len() implies has_account_entry(b, (#[trigger] docs[d]).account_id) by {
        assert(has_account_entry(a, docs[d].account_id));
        let j = choose|j: int| 0 <= j < a.len() && (#[trigger] a[j]).0 == docs[d].account_id;
        assert(a.contains(a[j]));
        assert(a.to_multiset().count(a[j]) > 0);
        assert(b.to_multiset().count(a[j]) > 0);
        assert(b.contains(a[j]));
        let i = choose|i: int| 0 <= i < b.len() && b[i] == a[j];
        assert(b[i].0 == docs[d].account_id);
        assert(has_account_entry(b, docs[d].account_id));
    }
    assert forall|i: int, j: int|
        0 <= i < j < b.len() implies (#[trigger] b[i]).0 != (#[trigger] b[j]).0 by {
        if b[i].0 == b[j].0 {
            if b[i] == b[j] {
                let x = b[i];
                assert(a.no_duplicates()) by {
                    assert forall|p: int, q: int|
                        0 <= p < a.len() && 0 <= q < a.len() && p != q implies a[p] != a[q] by {
                        if p < q {
                            assert(a[p].0 != a[q].0);
                        } else {
                            assert(a[q].0 != a[p].0);
                        }
                    }
                }
                a.lemma_multiset_has_no_duplicates();
                assert(b.remove(j).to_multiset() =~= b.to_multiset().remove(x));
                assert(b.remove(j).contains(x)) by {
                    assert(b.remove(j)[i] == x);
                }
                assert(b.to_multiset().count(x) >= 2) by {
                    assert(b.remove(j).to_multiset().count(x) > 0);
                }
                assert(a.to_multiset().count(x) <= 1);
            } else {
                let x = b[i];
                let y = b[j];
                assert(b.contains(x) && b.contains(y));
                assert(b.to_multiset().count(x) > 0 && b.to_multiset().count(y) > 0);
                assert(a.contains(x) && a.contains(y));
                let p = choose|p: int| 0 <= p < a.len() && a[p] == x;
                let q = choose|q: int| 0 <= q < a.len() && a[q] == y;
                assert(p != q);
                assert(a[p].0 != a[q].0);
            }
        }
    }
}

impl EnvelopeIndex {
    /// The sum of all stored sizes, clamped to `u64`.
    #[verifier::rlimit(50)]
    pub fn total_size_bytes(&self) -> (r: u64)
        ensures
            r == clamp_u64(sum_sizes(self@)),
    {
        let mut acc: u128 = 0;
        let mut i: usize = 0;
        proof {
            assert(self@.subrange(0, 0) =~= Seq::<EnvelopeView>::empty());
            lemma_sum_sizes_bound(self@);
        }
        while i < self.docs.len()
            invariant
                i <= self@.len(),
                acc == sum_sizes(self@.subrange(0, i as int)),
                acc <= (i as nat) * (u64::MAX as nat),
            decreases self@.len() - i,
        {
            proof {
                assert(self@[i as int] == self.docs@[i as int].deep_view());
                assert(self@.subrange(0, i + 1).drop_last() =~= self@.subrange(0, i as int));
                assert(self@.subrange(0, i + 1).last() == self@[i as int]);
                assert((i as nat) * (u64::MAX as nat) + (u64::MAX as nat) == ((i + 1) as nat) * (
                u64::MAX as nat)) by (nonlinear_arith);
                assert(acc + (u64::MAX as u128) <= ((i + 1) as nat) * (u64::MAX as nat));
                assert(((i + 1) as nat) * (u64::MAX as nat) <= (0xffffffffffffffffu128 as nat) * (
                u64::MAX as nat)) by (nonlinear_arith)
                    requires
                        i + 1 <= 0xffffffffffffffffu128,
                ;
                assert((0xffffffffffffffffu128 as nat) * (u64::MAX as nat)
                    < 0x100000000000000000000000000000000) by (nonlinear_arith);
            }
            acc = acc + (self.docs[i].size as u128);
            i = i + 1;
        }
        proof {
            assert(self@.subrange(0, self@.len() as int) =~= self@);
        }
        if acc > 0xffffffffffffffff {
            u64::MAX
        } else {
            acc as u64
        }
    }

    /// Counts the documents with (or without) a non-inline attachment.
    pub fn attachment_counts(&self) -> (r: (u64, u64))
        ensures
            r.0 == self@.filter(|ev: EnvelopeView| ev.has_attachment).len(),
            r.1 == self@.filter(|ev: EnvelopeView| !ev.has_attachment).len(),
    {
        let ghost p_with = |ev: EnvelopeView| ev.has_attachment;
        let ghost p_without = |ev: EnvelopeView| !ev.has_attachment;
        let mut n_with: usize = 0;
        let mut n_without: usize = 0;
        let mut i: usize = 0;
        proof {
            assert(self@.subrange(0, 0).filter(p_with) =~= Seq::<EnvelopeView>::empty()) by {
                reveal(Seq::filter);
                assert(self@.subrange(0, 0) =~= Seq::<EnvelopeView>::empty());
            }
            assert(self@.subrange(0, 0).filter(p_without) =~= Seq::<EnvelopeView>::empty()) by {
                reveal(Seq::filter);
                assert(self@.subrange(0, 0) =~= Seq::<EnvelopeView>::empty());
            }
        }
        while i < self.docs.len()
            invariant
                p_with == (|ev: EnvelopeView| ev.has_attachment),
                p_without == (|ev: EnvelopeView| !ev.has_attachment),
                i <= self@.len(),
                n_with <= i,
                n_without <= i,
                n_with == self@.subrange(0, i as int).filter(p_with).len(),
                n_without == self@.subrange(0, i as int).filter(p_without).len(),
            decreases self@.len() - i,
        {
            proof {
                assert(self@[i as int] == self.docs@[i as int].deep_view());
                assert(self@.subrange(0, i + 1).drop_last() =~= self@.subrange(0, i as int));
                assert(self@.subrange(0, i + 1).last() == self@[i as int]);
                lemma_filter_unfold(self@.subrange(0, i + 1), p_with);
                lemma_filter_unfold(self@.subrange(0, i + 1), p_without);
            }
            if self.docs[i].has_attachment {
                n_with = n_with + 1;
            } else {
                n_without = n_without + 1;
            }
            i = i + 1;
        }
        proof {
            assert(self@.subrange(0, self@.len() as int) =~= self@);
        }
        (n_with as u64, n_without as u64)
    }

    /// Counts the documents falling into one histogram bucket.
    fn bucket_count(&self, lo: i64, hi: i64, b: u64, key_div: i64) -> (r: u64)
        requires
            0 <= lo <= hi,
            key_div == lo / (DAY_MS as i64) + b,
            key_div <= i64::MAX,
        ensures
            r == self@.filter(|ev: EnvelopeView| in_bucket(ev, lo, hi, b as int)).len(),
    {
        let ghost pred = |ev: EnvelopeView| in_bucket(ev, lo, hi, b as int);
        let mut count: usize = 0;
        let mut i: usize = 0;
        proof {
            assert(self@.subrange(0, 0).filter(pred) =~= Seq::<EnvelopeView>::empty()) by {
                reveal(Seq::filter);
                assert(self@.subrange(0, 0) =~= Seq::<EnvelopeView>::empty());
            }
        }
        while i < self.docs.len()
            invariant
                pred == (|ev: EnvelopeView| in_bucket(ev, lo, hi, b as int)),
                0 <= lo <= hi,
                key_div == lo / (DAY_MS as i64) + b,
                i <= self@.len(),
                count <= i,
                count == self@.subrange(0, i as int).filter(pred).len(),
            decreases self@.len() - i,
        {
            proof {
                assert(self@[i as int] == self.docs@[i as int].deep_view());
                assert(self@.subrange(0, i + 1).drop_last() =~= self@.subrange(0, i as int));
                assert(self@.subrange(0, i + 1).last() == self@[i as int]);
                lemma_filter_unfold(self@.subrange(0, i + 1), pred);
            }
            let d = self.docs[i].internal_date;
            if d >= lo && d <= hi && d / (DAY_MS as i64) == key_div {
                count = count + 1;
            }
            i = i + 1;
        }
        proof {
            assert(self@.subrange(0, self@.len() as int) =~= self@);
        }
        count as u64
    }

    /// The daily histogram over the window `[now - 30 days, now]`. Bucket
    /// starts are aligned to whole days; every day of the window appears,
    /// empty days with a zero count.
    pub fn recent_activity(&self, now_ms: i64) -> (r: Vec<TimeBucket>)
        requires
            now_ms >= WINDOW_MS,
        ensures
            ({
                let lo = (now_ms - WINDOW_MS) as i64;
                let nb = now_ms as int / DAY_MS as int - lo as int / DAY_MS as int + 1;
                &&& r@.len() == nb
                &&& forall|b: int|
                    0 <= b < nb ==> (#[trigger] r@[b]).timestamp_ms == (lo as int / DAY_MS as int
                        + b) * DAY_MS as int
                &&& forall|b: int|
                    0 <= b < nb ==> (#[trigger] r@[b]).count == self@.filter(
                        |ev: EnvelopeView| in_bucket(ev, lo, now_ms, b),
                    ).len()
            }),
    {
        let lo: i64 = now_ms - (WINDOW_MS as i64);
        let lo_div: i64 = lo / (DAY_MS as i64);
        let hi_div: i64 = now_ms / (DAY_MS as i64);
        proof {
            assert(lo >= 0);
            assert(lo_div <= hi_div && hi_div - lo_div <= 31) by {
                assert(lo as int / DAY_MS as int <= now_ms as int / DAY_MS as int) by (nonlinear_arith)
                    requires
                        0 <= lo <= now_ms,
                ;
                assert(now_ms as int / DAY_MS as int - lo as int / DAY_MS as int <= 31) by (nonlinear_arith)
                    requires
                        0 <= lo,
                        now_ms - lo == WINDOW_MS,
                ;
            }
        }
        let nb: u64 = (hi_div - lo_div) as u64 + 1;
        let mut out: Vec<TimeBucket> = Vec::new();
        let mut b: u64 = 0;
        while b < nb
            invariant
                0 <= lo <= now_ms,
                lo_div == lo as int / DAY_MS as int,
                hi_div == now_ms as int / DAY_MS as int,
                nb == hi_div - lo_div + 1,
                nb <= 32,
                b <= nb,
                out@.len() == b,
                forall|k: int|
                    0 <= k < b ==> (#[trigger] out@[k]).timestamp_ms == (lo_div + k) * DAY_MS as int,
                forall|k: int|
                    0 <= k < b ==> (#[trigger] out@[k]).count == self@.filter(
                        |ev: EnvelopeView| in_bucket(ev, lo, now_ms, k),
                    ).len(),
            decreases nb - b,
        {
            let key_div: i64 = lo_div + (b as i64);
            let count = self.bucket_count(lo, now_ms, b, key_div);
            proof {
                assert((lo_div + b) * (DAY_MS as int) <= hi_div * (DAY_MS as int)
                    && hi_div * (DAY_MS as int) <= now_ms && 0 <= (lo_div + b) * (DAY_MS as int))
                    by (nonlinear_arith)
                    requires
                        0 <= lo_div,
                        lo_div + b <= hi_div,
                        hi_div == now_ms as int / DAY_MS as int,
                        0 <= now_ms,
                ;
            }
            let ts: i64 = key_div * (DAY_MS as i64);
            out.push(TimeBucket { timestamp_ms: ts, count });
            b = b + 1;
        }
        out
    }
}

/// Everything the dashboard promises of its numbers.
pub open spec fn dashboard_ok(
    docs: Seq<EnvelopeView>,
    now_ms: i64,
    emails: Seq<(u64, String)>,
    r: DashboardStats,
) -> bool {
    let lo = (now_ms - WINDOW_MS) as i64;
    let nb = now_ms as int / DAY_MS as int - lo as int / DAY_MS as int + 1;
    &&& r.total_size_bytes == clamp_u64(sum_sizes(docs))
    &&& r.with_attachment_count == docs.filter(|ev: EnvelopeView| ev.has_attachment).len()
    &&& r.without_attachment_count == docs.filter(|ev: EnvelopeView| !ev.has_attachment).len()
    &&& r.recent_activity@.len() == nb
    &&& forall|b: int|
        0 <= b < nb ==> (#[trigger] r.recent_activity@[b]).timestamp_ms == (lo as int
            / DAY_MS as int + b) * DAY_MS as int
    &&& forall|b: int|
        0 <= b < nb ==> (#[trigger] r.recent_activity@[b]).count == docs.filter(
            |ev: EnvelopeView| in_bucket(ev, lo, now_ms, b),
        ).len()
    &&& exists|all: Seq<GroupView>|
        {
            &&& sender_groups_ok(docs, all)
            &&& counts_desc(all)
            &&& r.top_senders.deep_view() == all.subrange(
                0,
                if all.len() < 10 {
                    all.len() as int
                } else {
                    10
                },
            )
        }
    &&& exists|all: Seq<(u64, u64)>|
        {
            &&& account_groups_ok(docs, all)
            &&& pair_counts_desc(all)
            &&& r.top_accounts@.len() == (if all.len() < 10 {
                all.len() as int
            } else {
                10
            })
            &&& forall|i: int|
                0 <= i < r.top_accounts@.len() ==> (#[trigger] r.top_accounts@[i])@.count
                    == all[i].1 && r.top_accounts@[i]@.key == spec_email_of(emails, all[i].0)
        }
}

impl EnvelopeIndex {
    /// The dashboard overview: total size, the 30-day daily histogram, the
    /// top senders, the top accounts (resolved to email through the given
    /// lookup list), and the attachment split.
    pub fn get_dashboard_stats(&self, now_ms: i64, account_emails: &Vec<(u64, String)>) -> (r:
        DashboardStats)
        requires
            now_ms >= WINDOW_MS,
        ensures
            dashboard_ok(self@, now_ms, account_emails@, r),
    {
        let total_size_bytes = self.total_size_bytes();
        let (with_attachment_count, without_attachment_count) = self.attachment_counts();
        let recent_activity = self.recent_activity(now_ms);
        let top_senders = self.top_senders();
        let top_accounts = self.top_accounts(account_emails);
        DashboardStats {
            total_size_bytes,
            recent_activity,
            top_senders,
            top_accounts,
            with_attachment_count,
            without_attachment_count,
        }
    }
}

} // verus!
