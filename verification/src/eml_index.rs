//! The raw-message locator index: for every archived message, either the
//! raw bytes themselves or the place of the message inside a registered
//! MBOX file. Exactly one of the two forms is stored per message.

use crate::error::BichonError;
use crate::error::ErrorCode;
use vstd::prelude::*;
use vstd::string::StringExecFns;

verus! {

/// Where the raw bytes of a message live.
#[derive(Clone, Debug, PartialEq, Eq)]
pub enum EmlSource {
    /// The bytes are stored inline.
    Inline(Vec<u8>),
    /// The bytes are a slice of a registered MBOX file.
    MboxSlice { mbox_id: u64, offset: u64, len: u64 },
}

/// One locator document.
#[derive(Clone, Debug, PartialEq, Eq)]
pub struct EmlDoc {
    pub id: u64,
    pub account_id: u64,
    pub mailbox_id: u64,
    pub source: EmlSource,
}

/// The mathematical value of a locator source.
pub ghost enum EmlSourceView {
    Inline { bytes: Seq<u8> },
    MboxSlice { mbox_id: u64, offset: u64, len: u64 },
}

/// The mathematical value of a locator document.
pub ghost struct EmlDocView {
    pub id: u64,
    pub account_id: u64,
    pub mailbox_id: u64,
    pub source: EmlSourceView,
}

impl View for EmlSource {
    type V = EmlSourceView;

    open spec fn view(&self) -> EmlSourceView {
        match self {
            EmlSource::Inline(b) => EmlSourceView::Inline { bytes: b@ },
            EmlSource::MboxSlice { mbox_id, offset, len } => EmlSourceView::MboxSlice {
                mbox_id: *mbox_id,
                offset: *offset,
                len: *len,
            },
        }
    }
}

impl View for EmlDoc {
    type V = EmlDocView;

    open spec fn view(&self) -> EmlDocView {
        EmlDocView {
            id: self.id,
            account_id: self.account_id,
            mailbox_id: self.mailbox_id,
            source: self.source@,
        }
    }
}

impl DeepView for EmlDoc {
    type V = EmlDocView;

    open spec fn deep_view(&self) -> EmlDocView {
        self.view()
    }
}

impl EmlDoc {
    /// A copy carrying the same mathematical value.
    pub fn duplicate(&self) -> (r: EmlDoc)
        ensures
            r@ == self@,
    {
        let source = match &self.source {
            EmlSource::Inline(b) => EmlSource::Inline(copy_bytes(b)),
            EmlSource::MboxSlice { mbox_id, offset, len } => EmlSource::MboxSlice {
                mbox_id: *mbox_id,
                offset: *offset,
                len: *len,
            },
        };
        EmlDoc { id: self.id, account_id: self.account_id, mailbox_id: self.mailbox_id, source }
    }
}

/// Copies a byte vector.
pub fn copy_bytes(v: &Vec<u8>) -> (r: Vec<u8>)
    ensures
        r@ == v@,
{
    let mut out: Vec<u8> = Vec::new();
    let mut i: usize = 0;
    while i < v.len()
        invariant
            i <= v@.len(),
            out@ == v@.subrange(0, i as int),
        decreases v@.len() - i,
    {
        out.push(v[i]);
        proof {
            assert(v@.subrange(0, i + 1) =~= v@.subrange(0, i as int).push(v@[i as int]));
        }
        i = i + 1;
    }
    proof {
        assert(v@.subrange(0, v@.len() as int) =~= v@);
    }
    out
}

/// No two locator documents share an id.
pub open spec fn eml_unique_ids(s: Seq<EmlDocView>) -> bool {
    forall|i: int, j: int| 0 <= i < j < s.len() ==> (#[trigger] s[i]).id != (#[trigger] s[j]).id
}

/// Whether some locator document has id `id`.
pub open spec fn eml_has_id(s: Seq<EmlDocView>, id: u64) -> bool {
    exists|i: int| 0 <= i < s.len() && (#[trigger] s[i]).id == id
}

/// Whether some locator document equals `d`.
pub open spec fn eml_has_doc(s: Seq<EmlDocView>, d: EmlDocView) -> bool {
    exists|i: int| 0 <= i < s.len() && (#[trigger] s[i]) == d
}

/// What one `upsert` transition keeps: the written locator is stored and
/// every id that was present is still present.
pub proof fn lemma_eml_upsert_preserves(pre: Seq<EmlDocView>, post: Seq<EmlDocView>, d: EmlDocView)
    requires
        (if eml_has_id(pre, d.id) {
            exists|i: int| 0 <= i < pre.len() && pre[i].id == d.id && post =~= pre.update(i, d)
        } else {
            post =~= pre.push(d)
        }),
    ensures
        eml_has_doc(post, d),
        eml_has_id(post, d.id),
        forall|x: u64| eml_has_id(pre, x) ==> eml_has_id(post, x),
{
    if eml_has_id(pre, d.id) {
        let i = choose|i: int| 0 <= i < pre.len() && pre[i].id == d.id && post =~= pre.update(i, d);
        assert(post[i] == d);
        assert forall|x: u64| eml_has_id(pre, x) implies eml_has_id(post, x) by {
            let j = choose|j: int| 0 <= j < pre.len() && (#[trigger] pre[j]).id == x;
            if j == i {
                assert(post[i].id == d.id && d.id == x);
            } else {
                assert(post[j] == pre[j]);
            }
        }
    } else {
        assert(post[pre.len() as int] == d);
        assert forall|x: u64| eml_has_id(pre, x) implies eml_has_id(post, x) by {
            let j = choose|j: int| 0 <= j < pre.len() && (#[trigger] pre[j]).id == x;
            assert(post[j] == pre[j]);
        }
    }
}

/// The locator index model.
pub struct EmlIndex {
    pub docs: Vec<EmlDoc>,
}

impl View for EmlIndex {
    type V = Seq<EmlDocView>;

    open spec fn view(&self) -> Seq<EmlDocView> {
        self.docs.deep_view()
    }
}

impl EmlIndex {
    pub open spec fn wf(&self) -> bool {
        eml_unique_ids(self@)
    }

    pub fn new() -> (r: EmlIndex)
        ensures
            r@ =~= Seq::<EmlDocView>::empty(),
            r.wf(),
    {
        let r = EmlIndex { docs: Vec::new() };
        proof {
            assert(r@ =~= Seq::<EmlDocView>::empty());
        }
        r
    }

    /// Writes a locator under its id; an existing locator with that id is
    /// replaced, and nothing else changes.
    pub fn upsert(&mut self, doc: EmlDoc)
        requires
            old(self).wf(),
        ensures
            final(self).wf(),
            eml_has_id(final(self)@, doc@.id),
            (if eml_has_id(old(self)@, doc@.id) {
                exists|i: int|
                    0 <= i < old(self)@.len() && old(self)@[i].id == doc@.id && final(self)@
                        =~= old(self)@.update(i, doc@)
            } else {
                final(self)@ =~= old(self)@.push(doc@)
            }),
    {
        let ghost d = doc@;
        let mut i: usize = 0;
        let n = self.docs.len();
        while i < n
            invariant
                n == self@.len(),
                i <= n,
                forall|k: int| 0 <= k < i ==> (#[trigger] self@[k]).id != d.id,
                d == doc@,
                self@ == old(self)@,
                self.wf(),
            decreases n - i,
        {
            proof {
                assert(self@[i as int] == self.docs@[i as int].deep_view());
            }
            if self.docs[i].id == doc.id {
                let ghost pre = self@;
                self.docs.set(i, doc);
                proof {
                    assert(self@ =~= pre.update(i as int, d));
                    assert forall|x: int, y: int|
                        0 <= x < y < self@.len() implies (#[trigger] self@[x]).id
                        != (#[trigger] self@[y]).id by {
                        assert(pre[x].id == self@[x].id || x == i);
                        assert(pre[y].id == self@[y].id || y == i);
                    }
                    assert(self@[i as int].id == d.id);
                }
                return ;
            }
            i = i + 1;
        }
        let ghost pre = self@;
        self.docs.push(doc);
        proof {
            assert(self@ =~= pre.push(d));
            assert(self@[pre.len() as int].id == d.id);
            assert forall|x: int, y: int|
                0 <= x < y < self@.len() implies (#[trigger] self@[x]).id
                != (#[trigger] self@[y]).id by {
                if y == pre.len() {
                    assert(self@[x] == pre[x]);
                    assert(!eml_has_id(pre, d.id));
                }
            }
        }
    }

    /// The stored locator with this account and id, if any.
    pub fn get(&self, account_id: u64, id: u64) -> (r: Option<EmlDoc>)
        ensures
            match r {
                Some(doc) => exists|i: int|
                    0 <= i < self@.len() && #[trigger] self@[i] == doc@ && doc@.id == id
                        && doc@.account_id == account_id,
                None => forall|i: int|
                    0 <= i < self@.len() ==> !((#[trigger] self@[i]).id == id && self@[i].account_id
                        == account_id),
            },
    {
        let mut i: usize = 0;
        while i < self.docs.len()
            invariant
                i <= self@.len(),
                forall|k: int|
                    0 <= k < i ==> !((#[trigger] self@[k]).id == id && self@[k].account_id
                        == account_id),
            decreases self@.len() - i,
        {
            proof {
                assert(self@[i as int] == self.docs@[i as int].deep_view());
            }
            if self.docs[i].id == id && self.docs[i].account_id == account_id {
                return Some(self.docs[i].duplicate());
            }
            i = i + 1;
        }
        None
    }

    /// Deletes every locator of the account, and nothing else.
    pub fn delete_account_envelopes(&mut self, account_id: u64)
        requires
            old(self).wf(),
        ensures
            final(self).wf(),
            final(self)@ =~= old(self)@.filter(|dv: EmlDocView| dv.account_id != account_id),
    {
        let ghost pred = |dv: EmlDocView| dv.account_id != account_id;
        let ghost pre = self@;
        let mut out: Vec<EmlDoc> = Vec::new();
        proof {
            assert(out.deep_view() =~= pre.subrange(0, 0).filter(pred)) by {
                reveal(Seq::filter);
                assert(pre.subrange(0, 0) =~= Seq::<EmlDocView>::empty());
            }
        }
        let mut i: usize = 0;
        while i < self.docs.len()
            invariant
                pred == (|dv: EmlDocView| dv.account_id != account_id),
                i <= self@.len(),
                self@ == pre,
                out.deep_view() == pre.subrange(0, i as int).filter(pred),
            decreases self@.len() - i,
        {
            proof {
                assert(self@[i as int] == self.docs@[i as int].deep_view());
                assert(pre.subrange(0, i + 1).drop_last() =~= pre.subrange(0, i as int));
                assert(pre.subrange(0, i + 1).last() == pre[i as int]);
                lemma_eml_filter_unfold(pre.subrange(0, i + 1), pred);
            }
            let ghost prev = out.deep_view();
            if self.docs[i].account_id != account_id {
                let d = self.docs[i].duplicate();
                out.push(d);
                proof {
                    assert(out.deep_view() =~~= prev.push(pre[i as int]));
                }
            }
            i = i + 1;
        }
        proof {
            assert(pre.subrange(0, pre.len() as int) =~= pre);
        }
        self.docs = out;
        proof {
            lemma_eml_filter_unique(pre, pred);
        }
    }

    /// Deletes every locator of the account in one of the given mailboxes.
    pub fn delete_mailbox_envelopes(&mut self, account_id: u64, mailbox_ids: &Vec<u64>)
        requires
            old(self).wf(),
        ensures
            final(self).wf(),
            final(self)@ =~= old(self)@.filter(
                |dv: EmlDocView|
                    !(dv.account_id == account_id && mailbox_ids@.contains(dv.mailbox_id)),
            ),
    {
        let ghost pred = |dv: EmlDocView|
            !(dv.account_id == account_id && mailbox_ids@.contains(dv.mailbox_id));
        let ghost pre = self@;
        let mut out: Vec<EmlDoc> = Vec::new();
        proof {
            assert(out.deep_view() =~= pre.subrange(0, 0).filter(pred)) by {
                reveal(Seq::filter);
                assert(pre.subrange(0, 0) =~= Seq::<EmlDocView>::empty());
            }
        }
        let mut i: usize = 0;
        while i < self.docs.len()
            invariant
                pred == (|dv: EmlDocView|
                    !(dv.account_id == account_id && mailbox_ids@.contains(dv.mailbox_id))),
                i <= self@.len(),
                self@ == pre,
                out.deep_view() == pre.subrange(0, i as int).filter(pred),
            decreases self@.len() - i,
        {
            proof {
                assert(self@[i as int] == self.docs@[i as int].deep_view());
                assert(pre.subrange(0, i + 1).drop_last() =~= pre.subrange(0, i as int));
                assert(pre.subrange(0, i + 1).last() == pre[i as int]);
                lemma_eml_filter_unfold(pre.subrange(0, i + 1), pred);
            }
            let ghost prev = out.deep_view();
            let hit = self.docs[i].account_id == account_id && crate::index::contains_u64(
                mailbox_ids,
                self.docs[i].mailbox_id,
            );
            if !hit {
                let d = self.docs[i].duplicate();
                out.push(d);
                proof {
                    assert(out.deep_view() =~~= prev.push(pre[i as int]));
                }
            }
            i = i + 1;
        }
        proof {
            assert(pre.subrange(0, pre.len() as int) =~= pre);
        }
        self.docs = out;
        proof {
            lemma_eml_filter_unique(pre, pred);
        }
    }

    /// Deletes the given ids of each account, and nothing else.
    pub fn delete_email_multi_account(&mut self, deletes: &Vec<(u64, Vec<u64>)>)
        requires
            old(self).wf(),
        ensures
            final(self).wf(),
            final(self)@ =~= old(self)@.filter(
                |dv: EmlDocView| !eml_multi_selected(dv, deletes@),
            ),
    {
        let ghost pred = |dv: EmlDocView| !eml_multi_selected(dv, deletes@);
        let ghost pre = self@;
        let mut out: Vec<EmlDoc> = Vec::new();
        proof {
            assert(out.deep_view() =~= pre.subrange(0, 0).filter(pred)) by {
                reveal(Seq::filter);
                assert(pre.subrange(0, 0) =~= Seq::<EmlDocView>::empty());
            }
        }
        let mut i: usize = 0;
        while i < self.docs.len()
            invariant
                pred == (|dv: EmlDocView| !eml_multi_selected(dv, deletes@)),
                i <= self@.len(),
                self@ == pre,
                out.deep_view() == pre.subrange(0, i as int).filter(pred),
            decreases self@.len() - i,
        {
            proof {
                assert(self@[i as int] == self.docs@[i as int].deep_view());
                assert(pre.subrange(0, i + 1).drop_last() =~= pre.subrange(0, i as int));
                assert(pre.subrange(0, i + 1).last() == pre[i as int]);
                lemma_eml_filter_unfold(pre.subrange(0, i + 1), pred);
            }
            let ghost prev = out.deep_view();
            let sel = eml_multi_selected_exec(&self.docs[i], deletes);
            if !sel {
                let d = self.docs[i].duplicate();
                out.push(d);
                proof {
                    assert(out.deep_view() =~~= prev.push(pre[i as int]));
                }
            }
            i = i + 1;
        }
        proof {
            assert(pre.subrange(0, pre.len() as int) =~= pre);
        }
        self.docs = out;
        proof {
            lemma_eml_filter_unique(pre, pred);
        }
    }
}

/// Whether a multi-account request selects this locator.
pub open spec fn eml_multi_selected(dv: EmlDocView, ds: Seq<(u64, Vec<u64>)>) -> bool {
    exists|p: int|
        0 <= p < ds.len() && (#[trigger] ds[p]).0 == dv.account_id && ds[p].1@.contains(dv.id)
}

fn eml_multi_selected_exec(d: &EmlDoc, ds: &Vec<(u64, Vec<u64>)>) -> (r: bool)
    ensures
        r == eml_multi_selected(d@, ds@),
{
    let mut p: usize = 0;
    while p < ds.len()
        invariant
            p <= ds@.len(),
            forall|k: int|
                0 <= k < p ==> !((#[trigger] ds@[k]).0 == d@.account_id && ds@[k].1@.contains(
                    d@.id,
                )),
        decreases ds@.len() - p,
    {
        if ds[p].0 == d.account_id {
            if crate::index::contains_u64(&ds[p].1, d.id) {
                return true;
            }
        }
        p = p + 1;
    }
    false
}

/// Unfolds one step of `Seq::filter` from the back.
pub proof fn lemma_eml_filter_unfold(s: Seq<EmlDocView>, pred: spec_fn(EmlDocView) -> bool)
    requires
        s.len() > 0,
    ensures
        s.filter(pred) == if pred(s.last()) {
            s.drop_last().filter(pred).push(s.last())
        } else {
            s.drop_last().filter(pred)
        },
{
    reveal(Seq::filter);
}

/// Filtering keeps locator ids unique.
pub proof fn lemma_eml_filter_unique(s: Seq<EmlDocView>, pred: spec_fn(EmlDocView) -> bool)
    requires
        eml_unique_ids(s),
    ensures
        eml_unique_ids(s.filter(pred)),
    decreases s.len(),
{
    reveal(Seq::filter);
    if s.len() > 0 {
        lemma_eml_filter_unique(s.drop_last(), pred);
        let f = s.filter(pred);
        let fd = s.drop_last().filter(pred);
        if pred(s.last()) {
            assert forall|x: int, y: int|
                0 <= x < y < f.len() implies (#[trigger] f[x]).id != (#[trigger] f[y]).id by {
                if y < fd.len() {
                } else {
                    assert(f[y] == s.last());
                    lemma_eml_filter_element_of(s.drop_last(), pred, x);
                    let w = choose|w: int|
                        0 <= w < s.drop_last().len() && s.drop_last()[w] == fd[x];
                    assert(s[w] == fd[x]);
                    assert(s[s.len() - 1] == s.last());
                    assert(s[w].id != s.last().id);
                    assert(f[x] == fd[x]);
                }
            }
        }
    }
}

/// Every element of a filtered locator sequence comes from the original.
pub proof fn lemma_eml_filter_element_of(
    s: Seq<EmlDocView>,
    pred: spec_fn(EmlDocView) -> bool,
    i: int,
)
    requires
        0 <= i < s.filter(pred).len(),
    ensures
        exists|w: int| 0 <= w < s.len() && s[w] == s.filter(pred)[i],
        pred(s.filter(pred)[i]),
    decreases s.len(),
{
    reveal(Seq::filter);
    if s.len() > 0 {
        let fd = s.drop_last().filter(pred);
        if i < fd.len() {
            lemma_eml_filter_element_of(s.drop_last(), pred, i);
            let w = choose|w: int| 0 <= w < s.drop_last().len() && s.drop_last()[w] == fd[i];
            assert(s[w] == s.filter(pred)[i]);
        } else {
            assert(s[s.len() - 1] == s.filter(pred)[i]);
        }
    }
}

/// Cuts the slice `[offset, offset + len)` out of an MBOX file image, as
/// the read side resolves an MBOX locator. Fails exactly when the slice
/// lies outside the file.
pub fn resolve_slice(file: &[u8], offset: u64, len: u64) -> (r: Result<Vec<u8>, BichonError>)
    ensures
        (offset + len <= file@.len()) <==> r is Ok,
        r matches Ok(b) ==> b@ == file@.subrange(offset as int, offset + len),
        r matches Err(e) ==> e.code == ErrorCode::InternalError,
{
    let flen = file.len();
    if offset > flen as u64 || len > (flen as u64) - offset {
        return Result::Err(
            BichonError::new(
                ErrorCode::InternalError,
                String::from_str("stored slice lies outside the registered file"),
            ),
        );
    }
    let off: usize = offset as usize;
    let l: usize = len as usize;
    let mut out: Vec<u8> = Vec::new();
    proof {
        assert(out@ =~= file@.subrange(off as int, off as int));
    }
    let mut i: usize = 0;
    while i < l
        invariant
            off + l <= file@.len(),
            file@.len() <= usize::MAX,
            i <= l,
            out@ == file@.subrange(off as int, off + i),
        decreases l - i,
    {
        out.push(file[off + i]);
        proof {
            assert(file@.subrange(off as int, off + i + 1) =~= file@.subrange(
                off as int,
                off + i,
            ).push(file@[off + i]));
        }
        i = i + 1;
    }
    Result::Ok(out)
}

} // verus!
