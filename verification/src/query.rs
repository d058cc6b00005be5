//! The search filter and its matching semantics.
//!
//! A filter is a conjunction of the clauses that are present. Free text is
//! tokenized on whitespace; every token must occur, case-folded, in the
//! subject, the body text, or an attachment name. Tag clauses form a
//! disjunction over the given facet paths; a facet path matches a document
//! tag that equals it or lies below it in the hierarchy. String fields are
//! compared over their UTF-8 bytes.

use crate::envelope::Envelope;
use crate::envelope::EnvelopeView;
use crate::error::BichonError;
use crate::error::ErrorCode;
use crate::text::is_sub;
use crate::text::lower_bytes;
use crate::text::lower_vec;
use crate::text::spec_tokens;
use crate::text::tokens;
use vstd::prelude::*;
use vstd::string::StringExecFns;
use vstd::string::StringSliceAdditionalSpecFns;
use vstd::utf8::encode_utf8;

verus! {

/// A structured search request: any subset of fields may be present.
#[derive(Clone, Debug, PartialEq, Eq)]
pub struct SearchFilter {
    pub text: Option<String>,
    pub from: Option<String>,
    pub to: Option<String>,
    pub cc: Option<String>,
    pub bcc: Option<String>,
    pub since: Option<i64>,
    pub before: Option<i64>,
    pub account_id: Option<u64>,
    pub mailbox_id: Option<u64>,
    pub thread_id: Option<u64>,
    pub min_size: Option<u64>,
    pub max_size: Option<u64>,
    pub message_id: Option<String>,
    pub has_attachment: Option<bool>,
    pub attachment_name: Option<String>,
    pub tags: Option<Vec<String>>,
}

impl SearchFilter {
    /// The filter with no clauses: matches every document.
    pub fn match_all() -> (r: SearchFilter)
        ensures
            r.text is None,
            r.from is None,
            r.to is None,
            r.cc is None,
            r.bcc is None,
            r.since is None,
            r.before is None,
            r.account_id is None,
            r.mailbox_id is None,
            r.thread_id is None,
            r.min_size is None,
            r.max_size is None,
            r.message_id is None,
            r.has_attachment is None,
            r.attachment_name is None,
            r.tags is None,
    {
        SearchFilter {
            text: None,
            from: None,
            to: None,
            cc: None,
            bcc: None,
            since: None,
            before: None,
            account_id: None,
            mailbox_id: None,
            thread_id: None,
            min_size: None,
            max_size: None,
            message_id: None,
            has_attachment: None,
            attachment_name: None,
            tags: None,
        }
    }
}

/// The UTF-8 bytes of a stored string.
pub open spec fn str_bytes(s: Seq<char>) -> Seq<u8> {
    encode_utf8(s)
}

/// A well-formed facet path: starts with `/`, does not end with `/`, and has
/// no empty segment.
pub open spec fn facet_wf(s: Seq<u8>) -> bool {
    &&& s.len() >= 2
    &&& s[0] == 47u8
    &&& s[s.len() - 1] != 47u8
    &&& forall|i: int| 0 <= i < s.len() - 1 ==> !(s[i] == 47u8 && #[trigger] s[i + 1] == 47u8)
}

/// Whether a document tag `t` is matched by the facet query `q`: equal, or
/// `q` is an ancestor of `t`.
pub open spec fn facet_matches(t: Seq<u8>, q: Seq<u8>) -> bool {
    ||| t == q
    ||| (q.len() < t.len() && t.subrange(0, q.len() as int) == q && t[q.len() as int] == 47u8)
}

pub fn facet_is_wf(s: &str) -> (r: bool)
    ensures
        r == facet_wf(s.spec_bytes()),
{
    let b = s.as_bytes();
    if b.len() < 2 {
        return false;
    }
    if b[0] != 47 {
        return false;
    }
    if b[b.len() - 1] == 47 {
        return false;
    }
    let mut i: usize = 0;
    while i < b.len() - 1
        invariant
            b@ == s.spec_bytes(),
            b@.len() >= 2,
            i <= b@.len() - 1,
            forall|k: int| 0 <= k < i ==> !(b@[k] == 47u8 && #[trigger] b@[k + 1] == 47u8),
        decreases b@.len() - i,
    {
        if b[i] == 47 && b[i + 1] == 47 {
            return false;
        }
        i = i + 1;
    }
    true
}

pub fn facet_match(t: &str, q: &str) -> (r: bool)
    ensures
        r == facet_matches(t.spec_bytes(), q.spec_bytes()),
{
    let tb = t.as_bytes();
    let qb = q.as_bytes();
    if tb.len() == qb.len() {
        let eq = crate::text::starts_with(tb, qb);
        proof {
            assert(tb@.subrange(0, qb@.len() as int) =~= tb@);
            assert(!(qb@.len() < tb@.len()));
        }
        eq
    } else if qb.len() < tb.len() {
        if !crate::text::starts_with(tb, qb) {
            return false;
        }
        tb[qb.len()] == 47
    } else {
        false
    }
}

/// One free-text token hits a document if it occurs, case-folded, in the
/// subject, the body text, or an attachment filename.
pub open spec fn token_hits(e: EnvelopeView, tok: Seq<u8>) -> bool {
    ||| is_sub(lower_bytes(str_bytes(e.subject)), tok)
    ||| is_sub(lower_bytes(str_bytes(e.text)), tok)
    ||| exists|a: int|
        0 <= a < e.attachments.len() && is_sub(
            lower_bytes(str_bytes(#[trigger] e.attachments[a])),
            tok,
        )
}

/// A free-text query hits a document if every token of it hits.
pub open spec fn text_matches(e: EnvelopeView, q: Seq<u8>) -> bool {
    forall|k: int|
        0 <= k < spec_tokens(lower_bytes(q)).len() ==> token_hits(
            e,
            #[trigger] spec_tokens(lower_bytes(q))[k],
        )
}

/// Some document tag is matched by some requested facet path.
pub open spec fn tags_match(e: EnvelopeView, ts: Seq<Seq<char>>) -> bool {
    exists|i: int, j: int|
        0 <= i < ts.len() && 0 <= j < e.tags.len() && facet_matches(
            str_bytes(#[trigger] e.tags[j]),
            str_bytes(#[trigger] ts[i]),
        )
}

/// The full matching semantics of a filter against one envelope.
pub open spec fn env_matches(e: EnvelopeView, f: SearchFilter) -> bool {
    &&& (f.text matches Some(q) ==> text_matches(e, str_bytes(q@)))
    &&& (f.tags matches Some(ts) ==> (ts@.len() > 0 ==> tags_match(e, ts.deep_view())))
    &&& (f.from matches Some(v) ==> e.from == v@)
    &&& (f.to matches Some(v) ==> e.to == v@)
    &&& (f.cc matches Some(v) ==> e.cc == v@)
    &&& (f.bcc matches Some(v) ==> e.bcc == v@)
    &&& (f.has_attachment matches Some(h) ==> (h ==> e.has_attachment))
    &&& (f.attachment_name matches Some(n) ==> exists|a: int|
        0 <= a < e.attachments.len() && is_sub(
            lower_bytes(str_bytes(#[trigger] e.attachments[a])),
            lower_bytes(str_bytes(n@)),
        ))
    &&& (f.since matches Some(s) ==> e.internal_date >= s)
    &&& (f.before matches Some(b) ==> e.internal_date <= b)
    &&& (f.min_size matches Some(s) ==> e.size >= s)
    &&& (f.max_size matches Some(s) ==> e.size <= s)
    &&& (f.account_id matches Some(a) ==> e.account_id == a)
    &&& (f.mailbox_id matches Some(m) ==> e.mailbox_id == m)
    &&& (f.thread_id matches Some(t) ==> e.thread_id == t)
    &&& (f.message_id matches Some(m) ==> e.message_id == m@)
}

/// Account restriction: with `Some(accounts)` only those accounts match.
pub open spec fn allowed_ok(allowed: Option<Seq<u64>>, e: EnvelopeView) -> bool {
    match allowed {
        None => true,
        Some(v) => v.contains(e.account_id),
    }
}

fn token_hit_exec(e: &Envelope, tok: &[u8]) -> (r: bool)
    ensures
        r == token_hits(e@, tok@),
{
    if crate::text::contains_bytes(lower_vec(e.subject.as_str().as_bytes()).as_slice(), tok) {
        return true;
    }
    if crate::text::contains_bytes(lower_vec(e.text.as_str().as_bytes()).as_slice(), tok) {
        return true;
    }
    let mut a: usize = 0;
    while a < e.attachments.len()
        invariant
            a <= e.attachments@.len(),
            forall|k: int|
                0 <= k < a ==> !is_sub(
                    lower_bytes(str_bytes(#[trigger] e@.attachments[k])),
                    tok@,
                ),
        decreases e.attachments@.len() - a,
    {
        if crate::text::contains_bytes(
            lower_vec(e.attachments[a].as_str().as_bytes()).as_slice(),
            tok,
        ) {
            proof {
                assert(e@.attachments[a as int] == e.attachments@[a as int]@);
                assert(is_sub(lower_bytes(str_bytes(e@.attachments[a as int])), tok@));
            }
            return true;
        }
        proof {
            assert(e@.attachments[a as int] == e.attachments@[a as int]@);
        }
        a = a + 1;
    }
    false
}

/// Whether `e` satisfies every clause of `f`.
pub fn matches_filter(e: &Envelope, f: &SearchFilter) -> (r: bool)
    ensures
        r == env_matches(e@, *f),
{
    if let Some(q) = &f.text {
        let lowered = lower_vec(q.as_str().as_bytes());
        let toks = tokens(lowered.as_slice());
        let mut k: usize = 0;
        while k < toks.len()
            invariant
                toks.deep_view() == spec_tokens(lower_bytes(str_bytes(q@))),
                f.text matches Some(qq) && qq == q,
                k <= toks@.len(),
                forall|j: int| 0 <= j < k ==> token_hits(e@, #[trigger] toks.deep_view()[j]),
            decreases toks@.len() - k,
        {
            proof {
                assert(toks@[k as int]@ == toks.deep_view()[k as int]);
            }
            if !token_hit_exec(e, toks[k].as_slice()) {
                return false;
            }
            k = k + 1;
        }
    }
    if let Some(ts) = &f.tags {
        if ts.len() > 0 {
            let mut found = false;
            let mut i: usize = 0;
            while i < ts.len() && !found
                invariant
                    f.tags matches Some(tv) && tv == ts,
                    i <= ts@.len(),
                    found ==> tags_match(e@, ts.deep_view()),
                    !found ==> forall|x: int, y: int|
                        0 <= x < i && 0 <= y < e.tags@.len() ==> !facet_matches(
                            str_bytes(#[trigger] e@.tags[y]),
                            str_bytes(#[trigger] ts.deep_view()[x]),
                        ),
                decreases ts@.len() - i, (if found { 0int } else { 1int }),
            {
                let mut j: usize = 0;
                while j < e.tags.len() && !found
                    invariant
                        f.tags matches Some(tv) && tv == ts,
                        i < ts@.len(),
                        j <= e.tags@.len(),
                        found ==> tags_match(e@, ts.deep_view()),
                        !found ==> forall|y: int|
                            0 <= y < j ==> !facet_matches(
                                str_bytes(#[trigger] e@.tags[y]),
                                str_bytes(ts.deep_view()[i as int]),
                            ),
                    decreases e.tags@.len() - j,
                {
                    let hit = facet_match(e.tags[j].as_str(), ts[i].as_str());
                    proof {
                        assert(ts@[i as int]@ == ts.deep_view()[i as int]);
                    }
                    if hit {
                        found = true;
                        proof {
                            assert(facet_matches(
                                str_bytes(e@.tags[j as int]),
                                str_bytes(ts.deep_view()[i as int]),
                            ));
                            assert(tags_match(e@, ts.deep_view()));
                        }
                    }
                    j = j + 1;
                }
                if !found {
                    i = i + 1;
                }
            }
            if !found {
                return false;
            }
        }
    }
    if let Some(v) = &f.from {
        if !string_eq(&e.from, v) {
            return false;
        }
    }
    if let Some(v) = &f.to {
        if !string_eq(&e.to, v) {
            return false;
        }
    }
    if let Some(v) = &f.cc {
        if !string_eq(&e.cc, v) {
            return false;
        }
    }
    if let Some(v) = &f.bcc {
        if !string_eq(&e.bcc, v) {
            return false;
        }
    }
    if let Some(h) = &f.has_attachment {
        if *h && !e.has_attachment {
            return false;
        }
    }
    if let Some(n) = &f.attachment_name {
        let ln = lower_vec(n.as_str().as_bytes());
        let mut a: usize = 0;
        let mut hit = false;
        while a < e.attachments.len() && !hit
            invariant
                f.attachment_name matches Some(nn) && nn == n,
                ln@ == lower_bytes(str_bytes(n@)),
                a <= e.attachments@.len(),
                hit ==> exists|x: int|
                    0 <= x < e@.attachments.len() && is_sub(
                        lower_bytes(str_bytes(#[trigger] e@.attachments[x])),
                        lower_bytes(str_bytes(n@)),
                    ),
                !hit ==> forall|x: int|
                    0 <= x < a ==> !is_sub(
                        lower_bytes(str_bytes(#[trigger] e@.attachments[x])),
                        lower_bytes(str_bytes(n@)),
                    ),
            decreases e.attachments@.len() - a,
        {
            if crate::text::contains_bytes(
                lower_vec(e.attachments[a].as_str().as_bytes()).as_slice(),
                ln.as_slice(),
            ) {
                hit = true;
            }
            proof {
                assert(e@.attachments[a as int] == e.attachments@[a as int]@);
            }
            a = a + 1;
        }
        if !hit {
            return false;
        }
    }
    if let Some(s) = &f.since {
        if e.internal_date < *s {
            return false;
        }
    }
    if let Some(b) = &f.before {
        if e.internal_date > *b {
            return false;
        }
    }
    if let Some(s) = &f.min_size {
        if e.size < *s {
            return false;
        }
    }
    if let Some(s) = &f.max_size {
        if e.size > *s {
            return false;
        }
    }
    if let Some(a) = &f.account_id {
        if e.account_id != *a {
            return false;
        }
    }
    if let Some(m) = &f.mailbox_id {
        if e.mailbox_id != *m {
            return false;
        }
    }
    if let Some(t) = &f.thread_id {
        if e.thread_id != *t {
            return false;
        }
    }
    if let Some(m) = &f.message_id {
        if !string_eq(&e.message_id, m) {
            return false;
        }
    }
    true
}

/// Equality of two strings, as their character views.
pub fn string_eq(a: &String, b: &String) -> (r: bool)
    ensures
        r == (a@ == b@),
{
    a.eq(b)
}

/// Validates a filter as the query compiler does: every requested tag must
/// be a well-formed facet path.
pub fn validate_filter(f: &SearchFilter) -> (r: Result<(), BichonError>)
    ensures
        r is Ok <==> (f.tags matches Some(ts) ==> forall|i: int|
            0 <= i < ts@.len() ==> facet_wf(str_bytes(#[trigger] ts.deep_view()[i]))),
        r matches Err(e) ==> e.code == ErrorCode::InvalidParameter,
{
    if let Some(ts) = &f.tags {
        let mut i: usize = 0;
        while i < ts.len()
            invariant
                f.tags matches Some(tv) && tv == ts,
                i <= ts@.len(),
                forall|k: int| 0 <= k < i ==> facet_wf(str_bytes(#[trigger] ts.deep_view()[k])),
            decreases ts@.len() - i,
        {
            let ok = facet_is_wf(ts[i].as_str());
            proof {
                assert(ts@[i as int]@ == ts.deep_view()[i as int]);
            }
            if !ok {
                return Result::Err(
                    BichonError::new(
                        ErrorCode::InvalidParameter,
                        String::from_str("a tag is not a well-formed facet path"),
                    ),
                );
            }
            i = i + 1;
        }
    }
    Result::Ok(())
}

} // verus!
