//! The library's cross-function laws, stated and proved over the same spec
//! functions its contracts use.

use crate::auth::count_in_window;
use crate::auth::RateLimiter;
use crate::envelope::EnvelopeView;
use crate::index::has_id;
use crate::index::unique_ids;
use crate::query::env_matches;
use crate::query::SearchFilter;
use vstd::prelude::*;

verus! {

/// What one write of a document does to the stored sequence: the document
/// with the same id is replaced in place, or the document is appended.
/// This is exactly what the index and buffer writes ensure.
pub open spec fn upsert_effect(pre: Seq<EnvelopeView>, post: Seq<EnvelopeView>, d: EnvelopeView) -> bool {
    if has_id(pre, d.id) {
        exists|i: int| 0 <= i < pre.len() && (#[trigger] pre[i]).id == d.id && post == pre.update(i, d)
    } else {
        post == pre.push(d)
    }
}

/// Re-indexing an id is idempotent: writing `d1` and then `d2` under one id
/// leaves exactly one stored document with that id, and it equals `d2`.
pub proof fn lemma_reindex_idempotent(
    s0: Seq<EnvelopeView>,
    s1: Seq<EnvelopeView>,
    s2: Seq<EnvelopeView>,
    d1: EnvelopeView,
    d2: EnvelopeView,
)
    requires
        unique_ids(s0),
        upsert_effect(s0, s1, d1),
        upsert_effect(s1, s2, d2),
        d1.id == d2.id,
    ensures
        exists|i: int| 0 <= i < s2.len() && (#[trigger] s2[i]) == d2,
        forall|i: int, j: int|
            0 <= i < j < s2.len() ==> !((#[trigger] s2[i]).id == d2.id && (#[trigger] s2[j]).id
                == d2.id),
{
    if has_id(s0, d1.id) {
        let i = choose|i: int|
            0 <= i < s0.len() && (#[trigger] s0[i]).id == d1.id && s1 == s0.update(i, d1);
        assert(s1[i] == d1);
        assert(unique_ids(s1)) by {
            assert forall|x: int, y: int|
                0 <= x < y < s1.len() implies (#[trigger] s1[x]).id != (#[trigger] s1[y]).id by {
                assert(s0[x].id == s1[x].id || x == i);
                assert(s0[y].id == s1[y].id || y == i);
            }
        }
        assert(has_id(s1, d2.id)) by {
            assert(s1[i].id == d2.id);
        }
        let j = choose|j: int|
            0 <= j < s1.len() && (#[trigger] s1[j]).id == d2.id && s2 == s1.update(j, d2);
        assert(s2[j] == d2);
        assert forall|x: int, y: int|
            0 <= x < y < s2.len() implies !((#[trigger] s2[x]).id == d2.id && (#[trigger] s2[y]).id
                == d2.id) by {
            assert(s1[x].id == s2[x].id || x == j);
            assert(s1[y].id == s2[y].id || y == j);
        }
    } else {
        assert(s1 == s0.push(d1));
        assert(s1[s0.len() as int] == d1);
        assert(unique_ids(s1)) by {
            assert forall|x: int, y: int|
                0 <= x < y < s1.len() implies (#[trigger] s1[x]).id != (#[trigger] s1[y]).id by {
                if y == s0.len() {
                    assert(s1[x] == s0[x]);
                    assert(!has_id(s0, d1.id));
                }
            }
        }
        assert(has_id(s1, d2.id)) by {
            assert(s1[s0.len() as int].id == d2.id);
        }
        let j = choose|j: int|
            0 <= j < s1.len() && (#[trigger] s1[j]).id == d2.id && s2 == s1.update(j, d2);
        assert(s2[j] == d2);
        assert forall|x: int, y: int|
            0 <= x < y < s2.len() implies !((#[trigger] s2[x]).id == d2.id && (#[trigger] s2[y]).id
                == d2.id) by {
            assert(s1[x].id == s2[x].id || x == j);
            assert(s1[y].id == s2[y].id || y == j);
        }
    }
}

/// Round trip: a document written to the index is stored whole, so every
/// field the extractor produced — message id, subject, addresses, dates,
/// size, attachment names, the attachment flag — reads back unchanged.
pub proof fn lemma_round_trip(pre: Seq<EnvelopeView>, post: Seq<EnvelopeView>, e: EnvelopeView)
    requires
        upsert_effect(pre, post, e),
    ensures
        exists|i: int|
            0 <= i < post.len() && (#[trigger] post[i]).message_id == e.message_id && post[i].subject
                == e.subject && post[i].from == e.from && post[i].to == e.to && post[i].cc == e.cc
                && post[i].bcc == e.bcc && post[i].internal_date == e.internal_date
                && post[i].size == e.size && post[i].attachments == e.attachments
                && post[i].has_attachment == e.has_attachment,
{
    if has_id(pre, e.id) {
        let i = choose|i: int|
            0 <= i < pre.len() && (#[trigger] pre[i]).id == e.id && post == pre.update(i, e);
        assert(post[i] == e);
    } else {
        assert(post == pre.push(e));
        assert(post[pre.len() as int] == e);
    }
}

/// The filter holding the clauses of both of two filters over disjoint
/// fields: each clause is taken from whichever filter carries it.
pub open spec fn combined_filter(f1: SearchFilter, f2: SearchFilter) -> SearchFilter {
    SearchFilter {
        text: if f1.text is Some {
            f1.text
        } else {
            f2.text
        },
        from: if f1.from is Some {
            f1.from
        } else {
            f2.from
        },
        to: if f1.to is Some {
            f1.to
        } else {
            f2.to
        },
        cc: if f1.cc is Some {
            f1.cc
        } else {
            f2.cc
        },
        bcc: if f1.bcc is Some {
            f1.bcc
        } else {
            f2.bcc
        },
        since: if f1.since is Some {
            f1.since
        } else {
            f2.since
        },
        before: if f1.before is Some {
            f1.before
        } else {
            f2.before
        },
        account_id: if f1.account_id is Some {
            f1.account_id
        } else {
            f2.account_id
        },
        mailbox_id: if f1.mailbox_id is Some {
            f1.mailbox_id
        } else {
            f2.mailbox_id
        },
        thread_id: if f1.thread_id is Some {
            f1.thread_id
        } else {
            f2.thread_id
        },
        min_size: if f1.min_size is Some {
            f1.min_size
        } else {
            f2.min_size
        },
        max_size: if f1.max_size is Some {
            f1.max_size
        } else {
            f2.max_size
        },
        message_id: if f1.message_id is Some {
            f1.message_id
        } else {
            f2.message_id
        },
        has_attachment: if f1.has_attachment is Some {
            f1.has_attachment
        } else {
            f2.has_attachment
        },
        attachment_name: if f1.attachment_name is Some {
            f1.attachment_name
        } else {
            f2.attachment_name
        },
        tags: if f1.tags is Some {
            f1.tags
        } else {
            f2.tags
        },
    }
}

/// Two filters are over disjoint fields when no clause is present in both.
pub open spec fn disjoint_filters(f1: SearchFilter, f2: SearchFilter) -> bool {
    &&& !(f1.text is Some && f2.text is Some)
    &&& !(f1.from is Some && f2.from is Some)
    &&& !(f1.to is Some && f2.to is Some)
    &&& !(f1.cc is Some && f2.cc is Some)
    &&& !(f1.bcc is Some && f2.bcc is Some)
    &&& !(f1.since is Some && f2.since is Some)
    &&& !(f1.before is Some && f2.before is Some)
    &&& !(f1.account_id is Some && f2.account_id is Some)
    &&& !(f1.mailbox_id is Some && f2.mailbox_id is Some)
    &&& !(f1.thread_id is Some && f2.thread_id is Some)
    &&& !(f1.min_size is Some && f2.min_size is Some)
    &&& !(f1.max_size is Some && f2.max_size is Some)
    &&& !(f1.message_id is Some && f2.message_id is Some)
    &&& !(f1.has_attachment is Some && f2.has_attachment is Some)
    &&& !(f1.attachment_name is Some && f2.attachment_name is Some)
    &&& !(f1.tags is Some && f2.tags is Some)
}

/// Filter composition: over disjoint fields, the combined filter matches a
/// document exactly when both filters match it, so the combined result set
/// is the intersection of the two result sets, up to pagination.
pub proof fn lemma_filter_composition(e: EnvelopeView, f1: SearchFilter, f2: SearchFilter)
    requires
        disjoint_filters(f1, f2),
    ensures
        env_matches(e, combined_filter(f1, f2)) <==> (env_matches(e, f1) && env_matches(e, f2)),
{
}

/// The sliding-window rate limit: a well-formed limiter admits at most its
/// quota of requests inside any window of its interval.
pub proof fn lemma_rate_limit_window(l: RateLimiter, t: int)
    requires
        l.wf(),
    ensures
        count_in_window(l.admitted@, t, l.interval_ms as int) <= l.quota,
{
}

} // verus!
