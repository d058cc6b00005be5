//! Message-level operations: search request validation, full-content
//! retrieval from raw bytes, attachment lookup, and planning a restore of
//! archived messages back to the server.

use crate::eml_index::EmlIndex;
use crate::eml_index::EmlSource;
use crate::envelope::AttachmentInfo;
use crate::envelope::DataPage;
use crate::envelope::Envelope;
use crate::error::BichonError;
use crate::error::ErrorCode;
use crate::extract::attachments_of;
use crate::extract::attachment_types_of;
use crate::extract::body_html_of;
use crate::extract::body_text_of;
use crate::extract::msg_attachments;
use crate::extract::msg_attachment_data;
use crate::extract::msg_attachment_types;
use crate::extract::msg_body_html;
use crate::extract::msg_body_text;
use crate::extract::parse_ok;
use crate::extract::parses_of;
use crate::index::EnvelopeIndex;
use crate::query::SearchFilter;
use crate::store::Account;
use crate::store::AccountType;
use vstd::prelude::*;
use vstd::string::StringExecFns;

verus! {

/// The most envelopes one search page may hold.
pub const MAX_PAGE_SIZE: u64 = 500;

/// The most messages one restore request may carry.
pub const MAX_RESTORE_COUNT: usize = 100;

/// A search request: the filter with its pagination.
pub struct SearchRequest {
    pub filter: SearchFilter,
    pub page: u64,
    pub page_size: u64,
}

impl SearchRequest {
    /// Accepts exactly the requests with a positive page and a page size
    /// between one and the ceiling.
    pub fn validate(&self) -> (r: Result<(), BichonError>)
        ensures
            r is Ok <==> (self.page >= 1 && 1 <= self.page_size <= MAX_PAGE_SIZE),
            r matches Err(e) ==> e.code == ErrorCode::InvalidParameter,
    {
        if self.page == 0 || self.page_size == 0 {
            return Result::Err(
                BichonError::new(
                    ErrorCode::InvalidParameter,
                    String::from_str("page and page_size must be greater than 0"),
                ),
            );
        }
        if self.page_size > MAX_PAGE_SIZE {
            return Result::Err(
                BichonError::new(
                    ErrorCode::InvalidParameter,
                    String::from_str("page_size exceeds the allowed ceiling"),
                ),
            );
        }
        Result::Ok(())
    }
}

/// Runs a validated search: rejects exactly the ill-formed requests, and
/// otherwise searches the index newest first under the caller's account
/// restriction.
pub fn search_messages_impl(
    index: &EnvelopeIndex,
    allowed: &Option<Vec<u64>>,
    request: &SearchRequest,
) -> (r: Result<DataPage<Envelope>, BichonError>)
    ensures
        r is Ok <==> (request.page >= 1 && 1 <= request.page_size <= MAX_PAGE_SIZE),
        r matches Err(e) ==> e.code == ErrorCode::InvalidParameter,
        r matches Ok(pg) ==> crate::index::search_ok(
            index@,
            request.filter,
            allowed.deep_view(),
            request.page,
            request.page_size,
            true,
            pg,
        ),
{
    match request.validate() {
        Result::Ok(_) => {},
        Result::Err(e) => {
            return Result::Err(e);
        },
    }
    index.search(&request.filter, request.page, request.page_size, true, allowed)
}

/// The position of the first non-inline attachment carrying this
/// filename, as the attachment download resolves a name.
pub open spec fn first_attachment_named(
    metas: Seq<crate::extract::AttachmentMetaView>,
    name: Seq<char>,
    i: nat,
) -> Option<nat>
    decreases metas.len() - i,
{
    if i >= metas.len() {
        None
    } else if !metas[i as int].inline && metas[i as int].filename == Some(name) {
        Some(i)
    } else {
        first_attachment_named(metas, name, (i + 1) as nat)
    }
}

/// Finds the first non-inline attachment with this filename.
pub fn find_attachment(bytes: &[u8], name: &String) -> (r: Option<usize>)
    ensures
        match r {
            Some(i) => first_attachment_named(attachments_of(bytes@), name@, 0) == Some(i as nat),
            None => first_attachment_named(attachments_of(bytes@), name@, 0) is None,
        },
{
    let metas = msg_attachments(bytes);
    let mut i: usize = 0;
    while i < metas.len()
        invariant
            metas.deep_view() == attachments_of(bytes@),
            i <= metas@.len(),
            first_attachment_named(attachments_of(bytes@), name@, 0) == first_attachment_named(
                attachments_of(bytes@),
                name@,
                i as nat,
            ),
        decreases metas@.len() - i,
    {
        proof {
            assert(metas@[i as int]@ == metas.deep_view()[i as int]);
            assert(((i + 1) as nat) == (i as nat) + 1);
        }
        let named = match &metas[i].filename {
            Some(f) => crate::query::string_eq(f, name),
            None => false,
        };
        if !metas[i].inline && named {
            return Some(i);
        }
        i = i + 1;
    }
    None
}

/// Builds the full content of a message from its raw bytes: the text and
/// HTML bodies as parsed, and one entry per attachment with its name,
/// declared type, size, and inline flag. Fails exactly when the bytes do
/// not parse.
pub fn build_message_content(bytes: &[u8]) -> (r: Result<
    crate::envelope::FullMessageContent,
    BichonError,
>)
    ensures
        r is Ok <==> parses_of(bytes@),
        r matches Ok(c) ==> {
            &&& c.text.deep_view() == body_text_of(bytes@)
            &&& c.html.deep_view() == body_html_of(bytes@)
            &&& c.attachments is Some
            &&& (c.attachments matches Some(a) ==> a@.len() == attachments_of(bytes@).len()
                && forall|i: int|
                0 <= i < a@.len() ==> (#[trigger] a@[i]).filename@ == (match attachments_of(
                    bytes@,
                )[i].filename {
                    Some(f) => f,
                    None => Seq::<char>::empty(),
                }) && a@[i].size == attachments_of(bytes@)[i].size && a@[i].inline
                    == attachments_of(bytes@)[i].inline && (i < attachment_types_of(
                    bytes@,
                ).len() ==> a@[i].file_type@ == attachment_types_of(bytes@)[i].0 && a@[
                    i
                ].content_id.deep_view() == attachment_types_of(bytes@)[i].1))
        },
        r matches Err(e) ==> e.code == ErrorCode::InternalError,
{
    if !parse_ok(bytes) {
        return Result::Err(
            BichonError::new(
                ErrorCode::InternalError,
                String::from_str("the stored bytes do not parse as a message"),
            ),
        );
    }
    let text = msg_body_text(bytes);
    let html = msg_body_html(bytes);
    let metas = msg_attachments(bytes);
    let types = msg_attachment_types(bytes);
    let mut attachments: Vec<AttachmentInfo> = Vec::new();
    let mut i: usize = 0;
    while i < metas.len()
        invariant
            metas.deep_view() == attachments_of(bytes@),
            types.deep_view() == attachment_types_of(bytes@),
            i <= metas@.len(),
            attachments@.len() == i,
            forall|k: int|
                0 <= k < i ==> (#[trigger] attachments@[k]).filename@ == (match attachments_of(
                    bytes@,
                )[k].filename {
                    Some(f) => f,
                    None => Seq::<char>::empty(),
                }) && attachments@[k].size
                    == attachments_of(bytes@)[k].size && attachments@[k].inline
                    == attachments_of(bytes@)[k].inline && (k < attachment_types_of(
                    bytes@,
                ).len() ==> attachments@[k].file_type@ == attachment_types_of(bytes@)[k].0
                    && attachments@[k].content_id.deep_view() == attachment_types_of(
                    bytes@,
                )[k].1),
        decreases metas@.len() - i,
    {
        proof {
            assert(metas@[i as int]@ == metas.deep_view()[i as int]);
        }
        let filename = match &metas[i].filename {
            Some(f) => f.clone(),
            None => String::new(),
        };
        let fname_opt = match &metas[i].filename {
            Some(f) => Some(f.clone()),
            None => None,
        };
        let (file_type, content_id) = if i < types.len() {
            proof {
                assert(types@[i as int].0@ == types.deep_view()[i as int].0);
                assert(types@[i as int].1.deep_view() == types.deep_view()[i as int].1);
            }
            let ft = types[i].0.clone();
            let cid = match &types[i].1 {
                Some(c) => Some(c.clone()),
                None => None,
            };
            (ft, cid)
        } else {
            (String::new(), None)
        };
        let info = AttachmentInfo {
            file_type,
            inline: metas[i].inline,
            filename: match fname_opt {
                Some(f) => f,
                None => filename,
            },
            size: metas[i].size,
            content_id,
        };
        attachments.push(info);
        i = i + 1;
    }
    Result::Ok(
        crate::envelope::FullMessageContent { text, html, attachments: Some(attachments) },
    )
}

/// The text with every occurrence of `p` replaced by `q`, scanning left to
/// right without overlap; an empty pattern replaces nothing.
pub open spec fn spec_replace(s: Seq<char>, p: Seq<char>, q: Seq<char>) -> Seq<char>
    decreases s.len(),
{
    if p.len() == 0 || s.len() < p.len() {
        s
    } else if s.subrange(0, p.len() as int) == p {
        q + spec_replace(s.subrange(p.len() as int, s.len() as int), p, q)
    } else {
        s.subrange(0, 1) + spec_replace(s.subrange(1, s.len() as int), p, q)
    }
}

/// Replaces every occurrence of `p` in `s` by `q`, left to right.
pub fn replace_all(s: &str, p: &str, q: &str) -> (r: String)
    ensures
        r@ == spec_replace(s@, p@, q@),
    decreases s@.len(),
{
    let sl = s.unicode_len();
    let pl = p.unicode_len();
    if pl == 0 || sl < pl {
        return String::from_str(s);
    }
    let mut is_match = true;
    let mut k: usize = 0;
    while k < pl
        invariant
            pl == p@.len(),
            sl == s@.len(),
            pl <= sl,
            k <= pl,
            is_match ==> forall|t: int| 0 <= t < k ==> s@[t] == p@[t],
            !is_match ==> s@.subrange(0, pl as int) != p@,
        decreases pl - k,
    {
        if is_match && s.get_char(k) != p.get_char(k) {
            proof {
                assert(s@.subrange(0, pl as int) != p@) by {
                    if s@.subrange(0, pl as int) == p@ {
                        assert(s@.subrange(0, pl as int)[k as int] == s@[k as int]);
                    }
                }
            }
            is_match = false;
        }
        k = k + 1;
    }
    if is_match {
        proof {
            assert(s@.subrange(0, pl as int) =~= p@);
        }
        let rest = s.substring_char(pl, sl);
        let tail = replace_all(rest, p, q);
        let mut out = String::from_str(q);
        out.append(tail.as_str());
        proof {
            assert(out@ == q@ + spec_replace(s@.subrange(pl as int, s@.len() as int), p@, q@));
        }
        out
    } else {
        let head = s.substring_char(0, 1);
        let rest = s.substring_char(1, sl);
        let tail = replace_all(rest, p, q);
        let mut out = String::from_str(head);
        out.append(tail.as_str());
        proof {
            assert(out@ == s@.subrange(0, 1) + spec_replace(
                s@.subrange(1, s@.len() as int),
                p@,
                q@,
            ));
        }
        out
    }
}

/// The data URI an inline attachment is rendered as: its declared type and
/// its base64-encoded contents.
pub open spec fn data_uri_of(file_type: Seq<char>, data: Seq<u8>) -> Seq<char> {
    "data:"@ + file_type + ";base64,"@ + crate::ingest::b64_std_encode_of(data)
}

/// The HTML body after every inline attachment with a content id has its
/// `cid:` reference replaced by a data URI, attachment by attachment.
pub open spec fn spec_inline_all(html: Seq<char>, b: Seq<u8>, i: int) -> Seq<char>
    decreases attachments_of(b).len() - i,
{
    let metas = attachments_of(b);
    let types = attachment_types_of(b);
    if i < 0 || i >= metas.len() {
        html
    } else {
        let h2 = if metas[i].inline && i < types.len() {
            match types[i].1 {
                Some(cid) => match crate::extract::attachment_data_of(b, i as usize) {
                    Some(d) => spec_replace(html, "cid:"@ + cid, data_uri_of(types[i].0, d)),
                    None => html,
                },
                None => html,
            }
        } else {
            html
        };
        spec_inline_all(h2, b, i + 1)
    }
}

/// The HTML body of a message with every inline attachment's `cid:`
/// reference rewritten to a data URI, as the content endpoint serves it.
pub fn render_html_with_inline_images(bytes: &[u8]) -> (r: Option<String>)
    ensures
        r is Some <==> body_html_of(bytes@) is Some,
        r matches Some(h) ==> (body_html_of(bytes@) matches Some(h0) && h@ == spec_inline_all(
            h0,
            bytes@,
            0,
        )),
{
    let html = match msg_body_html(bytes) {
        Some(h) => h,
        None => {
            return None;
        },
    };
    let ghost h0 = html@;
    let metas = msg_attachments(bytes);
    let types = msg_attachment_types(bytes);
    let mut cur = html;
    let mut i: usize = 0;
    while i < metas.len()
        invariant
            metas.deep_view() == attachments_of(bytes@),
            types.deep_view() == attachment_types_of(bytes@),
            i <= metas@.len(),
            spec_inline_all(h0, bytes@, 0) == spec_inline_all(cur@, bytes@, i as int),
        decreases metas@.len() - i,
    {
        let ghost cur_pre = cur@;
        proof {
            assert(metas@[i as int]@ == metas.deep_view()[i as int]);
        }
        if metas[i].inline && i < types.len() {
            proof {
                assert(types@[i as int].0@ == types.deep_view()[i as int].0);
                assert(types@[i as int].1.deep_view() == types.deep_view()[i as int].1);
            }
            match &types[i].1 {
                Some(cid) => {
                    match msg_attachment_data(bytes, i) {
                        Some(data) => {
                            proof {
                                assert(crate::extract::attachment_data_of(bytes@, i) matches Some(
                                    d,
                                ) && d =~= data@);
                            }
                            let mut pattern = String::from_str("cid:");
                            pattern.append(cid.as_str());
                            let encoded = crate::ingest::b64_std_encode(data.as_slice());
                            let mut uri = String::from_str("data:");
                            uri.append(types[i].0.as_str());
                            uri.append(";base64,");
                            uri.append(encoded.as_str());
                            proof {
                                assert(pattern@ =~= "cid:"@ + types.deep_view()[i as int].1->Some_0);
                                assert(uri@ =~= data_uri_of(
                                    types.deep_view()[i as int].0,
                                    crate::extract::attachment_data_of(bytes@, i)->Some_0,
                                ));
                            }
                            cur = replace_all(cur.as_str(), pattern.as_str(), uri.as_str());
                        },
                        None => {},
                    }
                },
                None => {},
            }
        }
        proof {
            assert(spec_inline_all(cur_pre, bytes@, i as int) == spec_inline_all(
                cur@,
                bytes@,
                i + 1,
            ));
        }
        i = i + 1;
    }
    Some(cur)
}

/// A request to restore archived messages back to the server.
#[derive(Clone, Debug, PartialEq, Eq)]
pub struct RestoreMessagesRequest {
    /// The ids to restore; at most the restore ceiling.
    pub message_ids: Vec<u64>,
}

/// One planned append of a restore: the folder to append into, and the
/// message's raw source.
pub struct AppendAction {
    pub mailbox_name: String,
    pub source: EmlSource,
}

/// Whether an archived message can be restored: an envelope that knows its
/// folder and a raw locator are both stored under the account and id.
pub open spec fn restorable(
    env: Seq<crate::envelope::EnvelopeView>,
    eml: Seq<crate::eml_index::EmlDocView>,
    account_id: u64,
    id: u64,
) -> bool {
    &&& exists|i: int|
        0 <= i < env.len() && (#[trigger] env[i]).id == id && env[i].account_id == account_id
            && env[i].mailbox_name is Some
    &&& exists|i: int|
        0 <= i < eml.len() && (#[trigger] eml[i]).id == id && eml[i].account_id == account_id
}

/// Whether an append action reproduces stored documents: its folder is a
/// stored envelope's and its source a stored locator's, under one id.
pub open spec fn action_docs_under(
    env: Seq<crate::envelope::EnvelopeView>,
    eml: Seq<crate::eml_index::EmlDocView>,
    account_id: u64,
    id: u64,
    a: AppendAction,
) -> bool {
    &&& exists|i: int|
        0 <= i < env.len() && (#[trigger] env[i]).id == id && env[i].account_id == account_id
            && env[i].mailbox_name == Some(a.mailbox_name@)
    &&& exists|i: int|
        0 <= i < eml.len() && (#[trigger] eml[i]).id == id && eml[i].account_id == account_id
            && eml[i].source == a.source@
}

pub open spec fn action_stored(
    env: Seq<crate::envelope::EnvelopeView>,
    eml: Seq<crate::eml_index::EmlDocView>,
    account_id: u64,
    a: AppendAction,
) -> bool {
    exists|id: u64| #[trigger] action_docs_under(env, eml, account_id, id, a)
}

/// Plans a restore of archived messages back to the server: fails exactly
/// on an over-large request or a non-IMAP account; then every id whose
/// envelope (with a known folder) and raw source are both stored becomes
/// an append action built from those documents, and exactly the other ids
/// are collected as failures, never aborting the plan.
pub fn plan_restore(
    env_index: &EnvelopeIndex,
    eml_index: &EmlIndex,
    account: &Account,
    message_ids: &Vec<u64>,
) -> (r: Result<(Vec<AppendAction>, Vec<u64>), BichonError>)
    requires
        env_index.wf(),
    ensures
        r is Err <==> (message_ids@.len() > MAX_RESTORE_COUNT || account.account_type
            != AccountType::IMAP),
        r matches Err(e) ==> e.code == (if message_ids@.len() > MAX_RESTORE_COUNT {
            ErrorCode::InvalidParameter
        } else {
            ErrorCode::Incompatible
        }),
        r matches Ok(plan) ==> ({
            &&& plan.0@.len() + plan.1@.len() == message_ids@.len()
            &&& forall|k: int|
                0 <= k < plan.1@.len() ==> !restorable(
                    env_index@,
                    eml_index@,
                    account.id,
                    #[trigger] plan.1@[k],
                )
            &&& forall|j: int|
                0 <= j < message_ids@.len() && !restorable(
                    env_index@,
                    eml_index@,
                    account.id,
                    #[trigger] message_ids@[j],
                ) ==> crate::ingest::listed_u64(plan.1@, message_ids@[j])
            &&& forall|k: int|
                0 <= k < plan.0@.len() ==> action_stored(
                    env_index@,
                    eml_index@,
                    account.id,
                    #[trigger] plan.0@[k],
                )
        }),
{
    if message_ids.len() > MAX_RESTORE_COUNT {
        return Result::Err(
            BichonError::new(
                ErrorCode::InvalidParameter,
                String::from_str("too many messages in one restore request"),
            ),
        );
    }
    if !(account.account_type == AccountType::IMAP) {
        return Result::Err(
            BichonError::new(
                ErrorCode::Incompatible,
                String::from_str("only accounts synchronized over the wire can be restored to"),
            ),
        );
    }
    let mut actions: Vec<AppendAction> = Vec::new();
    let mut failed: Vec<u64> = Vec::new();
    let mut i: usize = 0;
    while i < message_ids.len()
        invariant
            env_index.wf(),
            i <= message_ids@.len(),
            actions@.len() + failed@.len() == i,
            forall|k: int|
                0 <= k < failed@.len() ==> !restorable(
                    env_index@,
                    eml_index@,
                    account.id,
                    #[trigger] failed@[k],
                ),
            forall|j: int|
                0 <= j < i && !restorable(
                    env_index@,
                    eml_index@,
                    account.id,
                    #[trigger] message_ids@[j],
                ) ==> crate::ingest::listed_u64(failed@, message_ids@[j]),
            forall|k: int|
                0 <= k < actions@.len() ==> action_stored(
                    env_index@,
                    eml_index@,
                    account.id,
                    #[trigger] actions@[k],
                ),
        decreases message_ids@.len() - i,
    {
        let ghost failed_pre = failed@;
        let id = message_ids[i];
        let envelope = env_index.get_envelope_by_id(account.id, id);
        let locator = eml_index.get(account.id, id);
        match (envelope, locator) {
            (Some(env), Some(doc)) => {
                let ghost ev = env@;
                let ghost dv = doc@;
                match env.mailbox_name {
                    Some(name) => {
                        let action = AppendAction { mailbox_name: name, source: doc.source };
                        proof {
                            assert(ev.mailbox_name == Some(action.mailbox_name@));
                            assert(dv.source == action.source@);
                            assert(action_docs_under(
                                env_index@,
                                eml_index@,
                                account.id,
                                id,
                                action,
                            ));
                            assert(action_stored(env_index@, eml_index@, account.id, action));
                            assert(restorable(env_index@, eml_index@, account.id, id));
                        }
                        actions.push(action);
                    },
                    None => {
                        proof {
                            if restorable(env_index@, eml_index@, account.id, id) {
                                let j = choose|j: int|
                                    0 <= j < env_index@.len() && (#[trigger] env_index@[j]).id
                                        == id && env_index@[j].account_id == account.id
                                        && env_index@[j].mailbox_name is Some;
                                let k = choose|k: int|
                                    0 <= k < env_index@.len() && #[trigger] env_index@[k] == env@
                                        && env@.id == id && env@.account_id == account.id;
                                assert(j == k);
                            }
                        }
                        failed.push(id);
                    },
                }
            },
            _ => {
                failed.push(id);
            },
        }
        proof {
            assert forall|j: int|
                0 <= j < i + 1 && !restorable(
                    env_index@,
                    eml_index@,
                    account.id,
                    #[trigger] message_ids@[j],
                ) implies crate::ingest::listed_u64(failed@, message_ids@[j]) by {
                if j < i {
                    if crate::ingest::listed_u64(failed_pre, message_ids@[j]) {
                        let k = choose|k: int|
                            0 <= k < failed_pre.len() && (#[trigger] failed_pre[k])
                                == message_ids@[j];
                        assert(failed@[k] == failed_pre[k]);
                    }
                } else {
                    if failed@.len() > failed_pre.len() {
                        assert(failed@[failed@.len() - 1] == message_ids@[j]);
                    }
                }
            }
        }
        i = i + 1;
    }
    Result::Ok((actions, failed))
}

} // verus!
