//! The envelope extractor: turns RFC822 bytes (plus IMAP fetch attributes,
//! where present) into an envelope document.
//!
//! MIME parsing is done by mail-parser behind the trusted wrappers below;
//! each wrapper's result is a function of the raw bytes alone and carries a
//! name for it. Everything built on those names — address flattening and
//! joining, the thread id, the has-attachment flag, and the recursive
//! indexable text — is verified.

use crate::envelope::addr_display;
use crate::envelope::Addr;
use crate::envelope::AddrView;
use crate::envelope::Envelope;
use crate::envelope::EnvelopeView;
use crate::error::BichonError;
use crate::error::ErrorCode;
use crate::text::is_ws;
use crate::text::lower_byte;
use crate::text::lower_bytes;
use crate::text::lower_vec;
use crate::text::le8;
use crate::text::le_byte;
use crate::text::push_le_bytes;
use crate::text::spec_fnv;
use crate::text::fnv_hash;
use mail_parser::MimeHeaders;
use vstd::prelude::*;
use vstd::string::StringExecFns;
use vstd::string::StringSliceAdditionalSpecFns;

verus! {

/// Metadata of one MIME attachment, as the extractor reads it.
#[derive(Clone, Debug, PartialEq, Eq)]
pub struct AttachmentMeta {
    pub filename: Option<String>,
    /// Size of the decoded content in bytes.
    pub size: usize,
    /// Whether the part is declared inline.
    pub inline: bool,
    /// Whether the part is a nested RFC822 message.
    pub is_message: bool,
    /// Whether the part carries decodable text.
    pub is_text: bool,
}

/// The mathematical value of an attachment's metadata.
pub ghost struct AttachmentMetaView {
    pub filename: Option<Seq<char>>,
    pub size: usize,
    pub inline: bool,
    pub is_message: bool,
    pub is_text: bool,
}

impl View for AttachmentMeta {
    type V = AttachmentMetaView;

    open spec fn view(&self) -> AttachmentMetaView {
        AttachmentMetaView {
            filename: self.filename.deep_view(),
            size: self.size,
            inline: self.inline,
            is_message: self.is_message,
            is_text: self.is_text,
        }
    }
}

impl DeepView for AttachmentMeta {
    type V = AttachmentMetaView;

    open spec fn deep_view(&self) -> AttachmentMetaView {
        self.view()
    }
}

/// Whether mail-parser accepts the bytes as a message.
pub uninterp spec fn parses_of(b: Seq<u8>) -> bool;

/// The Message-ID header, as mail-parser reads it.
pub uninterp spec fn message_id_of(b: Seq<u8>) -> Option<Seq<char>>;

/// The decoded Subject header.
pub uninterp spec fn subject_of(b: Seq<u8>) -> Option<Seq<char>>;

/// The flattened From addresses, group members expanded.
pub uninterp spec fn from_of(b: Seq<u8>) -> Seq<AddrView>;

/// The flattened To addresses.
pub uninterp spec fn to_of(b: Seq<u8>) -> Seq<AddrView>;

/// The flattened Cc addresses.
pub uninterp spec fn cc_of(b: Seq<u8>) -> Seq<AddrView>;

/// The flattened Bcc addresses.
pub uninterp spec fn bcc_of(b: Seq<u8>) -> Seq<AddrView>;

/// The Date header as seconds since the epoch.
pub uninterp spec fn date_secs_of(b: Seq<u8>) -> Option<i64>;

/// The first plain-text body.
pub uninterp spec fn body_text_of(b: Seq<u8>) -> Option<Seq<char>>;

/// The first HTML body.
pub uninterp spec fn body_html_of(b: Seq<u8>) -> Option<Seq<char>>;

/// What mail-parser's HTML-to-text conversion yields.
pub uninterp spec fn html_text_of(s: Seq<char>) -> Seq<char>;

/// The attachment metadata list.
pub uninterp spec fn attachments_of(b: Seq<u8>) -> Seq<AttachmentMetaView>;

/// The decoded content of the attachment at the given position; for a
/// nested message, its raw bytes.
pub uninterp spec fn attachment_data_of(b: Seq<u8>, i: usize) -> Option<Seq<u8>>;

/// The decoded text of the attachment at the given position, where it is a
/// text part.
pub uninterp spec fn attachment_text_of(b: Seq<u8>, i: usize) -> Option<Seq<char>>;

/// The References header ids, in order.
pub uninterp spec fn references_of(b: Seq<u8>) -> Seq<Seq<char>>;

/// The In-Reply-To header id.
pub uninterp spec fn in_reply_to_of(b: Seq<u8>) -> Option<Seq<char>>;

/// Relies on mail_parser::MessageParser::parse: whether the bytes parse.
#[verifier::external_body]
pub fn parse_ok(b: &[u8]) -> (r: bool)
    ensures
        r == parses_of(b@),
{
    mail_parser::MessageParser::new().parse(b).is_some()
}

/// Relies on mail_parser::Message::message_id.
#[verifier::external_body]
pub fn msg_message_id(b: &[u8]) -> (r: Option<String>)
    ensures
        r.deep_view() == message_id_of(b@),
{
    mail_parser::MessageParser::new().parse(b)?.message_id().map(|s| s.to_string())
}

/// Relies on mail_parser::Message::subject.
#[verifier::external_body]
pub fn msg_subject(b: &[u8]) -> (r: Option<String>)
    ensures
        r.deep_view() == subject_of(b@),
{
    mail_parser::MessageParser::new().parse(b)?.subject().map(|s| s.to_string())
}

/// Relies on mail_parser::Message::from; mail_parser::Address carries
/// either a plain list or groups, whose members are flattened out.
#[verifier::external_body]
pub fn msg_from(b: &[u8]) -> (r: Vec<Addr>)
    ensures
        r.deep_view() == from_of(b@),
{
    let one = |x: &mail_parser::Addr<'_>| Addr {
        name: x.name.as_ref().map(|s| s.to_string()),
        address: x.address.as_ref().map(|s| s.to_string()),
    };
    match mail_parser::MessageParser::new().parse(b).and_then(|m| m.from().cloned()) {
        Some(mail_parser::Address::List(v)) => v.iter().map(one).collect(),
        Some(mail_parser::Address::Group(g)) => g.iter().flat_map(|x| x.addresses.iter()).map(one).collect(),
        None => Vec::new(),
    }
}

/// Relies on mail_parser::Message::to, flattened the same way.
#[verifier::external_body]
pub fn msg_to(b: &[u8]) -> (r: Vec<Addr>)
    ensures
        r.deep_view() == to_of(b@),
{
    let one = |x: &mail_parser::Addr<'_>| Addr {
        name: x.name.as_ref().map(|s| s.to_string()),
        address: x.address.as_ref().map(|s| s.to_string()),
    };
    match mail_parser::MessageParser::new().parse(b).and_then(|m| m.to().cloned()) {
        Some(mail_parser::Address::List(v)) => v.iter().map(one).collect(),
        Some(mail_parser::Address::Group(g)) => g.iter().flat_map(|x| x.addresses.iter()).map(one).collect(),
        None => Vec::new(),
    }
}

/// Relies on mail_parser::Message::cc, flattened the same way.
#[verifier::external_body]
pub fn msg_cc(b: &[u8]) -> (r: Vec<Addr>)
    ensures
        r.deep_view() == cc_of(b@),
{
    let one = |x: &mail_parser::Addr<'_>| Addr {
        name: x.name.as_ref().map(|s| s.to_string()),
        address: x.address.as_ref().map(|s| s.to_string()),
    };
    match mail_parser::MessageParser::new().parse(b).and_then(|m| m.cc().cloned()) {
        Some(mail_parser::Address::List(v)) => v.iter().map(one).collect(),
        Some(mail_parser::Address::Group(g)) => g.iter().flat_map(|x| x.addresses.iter()).map(one).collect(),
        None => Vec::new(),
    }
}

/// Relies on mail_parser::Message::bcc, flattened the same way.
#[verifier::external_body]
pub fn msg_bcc(b: &[u8]) -> (r: Vec<Addr>)
    ensures
        r.deep_view() == bcc_of(b@),
{
    let one = |x: &mail_parser::Addr<'_>| Addr {
        name: x.name.as_ref().map(|s| s.to_string()),
        address: x.address.as_ref().map(|s| s.to_string()),
    };
    match mail_parser::MessageParser::new().parse(b).and_then(|m| m.bcc().cloned()) {
        Some(mail_parser::Address::List(v)) => v.iter().map(one).collect(),
        Some(mail_parser::Address::Group(g)) => g.iter().flat_map(|x| x.addresses.iter()).map(one).collect(),
        None => Vec::new(),
    }
}

/// Relies on mail_parser::Message::date and DateTime::to_timestamp.
#[verifier::external_body]
pub fn msg_date_secs(b: &[u8]) -> (r: Option<i64>)
    ensures
        r == date_secs_of(b@),
{
    mail_parser::MessageParser::new().parse(b)?.date().map(|d| d.to_timestamp())
}

/// Relies on mail_parser::Message::body_text.
#[verifier::external_body]
pub fn msg_body_text(b: &[u8]) -> (r: Option<String>)
    ensures
        r.deep_view() == body_text_of(b@),
{
    mail_parser::MessageParser::new().parse(b)?.body_text(0).map(|c| c.into_owned())
}

/// Relies on mail_parser::Message::body_html.
#[verifier::external_body]
pub fn msg_body_html(b: &[u8]) -> (r: Option<String>)
    ensures
        r.deep_view() == body_html_of(b@),
{
    mail_parser::MessageParser::new().parse(b)?.body_html(0).map(|c| c.into_owned())
}

/// Relies on mail_parser::decoders::html::html_to_text: the conversion
/// depends on the input characters alone.
#[verifier::external_body]
pub fn html_to_text(s: &str) -> (r: String)
    ensures
        r@ == html_text_of(s@),
{
    mail_parser::decoders::html::html_to_text(s)
}

/// Relies on mail_parser::Message::attachments with the accessors
/// attachment_name and content_disposition of MimeHeaders, and
/// MessagePart::contents, is_message and text_contents.
#[verifier::external_body]
pub fn msg_attachments(b: &[u8]) -> (r: Vec<AttachmentMeta>)
    ensures
        r.deep_view() == attachments_of(b@),
{
    match mail_parser::MessageParser::new().parse(b) {
        None => Vec::new(),
        Some(m) => m.attachments().map(|p| AttachmentMeta {
            filename: p.attachment_name().map(|s| s.to_string()),
            size: p.contents().len(),
            inline: p.content_disposition().map(|cd| cd.is_inline()).unwrap_or(false),
            is_message: p.is_message(),
            is_text: p.text_contents().is_some(),
        }).collect(),
    }
}

/// The MIME type of each attachment, as `type/subtype`, with its optional
/// content id.
pub uninterp spec fn attachment_types_of(b: Seq<u8>) -> Seq<(Seq<char>, Option<Seq<char>>)>;

/// Relies on mail_parser::Message::attachments with content_type and
/// content_id of MimeHeaders.
#[verifier::external_body]
pub fn msg_attachment_types(b: &[u8]) -> (r: Vec<(String, Option<String>)>)
    ensures
        r.deep_view() == attachment_types_of(b@),
{
    match mail_parser::MessageParser::new().parse(b) {
        None => Vec::new(),
        Some(m) => m.attachments().map(|p| (
            match p.content_type() {
                Some(ct) => format!("{}/{}", ct.c_type.as_ref(), ct.c_subtype.as_deref().unwrap_or("")),
                None => String::new(),
            },
            p.content_id().map(|s| s.to_string()),
        )).collect(),
    }
}

/// Relies on mail_parser::MessagePart::contents: the decoded bytes of the
/// attachment at the given position, or a nested message's raw bytes.
#[verifier::external_body]
pub fn msg_attachment_data(b: &[u8], i: usize) -> (r: Option<Vec<u8>>)
    ensures
        r.deep_view() == attachment_data_of(b@, i),
{
    let m = mail_parser::MessageParser::new().parse(b)?;
    let r = m.attachments().nth(i).map(|p| p.contents().to_vec());
    r
}

/// Relies on mail_parser::MessagePart::text_contents: the decoded text of
/// the attachment at the given position, where it is text.
#[verifier::external_body]
pub fn msg_attachment_text(b: &[u8], i: usize) -> (r: Option<String>)
    ensures
        r.deep_view() == attachment_text_of(b@, i),
{
    let m = mail_parser::MessageParser::new().parse(b)?;
    let r = m.attachments().nth(i).and_then(|p| p.text_contents().map(|s| s.to_string()));
    r
}

/// Relies on mail_parser::Message::references and HeaderValue::as_text_list.
#[verifier::external_body]
pub fn msg_references(b: &[u8]) -> (r: Vec<String>)
    ensures
        r.deep_view() == references_of(b@),
{
    match mail_parser::MessageParser::new().parse(b) {
        None => Vec::new(),
        Some(m) => match m.references().as_text_list() {
            Some(l) => l.iter().map(|s| s.to_string()).collect(),
            None => match m.references().as_text() {
                Some(s) => vec![s.to_string()],
                None => Vec::new(),
            },
        },
    }
}

/// Relies on mail_parser::Message::in_reply_to and HeaderValue::as_text.
#[verifier::external_body]
pub fn msg_in_reply_to(b: &[u8]) -> (r: Option<String>)
    ensures
        r.deep_view() == in_reply_to_of(b@),
{
    let m = mail_parser::MessageParser::new().parse(b)?;
    let r = m.in_reply_to().as_text().map(|s| s.to_string());
    r
}

/// The addresses of a header joined for the stored string: each rendered as
/// it displays, separated by a comma and a space.
pub open spec fn spec_join_addrs(addrs: Seq<AddrView>) -> Seq<char>
    decreases addrs.len(),
{
    if addrs.len() == 0 {
        Seq::empty()
    } else if addrs.len() == 1 {
        addr_display(addrs[0])
    } else {
        spec_join_addrs(addrs.drop_last()) + ", "@ + addr_display(addrs.last())
    }
}

/// Joins addresses into the stored header string.
pub fn join_addrs(addrs: &Vec<Addr>) -> (r: String)
    ensures
        r@ == spec_join_addrs(addrs.deep_view()),
{
    let mut out = String::new();
    let mut i: usize = 0;
    proof {
        assert(addrs.deep_view().subrange(0, 0) =~= Seq::<AddrView>::empty());
        assert(out@ =~= spec_join_addrs(addrs.deep_view().subrange(0, 0)));
    }
    while i < addrs.len()
        invariant
            i <= addrs@.len(),
            out@ == spec_join_addrs(addrs.deep_view().subrange(0, i as int)),
        decreases addrs@.len() - i,
    {
        if i > 0 {
            out.append(", ");
        }
        let d = addrs[i].to_display_string();
        out.append(d.as_str());
        proof {
            let dv = addrs.deep_view();
            assert(addrs@[i as int]@ == dv[i as int]);
            assert(dv.subrange(0, i + 1).drop_last() =~= dv.subrange(0, i as int));
            assert(dv.subrange(0, i + 1).last() == dv[i as int]);
            if i == 0 {
                assert(out@ =~= spec_join_addrs(dv.subrange(0, 1)));
            } else {
                assert(out@ =~= spec_join_addrs(dv.subrange(0, i as int)) + ", "@ + addr_display(
                    dv[i as int],
                ));
            }
        }
        i = i + 1;
    }
    proof {
        assert(addrs.deep_view().subrange(0, addrs.deep_view().len() as int) =~= addrs.deep_view());
    }
    out
}

/// The subject normalized for threading: leading whitespace and reply or
/// forward markers stripped repeatedly, trailing whitespace stripped.
pub open spec fn norm_subject(s: Seq<u8>) -> Seq<u8>
    decreases s.len(),
{
    if s.len() == 0 {
        s
    } else if is_ws(s[0]) {
        norm_subject(s.drop_first())
    } else if s.len() >= 3 && lower_byte(s[0]) == 114 && lower_byte(s[1]) == 101 && s[2] == 58 {
        norm_subject(s.subrange(3, s.len() as int))
    } else if s.len() >= 4 && lower_byte(s[0]) == 102 && lower_byte(s[1]) == 119 && lower_byte(
        s[2],
    ) == 100 && s[3] == 58 {
        norm_subject(s.subrange(4, s.len() as int))
    } else if s.len() >= 3 && lower_byte(s[0]) == 102 && lower_byte(s[1]) == 119 && s[2] == 58 {
        norm_subject(s.subrange(3, s.len() as int))
    } else {
        trim_back(s)
    }
}

/// Trailing whitespace removed.
pub open spec fn trim_back(s: Seq<u8>) -> Seq<u8>
    decreases s.len(),
{
    if s.len() > 0 && is_ws(s.last()) {
        trim_back(s.drop_last())
    } else {
        s
    }
}

fn norm_subject_from(s: &[u8], i: usize) -> (r: Vec<u8>)
    requires
        i <= s@.len(),
    ensures
        r@ == norm_subject(s@.subrange(i as int, s@.len() as int)),
    decreases s@.len() - i,
{
    let n = s.len();
    let ghost tail = s@.subrange(i as int, s@.len() as int);
    if i == n {
        let r: Vec<u8> = Vec::new();
        proof {
            assert(tail =~= Seq::<u8>::empty());
            assert(r@ =~= tail);
        }
        return r;
    }
    proof {
        assert(tail[0] == s@[i as int]);
        assert(tail.drop_first() =~= s@.subrange(i + 1, s@.len() as int));
        assert(forall|k: int| 0 <= k < tail.len() ==> tail[k] == s@[i + k]);
    }
    let b0 = s[i];
    if b0 == 32 || b0 == 9 || b0 == 10 || b0 == 13 {
        return norm_subject_from(s, i + 1);
    }
    let l0 = lower_byte_exec(b0);
    if n - i >= 3 && l0 == 114 && lower_byte_exec(s[i + 1]) == 101 && s[i + 2] == 58 {
        proof {
            assert(tail.subrange(3, tail.len() as int) =~= s@.subrange(i + 3, s@.len() as int));
        }
        return norm_subject_from(s, i + 3);
    }
    if n - i >= 4 && l0 == 102 && lower_byte_exec(s[i + 1]) == 119 && lower_byte_exec(s[i + 2])
        == 100 && s[i + 3] == 58 {
        proof {
            assert(tail.subrange(4, tail.len() as int) =~= s@.subrange(i + 4, s@.len() as int));
        }
        return norm_subject_from(s, i + 4);
    }
    if n - i >= 3 && l0 == 102 && lower_byte_exec(s[i + 1]) == 119 && s[i + 2] == 58 {
        proof {
            assert(tail.subrange(3, tail.len() as int) =~= s@.subrange(i + 3, s@.len() as int));
        }
        return norm_subject_from(s, i + 3);
    }
    // trim trailing whitespace of s[i..]
    let mut e: usize = n;
    while e > i && (s[e - 1] == 32 || s[e - 1] == 9 || s[e - 1] == 10 || s[e - 1] == 13)
        invariant
            i <= e <= s@.len(),
            trim_back(s@.subrange(i as int, s@.len() as int)) == trim_back(
                s@.subrange(i as int, e as int),
            ),
        decreases e,
    {
        proof {
            assert(s@.subrange(i as int, e as int).last() == s@[e - 1]);
            assert(s@.subrange(i as int, e as int).drop_last() =~= s@.subrange(i as int, e - 1));
        }
        e = e - 1;
    }
    proof {
        if e > i {
            assert(s@.subrange(i as int, e as int).last() == s@[e - 1]);
            assert(trim_back(s@.subrange(i as int, e as int)) == s@.subrange(i as int, e as int));
        } else {
            assert(s@.subrange(i as int, e as int) =~= Seq::<u8>::empty());
        }
        assert(norm_subject(tail) == s@.subrange(i as int, e as int));
    }
    let mut out: Vec<u8> = Vec::new();
    let mut k: usize = i;
    while k < e
        invariant
            i <= k <= e <= s@.len(),
            out@ == s@.subrange(i as int, k as int),
        decreases e - k,
    {
        out.push(s[k]);
        proof {
            assert(s@.subrange(i as int, k + 1) =~= s@.subrange(i as int, k as int).push(
                s@[k as int],
            ));
        }
        k = k + 1;
    }
    out
}

fn lower_byte_exec(b: u8) -> (r: u8)
    ensures
        r == lower_byte(b),
{
    if 65 <= b && b <= 90 {
        b + 32
    } else {
        b
    }
}

/// The key that clusters a thread by subject: the normalized subject,
/// case-folded.
pub open spec fn thread_subject_key(s: Seq<u8>) -> Seq<u8> {
    lower_bytes(norm_subject(s))
}

/// The thread id: the hash of the root of the References chain where one
/// exists, else of the In-Reply-To id, else of the normalized subject.
pub open spec fn thread_id_of(b: Seq<u8>, subject: Seq<char>) -> u64 {
    if references_of(b).len() > 0 {
        spec_fnv(crate::query::str_bytes(references_of(b)[0]))
    } else {
        match in_reply_to_of(b) {
            Some(r) => spec_fnv(crate::query::str_bytes(r)),
            None => spec_fnv(thread_subject_key(crate::query::str_bytes(subject))),
        }
    }
}

/// How deep nested messages are followed when the indexable text is built.
pub const NESTING_DEPTH: u64 = 5;

/// The body text of the message alone: the plain-text body where present,
/// else the HTML body converted to text, else empty.
pub open spec fn base_text(b: Seq<u8>) -> Seq<char> {
    match body_text_of(b) {
        Some(t) => t,
        None => match body_html_of(b) {
            Some(h) => html_text_of(h),
            None => Seq::empty(),
        },
    }
}

/// The indexable text: the body text, plus the text of nested messages
/// (followed up to the given depth) and of decoded text attachments, so
/// that keywords inside forwarded messages stay searchable.
pub open spec fn spec_indexable_text(b: Seq<u8>, depth: nat) -> Seq<char>
    decreases depth, 1nat, 0nat,
{
    base_text(b) + attach_texts(b, 0, depth)
}

/// The appended text of the attachments from position `i` on.
pub open spec fn attach_texts(b: Seq<u8>, i: nat, depth: nat) -> Seq<char>
    decreases depth, 0nat, attachments_of(b).len() - i,
{
    let metas = attachments_of(b);
    if i >= metas.len() {
        Seq::empty()
    } else {
        let cur: Seq<char> = if metas[i as int].is_message && depth > 0 {
            match attachment_data_of(b, i as usize) {
                Some(raw) => seq!['\n'] + spec_indexable_text(raw, (depth - 1) as nat),
                None => Seq::empty(),
            }
        } else if metas[i as int].is_text && !metas[i as int].is_message {
            match attachment_text_of(b, i as usize) {
                Some(t) => seq!['\n'] + t,
                None => Seq::empty(),
            }
        } else {
            Seq::empty()
        };
        cur + attach_texts(b, (i + 1) as nat, depth)
    }
}

/// Builds the indexable text, following nested messages to `depth`.
pub fn collect_text(b: &[u8], depth: u64) -> (r: String)
    ensures
        r@ == spec_indexable_text(b@, depth as nat),
    decreases depth,
{
    let mut acc: String = match msg_body_text(b) {
        Some(t) => t,
        None => match msg_body_html(b) {
            Some(h) => html_to_text(h.as_str()),
            None => String::new(),
        },
    };
    proof {
        assert(acc@ == base_text(b@));
    }
    let metas = msg_attachments(b);
    let ghost total = spec_indexable_text(b@, depth as nat);
    let mut i: usize = 0;
    proof {
        assert(total =~= acc@ + attach_texts(b@, 0, depth as nat));
    }
    while i < metas.len()
        invariant
            depth <= u64::MAX,
            metas.deep_view() == attachments_of(b@),
            total == spec_indexable_text(b@, depth as nat),
            i <= metas@.len(),
            total == acc@ + attach_texts(b@, i as nat, depth as nat),
        decreases metas@.len() - i,
    {
        proof {
            assert(metas@[i as int]@ == attachments_of(b@)[i as int]);
            assert(((i as nat) as usize) == i);
            assert(((i + 1) as nat) == (i as nat) + 1);
        }
        let ghost before = acc@;
        let ghost next = attach_texts(b@, (i + 1) as nat, depth as nat);
        let is_msg = metas[i].is_message;
        let is_txt = metas[i].is_text;
        if is_msg && depth > 0 {
            match msg_attachment_data(b, i) {
                Some(raw) => {
                    let sub = collect_text(raw.as_slice(), depth - 1);
                    acc.append("\n");
                    acc.append(sub.as_str());
                    proof {
                        reveal_strlit("\n");
                        assert("\n"@ =~= seq!['\n']);
                        assert(attachments_of(b@)[i as int].is_message && (depth as nat) > 0);
                        assert(attachment_data_of(b@, i) == Some(raw@));
                        assert(acc@ =~= before + (seq!['\n'] + spec_indexable_text(
                            raw@,
                            (depth - 1) as nat,
                        )));
                        assert(attach_texts(b@, i as nat, depth as nat) == (seq!['\n']
                            + spec_indexable_text(raw@, (depth - 1) as nat)) + next);
                        assert(total =~= acc@ + next);
                    }
                },
                None => {
                    proof {
                        assert(attach_texts(b@, i as nat, depth as nat)
                            == Seq::<char>::empty() + next);
                        assert(total =~= acc@ + next);
                    }
                },
            }
        } else if is_txt && !is_msg {
            match msg_attachment_text(b, i) {
                Some(t) => {
                    acc.append("\n");
                    acc.append(t.as_str());
                    proof {
                        reveal_strlit("\n");
                        assert("\n"@ =~= seq!['\n']);
                        assert(attach_texts(b@, i as nat, depth as nat) == (seq!['\n'] + t@)
                            + next);
                        assert(total =~= acc@ + next);
                    }
                },
                None => {
                    proof {
                        assert(attach_texts(b@, i as nat, depth as nat)
                            == Seq::<char>::empty() + next);
                        assert(total =~= acc@ + next);
                    }
                },
            }
        } else {
            proof {
                assert(attach_texts(b@, i as nat, depth as nat) == Seq::<char>::empty() + next);
                assert(total =~= acc@ + next);
            }
        }
        i = i + 1;
    }
    proof {
        assert(attach_texts(b@, i as nat, depth as nat) =~= Seq::<char>::empty());
        assert(total =~= acc@);
    }
    acc
}

/// The filenames of the attachments that carry one, in order.
pub open spec fn spec_attach_names(metas: Seq<AttachmentMetaView>, i: nat) -> Seq<Seq<char>>
    decreases metas.len() - i,
{
    if i >= metas.len() {
        Seq::empty()
    } else {
        (match metas[i as int].filename {
            Some(n) => seq![n],
            None => Seq::empty(),
        }) + spec_attach_names(metas, (i + 1) as nat)
    }
}

fn attach_names(metas: &Vec<AttachmentMeta>) -> (r: Vec<String>)
    ensures
        r.deep_view() == spec_attach_names(metas.deep_view(), 0),
{
    let ghost total = spec_attach_names(metas.deep_view(), 0);
    let mut out: Vec<String> = Vec::new();
    let mut i: usize = 0;
    proof {
        assert(out.deep_view() =~= Seq::<Seq<char>>::empty());
    }
    while i < metas.len()
        invariant
            total == spec_attach_names(metas.deep_view(), 0),
            i <= metas@.len(),
            total == out.deep_view() + spec_attach_names(metas.deep_view(), i as nat),
        decreases metas@.len() - i,
    {
        proof {
            assert(metas@[i as int]@ == metas.deep_view()[i as int]);
            assert(((i + 1) as nat) == (i as nat) + 1);
        }
        let ghost next = spec_attach_names(metas.deep_view(), (i + 1) as nat);
        let ghost prev = out.deep_view();
        match &metas[i].filename {
            Some(n) => {
                out.push(n.clone());
                proof {
                    assert(out.deep_view() =~~= prev.push(n@));
                    assert(prev.push(n@) =~= prev + seq![n@]);
                    assert(total =~= out.deep_view() + next);
                }
            },
            None => {
                proof {
                    assert(spec_attach_names(metas.deep_view(), i as nat)
                        == Seq::<Seq<char>>::empty() + next);
                    assert(total =~= out.deep_view() + next);
                }
            },
        }
        i = i + 1;
    }
    proof {
        assert(spec_attach_names(metas.deep_view(), i as nat) =~= Seq::<Seq<char>>::empty());
        assert(total =~= out.deep_view());
    }
    out
}

/// Whether the message carries a non-inline attachment.
pub open spec fn spec_has_attachment(metas: Seq<AttachmentMetaView>) -> bool {
    exists|i: int| 0 <= i < metas.len() && !(#[trigger] metas[i]).inline
}

fn has_attachment_exec(metas: &Vec<AttachmentMeta>) -> (r: bool)
    ensures
        r == spec_has_attachment(metas.deep_view()),
{
    let mut i: usize = 0;
    while i < metas.len()
        invariant
            i <= metas@.len(),
            forall|k: int| 0 <= k < i ==> (#[trigger] metas.deep_view()[k]).inline,
        decreases metas@.len() - i,
    {
        proof {
            assert(metas@[i as int]@ == metas.deep_view()[i as int]);
        }
        if !metas[i].inline {
            return true;
        }
        i = i + 1;
    }
    false
}

/// The largest number of header seconds that widens to milliseconds
/// without leaving the range of the stored date.
pub const MAX_DATE_SECS: i64 = 9223372036854775;

/// Header seconds widened to milliseconds, clamped into range.
pub open spec fn spec_secs_to_ms(secs: i64) -> i64 {
    if secs > MAX_DATE_SECS {
        i64::MAX
    } else if secs < -MAX_DATE_SECS {
        i64::MIN
    } else {
        (secs * 1000) as i64
    }
}

fn secs_to_ms(secs: i64) -> (r: i64)
    ensures
        r == spec_secs_to_ms(secs),
{
    if secs > MAX_DATE_SECS {
        i64::MAX
    } else if secs < -MAX_DATE_SECS {
        i64::MIN
    } else {
        secs * 1000
    }
}

/// The document id of a message fetched over IMAP: derived from the
/// account, the mailbox, and the uid.
pub open spec fn imap_envelope_id(account_id: u64, mailbox_id: u64, uid: u64) -> u64 {
    spec_fnv(le8(account_id) + le8(mailbox_id) + le8(uid))
}

/// The document id of an imported message: derived from the account and a
/// content hash of the raw bytes.
pub open spec fn import_envelope_id(account_id: u64, b: Seq<u8>) -> u64 {
    spec_fnv(le8(account_id) + le8(spec_fnv(b)))
}

/// Computes the IMAP-path document id.
pub fn imap_envelope_id_exec(account_id: u64, mailbox_id: u64, uid: u64) -> (r: u64)
    ensures
        r == imap_envelope_id(account_id, mailbox_id, uid),
{
    let mut buf: Vec<u8> = Vec::new();
    push_le_bytes(&mut buf, account_id);
    push_le_bytes(&mut buf, mailbox_id);
    push_le_bytes(&mut buf, uid);
    proof {
        assert(buf@ =~= le8(account_id) + le8(mailbox_id) + le8(uid));
    }
    fnv_hash(buf.as_slice())
}

/// Computes the import-path document id.
pub fn import_envelope_id_exec(account_id: u64, b: &[u8]) -> (r: u64)
    ensures
        r == import_envelope_id(account_id, b@),
{
    let content = fnv_hash(b);
    let mut buf: Vec<u8> = Vec::new();
    push_le_bytes(&mut buf, account_id);
    push_le_bytes(&mut buf, content);
    proof {
        assert(buf@ =~= le8(account_id) + le8(spec_fnv(b@)));
    }
    fnv_hash(buf.as_slice())
}

/// The envelope the extractor yields, as a function of the raw bytes and
/// the fetch attributes. With a zero uid the document id is derived from
/// the content hash, as imports have no uid.
pub open spec fn spec_extracted(
    b: Seq<u8>,
    account_id: u64,
    mailbox_id: u64,
    uid: u64,
    internal_date_ms: Option<i64>,
    size: Option<u64>,
    mailbox_name: Option<Seq<char>>,
) -> EnvelopeView {
    let subject = match subject_of(b) {
        Some(s) => s,
        None => Seq::empty(),
    };
    let date = match date_secs_of(b) {
        Some(s) => spec_secs_to_ms(s),
        None => 0,
    };
    EnvelopeView {
        id: if uid > 0 {
            imap_envelope_id(account_id, mailbox_id, uid)
        } else {
            import_envelope_id(account_id, b)
        },
        account_id,
        mailbox_id,
        uid,
        message_id: match message_id_of(b) {
            Some(m) => m,
            None => Seq::empty(),
        },
        subject,
        text: spec_indexable_text(b, NESTING_DEPTH as nat),
        from: spec_join_addrs(from_of(b)),
        to: spec_join_addrs(to_of(b)),
        cc: spec_join_addrs(cc_of(b)),
        bcc: spec_join_addrs(bcc_of(b)),
        date,
        internal_date: match internal_date_ms {
            Some(m) => m,
            None => date,
        },
        size: match size {
            Some(s) => s,
            None => b.len() as u64,
        },
        thread_id: thread_id_of(b, subject),
        attachments: spec_attach_names(attachments_of(b), 0),
        has_attachment: spec_has_attachment(attachments_of(b)),
        tags: Seq::empty(),
        mailbox_name,
    }
}

/// Extracts an envelope from raw RFC822 bytes together with the IMAP fetch
/// attributes. Fails exactly when the bytes do not parse as a message.
pub fn extract_envelope(
    bytes: &[u8],
    account_id: u64,
    mailbox_id: u64,
    uid: u64,
    internal_date_ms: Option<i64>,
    size: Option<u64>,
    mailbox_name: &Option<String>,
) -> (r: Result<Envelope, BichonError>)
    requires
        bytes@.len() <= u64::MAX,
    ensures
        r is Ok <==> parses_of(bytes@),
        r matches Ok(e) ==> e@ == spec_extracted(
            bytes@,
            account_id,
            mailbox_id,
            uid,
            internal_date_ms,
            size,
            mailbox_name.deep_view(),
        ),
        r matches Err(er) ==> er.code == ErrorCode::InternalError,
{
    if !parse_ok(bytes) {
        return Result::Err(
            BichonError::new(
                ErrorCode::InternalError,
                String::from_str("the bytes do not parse as a message"),
            ),
        );
    }
    let subject = match msg_subject(bytes) {
        Some(s) => s,
        None => String::new(),
    };
    let date = match msg_date_secs(bytes) {
        Some(s) => secs_to_ms(s),
        None => 0,
    };
    let metas = msg_attachments(bytes);
    let id = if uid > 0 {
        imap_envelope_id_exec(account_id, mailbox_id, uid)
    } else {
        import_envelope_id_exec(account_id, bytes)
    };
    let thread_id = thread_id_exec(bytes, &subject);
    let froms = msg_from(bytes);
    let tos = msg_to(bytes);
    let ccs = msg_cc(bytes);
    let bccs = msg_bcc(bytes);
    let mname = match mailbox_name {
        Some(n) => Some(n.clone()),
        None => None,
    };
    let e = Envelope {
        id,
        account_id,
        mailbox_id,
        uid,
        message_id: match msg_message_id(bytes) {
            Some(m) => m,
            None => String::new(),
        },
        subject,
        text: collect_text(bytes, NESTING_DEPTH),
        from: join_addrs(&froms),
        to: join_addrs(&tos),
        cc: join_addrs(&ccs),
        bcc: join_addrs(&bccs),
        date,
        internal_date: match internal_date_ms {
            Some(m) => m,
            None => date,
        },
        size: match size {
            Some(s) => s,
            None => bytes.len() as u64,
        },
        thread_id,
        attachments: attach_names(&metas),
        has_attachment: has_attachment_exec(&metas),
        tags: Vec::new(),
        mailbox_name: mname,
    };
    proof {
        assert(e@.tags =~= Seq::<Seq<char>>::empty());
        assert(e@ == spec_extracted(
            bytes@,
            account_id,
            mailbox_id,
            uid,
            internal_date_ms,
            size,
            mailbox_name.deep_view(),
        ));
    }
    Result::Ok(e)
}

/// Extracts an envelope from imported raw bytes alone: the import path of
/// the MBOX and EML ingest, with no fetch attributes.
pub fn extract_envelope_from_eml(bytes: &[u8], account_id: u64, mailbox_id: u64) -> (r: Result<
    Envelope,
    BichonError,
>)
    requires
        bytes@.len() <= u64::MAX,
    ensures
        r is Ok <==> parses_of(bytes@),
        r matches Ok(e) ==> e@ == spec_extracted(
            bytes@,
            account_id,
            mailbox_id,
            0,
            None,
            None,
            None,
        ),
        r matches Err(er) ==> er.code == ErrorCode::InternalError,
{
    extract_envelope(bytes, account_id, mailbox_id, 0, None, None, &None)
}

/// Computes the thread id from the parsed headers.
pub fn thread_id_exec(b: &[u8], subject: &String) -> (r: u64)
    ensures
        r == thread_id_of(b@, subject@),
{
    let refs = msg_references(b);
    if refs.len() > 0 {
        proof {
            assert(refs@[0]@ == references_of(b@)[0]);
        }
        return fnv_hash(refs[0].as_str().as_bytes());
    }
    let irt = msg_in_reply_to(b);
    match irt {
        Some(r) => fnv_hash(r.as_str().as_bytes()),
        None => {
            let sb = subject.as_str().as_bytes();
            let norm = norm_subject_from(sb, 0);
            let lowered = lower_vec(norm.as_slice());
            proof {
                assert(sb@.subrange(0, sb@.len() as int) =~= sb@);
            }
            fnv_hash(lowered.as_slice())
        },
    }
}

} // verus!
