//! The indexed document model: envelopes, addresses, attachment metadata,
//! and the page shape that read operations return.

use vstd::prelude::*;
use vstd::string::StringExecFns;

verus! {

/// One parsed mailbox address: optional display name, optional address.
#[derive(Clone, Debug, PartialEq, Eq)]
pub struct Addr {
    pub name: Option<String>,
    pub address: Option<String>,
}

/// How one address renders: `Name <addr>`, `<addr>`, `Name`, or empty.
pub open spec fn addr_display(a: AddrView) -> Seq<char> {
    match (a.name, a.address) {
        (Some(n), Some(ad)) => n + " <"@ + ad + ">"@,
        (None, Some(ad)) => "<"@ + ad + ">"@,
        (Some(n), None) => n,
        (None, None) => Seq::empty(),
    }
}

impl Addr {
    /// Renders the address as `Name <addr>`, `<addr>`, `Name`, or empty.
    pub fn to_display_string(&self) -> (r: String)
        ensures
            r@ == addr_display(self@),
    {
        let mut out = String::new();
        match (&self.name, &self.address) {
            (Some(name), Some(address)) => {
                out.append(name.as_str());
                out.append(" <");
                out.append(address.as_str());
                out.append(">");
                proof {
                    assert(out@ =~= addr_display(self@));
                }
            },
            (None, Some(address)) => {
                out.append("<");
                out.append(address.as_str());
                out.append(">");
                proof {
                    assert(out@ =~= addr_display(self@));
                }
            },
            (Some(name), None) => {
                out.append(name.as_str());
                proof {
                    assert(out@ =~= addr_display(self@));
                }
            },
            (None, None) => {
                proof {
                    assert(out@ =~= addr_display(self@));
                }
            },
        }
        out
    }
}

/// The mathematical value of an address.
pub ghost struct AddrView {
    pub name: Option<Seq<char>>,
    pub address: Option<Seq<char>>,
}

impl View for Addr {
    type V = AddrView;

    open spec fn view(&self) -> AddrView {
        AddrView { name: self.name.deep_view(), address: self.address.deep_view() }
    }
}

impl DeepView for Addr {
    type V = AddrView;

    open spec fn deep_view(&self) -> AddrView {
        self.view()
    }
}

/// A flattened list of addresses: group members are expanded.
#[derive(Clone, Debug, PartialEq, Eq)]
pub struct AddrVec(pub Vec<Addr>);

impl AddrVec {
    pub fn items(&self) -> &Vec<Addr> {
        &self.0
    }
}

/// Metadata of one attachment of a message.
#[derive(Clone, Debug, PartialEq, Eq)]
pub struct AttachmentInfo {
    /// MIME content type, as `type/subtype`.
    pub file_type: String,
    /// Whether the part is inline rather than a regular file.
    pub inline: bool,
    /// Attachment filename.
    pub filename: String,
    /// Size of the decoded content in bytes.
    pub size: usize,
    pub content_id: Option<String>,
}

/// Body content of a message, with its attachment list.
#[derive(Clone, Debug, PartialEq, Eq)]
pub struct FullMessageContent {
    pub text: Option<String>,
    pub html: Option<String>,
    pub attachments: Option<Vec<AttachmentInfo>>,
}

/// One envelope document of the metadata index.
#[derive(Clone, Debug, PartialEq, Eq)]
pub struct Envelope {
    /// Primary identity of the document.
    pub id: u64,
    pub account_id: u64,
    pub mailbox_id: u64,
    pub uid: u64,
    pub message_id: String,
    pub subject: String,
    /// The indexable text: body text plus text of nested messages and
    /// decoded text attachments.
    pub text: String,
    pub from: String,
    pub to: String,
    pub cc: String,
    pub bcc: String,
    /// Header date, in milliseconds since the epoch.
    pub date: i64,
    /// Server-reported internal date, in milliseconds since the epoch.
    pub internal_date: i64,
    pub size: u64,
    pub thread_id: u64,
    /// Attachment filenames.
    pub attachments: Vec<String>,
    /// Whether the message carries at least one non-inline attachment.
    pub has_attachment: bool,
    /// Hierarchical facet tags, such as `/work/urgent`.
    pub tags: Vec<String>,
    /// The folder the message was found in, where known.
    pub mailbox_name: Option<String>,
}

/// The mathematical value of an envelope document.
pub ghost struct EnvelopeView {
    pub id: u64,
    pub account_id: u64,
    pub mailbox_id: u64,
    pub uid: u64,
    pub message_id: Seq<char>,
    pub subject: Seq<char>,
    pub text: Seq<char>,
    pub from: Seq<char>,
    pub to: Seq<char>,
    pub cc: Seq<char>,
    pub bcc: Seq<char>,
    pub date: i64,
    pub internal_date: i64,
    pub size: u64,
    pub thread_id: u64,
    pub attachments: Seq<Seq<char>>,
    pub has_attachment: bool,
    pub tags: Seq<Seq<char>>,
    pub mailbox_name: Option<Seq<char>>,
}

impl View for Envelope {
    type V = EnvelopeView;

    open spec fn view(&self) -> EnvelopeView {
        EnvelopeView {
            id: self.id,
            account_id: self.account_id,
            mailbox_id: self.mailbox_id,
            uid: self.uid,
            message_id: self.message_id@,
            subject: self.subject@,
            text: self.text@,
            from: self.from@,
            to: self.to@,
            cc: self.cc@,
            bcc: self.bcc@,
            date: self.date,
            internal_date: self.internal_date,
            size: self.size,
            thread_id: self.thread_id,
            attachments: self.attachments.deep_view(),
            has_attachment: self.has_attachment,
            tags: self.tags.deep_view(),
            mailbox_name: self.mailbox_name.deep_view(),
        }
    }
}

impl DeepView for Envelope {
    type V = EnvelopeView;

    open spec fn deep_view(&self) -> EnvelopeView {
        self.view()
    }
}

impl Envelope {
    /// A copy carrying the same mathematical value.
    pub fn duplicate(&self) -> (r: Envelope)
        ensures
            r@ == self@,
    {
        let mailbox_name = match &self.mailbox_name {
            Some(n) => Some(n.clone()),
            None => None,
        };
        let r = Envelope {
            id: self.id,
            account_id: self.account_id,
            mailbox_id: self.mailbox_id,
            uid: self.uid,
            message_id: self.message_id.clone(),
            subject: self.subject.clone(),
            text: self.text.clone(),
            from: self.from.clone(),
            to: self.to.clone(),
            cc: self.cc.clone(),
            bcc: self.bcc.clone(),
            date: self.date,
            internal_date: self.internal_date,
            size: self.size,
            thread_id: self.thread_id,
            attachments: clone_string_vec(&self.attachments),
            has_attachment: self.has_attachment,
            tags: clone_string_vec(&self.tags),
            mailbox_name,
        };
        r
    }
}

/// Copies a vector of strings, preserving its deep view.
pub fn clone_string_vec(v: &Vec<String>) -> (r: Vec<String>)
    ensures
        r.deep_view() == v.deep_view(),
{
    let mut out: Vec<String> = Vec::new();
    let mut i: usize = 0;
    while i < v.len()
        invariant
            i <= v@.len(),
            out.deep_view() == v.deep_view().subrange(0, i as int),
        decreases v@.len() - i,
    {
        let ghost prev = out.deep_view();
        out.push(v[i].clone());
        proof {
            assert(out.deep_view() =~~= prev.push(v.deep_view()[i as int]));
            assert(prev.push(v.deep_view()[i as int]) =~~= v.deep_view().subrange(0, i + 1));
        }
        i = i + 1;
    }
    proof {
        assert(v.deep_view().subrange(0, v.deep_view().len() as int) =~= v.deep_view());
        assert(out.deep_view() =~~= v.deep_view());
    }
    out
}

/// One page of a paginated result.
#[derive(Clone, Debug, PartialEq, Eq)]
pub struct DataPage<T> {
    pub current_page: Option<u64>,
    pub page_size: Option<u64>,
    pub total_items: u64,
    pub total_pages: Option<u64>,
    pub items: Vec<T>,
}

} // verus!
