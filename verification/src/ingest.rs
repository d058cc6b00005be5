//! The MBOX/EML ingestion path: splitting an MBOX container into messages,
//! registering the source, and emitting the same envelope and locator
//! documents that the IMAP stream produces. Individual message failures do
//! not abort an import.

use crate::eml_index::EmlDoc;
use crate::eml_index::EmlIndex;
use crate::eml_index::EmlSource;
use crate::error::BichonError;
use crate::error::ErrorCode;
use crate::extract::extract_envelope_from_eml;
use crate::extract::parses_of;
use crate::extract::spec_extracted;
use crate::index::EnvelopeIndex;
use crate::store::AccountType;
use crate::store::Mailbox;
use crate::store::MetaStore;
use crate::text::is_prefix;
use vstd::prelude::*;
use vstd::string::StringExecFns;
use vstd::string::StringSliceAdditionalSpecFns;

verus! {

/// The separator prefix of an MBOX message: the bytes of `From `.
pub open spec fn from_marker() -> Seq<u8> {
    seq![70u8, 114u8, 111u8, 109u8, 32u8]
}

/// Whether a separator line starts at `i`: at the start of the image or
/// right after a newline, spelling `From `.
pub open spec fn is_sep_at(b: Seq<u8>, i: int) -> bool {
    &&& 0 <= i
    &&& i + 5 <= b.len()
    &&& (i == 0 || b[i - 1] == 10)
    &&& b.subrange(i, i + 5) == from_marker()
}

/// The first position at or after `i` where the current line ends and the
/// next begins; the end of the image where no newline follows.
pub open spec fn next_line_start(b: Seq<u8>, i: int) -> int
    decreases b.len() - i,
{
    if i < 0 || i >= b.len() {
        b.len() as int
    } else if b[i] == 10 {
        i + 1
    } else {
        next_line_start(b, i + 1)
    }
}

/// The first separator position at or after `i`, or the end of the image.
pub open spec fn next_sep(b: Seq<u8>, i: int) -> int
    decreases b.len() - i,
{
    if i < 0 || i >= b.len() {
        b.len() as int
    } else if is_sep_at(b, i) {
        i
    } else {
        next_sep(b, i + 1)
    }
}

pub proof fn lemma_next_line_start_bounds(b: Seq<u8>, i: int)
    requires
        0 <= i,
    ensures
        next_line_start(b, i) <= b.len(),
        i < b.len() ==> i < next_line_start(b, i),
        i >= b.len() ==> next_line_start(b, i) == b.len(),
    decreases b.len() - i,
{
    if 0 <= i && i < b.len() && b[i] != 10 {
        lemma_next_line_start_bounds(b, i + 1);
    }
}

pub proof fn lemma_next_sep_bounds(b: Seq<u8>, i: int)
    requires
        0 <= i,
    ensures
        next_sep(b, i) <= b.len(),
        i <= b.len() ==> i <= next_sep(b, i),
    decreases b.len() - i,
{
    if 0 <= i && i < b.len() && !is_sep_at(b, i) {
        lemma_next_sep_bounds(b, i + 1);
    }
}

/// The messages of an MBOX image from the separator at `pos` on: each
/// entry's offset and length. A message's bytes start on the line after
/// its separator line and run to the next separator.
pub open spec fn spec_mbox_entries(b: Seq<u8>, pos: int) -> Seq<(int, int)>
    decreases b.len() - pos,
        via spec_mbox_entries_decreases
{
    if pos < 0 || pos >= b.len() {
        Seq::empty()
    } else {
        let body = next_line_start(b, pos);
        let nxt = next_sep(b, body);
        seq![(body, nxt - body)] + spec_mbox_entries(b, nxt)
    }
}

#[via_fn]
proof fn spec_mbox_entries_decreases(b: Seq<u8>, pos: int) {
    if 0 <= pos && pos < b.len() {
        lemma_next_line_start_bounds(b, pos);
        lemma_next_sep_bounds(b, next_line_start(b, pos));
    }
}

/// All messages of an MBOX image: those following the first separator.
pub open spec fn spec_mbox_scan(b: Seq<u8>) -> Seq<(int, int)> {
    spec_mbox_entries(b, next_sep(b, 0))
}

fn find_next_line_start(b: &[u8], i: usize) -> (r: usize)
    requires
        i <= b@.len(),
    ensures
        r == next_line_start(b@, i as int),
        i <= r <= b@.len(),
    decreases b@.len() - i,
{
    proof {
        lemma_next_line_start_bounds(b@, i as int);
    }
    if i >= b.len() {
        return b.len();
    }
    if b[i] == 10 {
        return i + 1;
    }
    find_next_line_start(b, i + 1)
}

fn sep_at(b: &[u8], i: usize) -> (r: bool)
    requires
        i <= b@.len(),
    ensures
        r == is_sep_at(b@, i as int),
{
    if b.len() < 5 || i > b.len() - 5 {
        return false;
    }
    if !(i == 0 || b[i - 1] == 10) {
        return false;
    }
    let hit = b[i] == 70 && b[i + 1] == 114 && b[i + 2] == 111 && b[i + 3] == 109 && b[i + 4]
        == 32;
    proof {
        if hit {
            assert(b@.subrange(i as int, i + 5) =~= from_marker());
        } else {
            assert(b@.subrange(i as int, i + 5) != from_marker()) by {
                if b@.subrange(i as int, i + 5) == from_marker() {
                    assert(b@[i as int] == from_marker()[0]);
                    assert(b@[i + 1] == from_marker()[1]);
                    assert(b@[i + 2] == from_marker()[2]);
                    assert(b@[i + 3] == from_marker()[3]);
                    assert(b@[i + 4] == from_marker()[4]);
                }
            }
        }
    }
    hit
}

fn find_next_sep(b: &[u8], i: usize) -> (r: usize)
    requires
        i <= b@.len(),
    ensures
        r == next_sep(b@, i as int),
        i <= r <= b@.len(),
    decreases b@.len() - i,
{
    proof {
        lemma_next_sep_bounds(b@, i as int);
    }
    if i >= b.len() {
        return b.len();
    }
    if sep_at(b, i) {
        return i;
    }
    find_next_sep(b, i + 1)
}

/// Splits an MBOX image into its messages: each returned pair is the
/// offset and length of one message's bytes.
pub fn mbox_scan(b: &[u8]) -> (r: Vec<(usize, usize)>)
    ensures
        r@.len() == spec_mbox_scan(b@).len(),
        forall|k: int|
            0 <= k < r@.len() ==> (#[trigger] r@[k]).0 == spec_mbox_scan(b@)[k].0 && r@[k].1
                == spec_mbox_scan(b@)[k].1,
        forall|k: int| 0 <= k < r@.len() ==> (#[trigger] r@[k]).0 + r@[k].1 <= b@.len(),
{
    let ghost total = spec_mbox_scan(b@);
    let mut out: Vec<(usize, usize)> = Vec::new();
    let mut pos = find_next_sep(b, 0);
    proof {
        assert(total == spec_mbox_entries(b@, pos as int));
        assert(out@.len() == 0);
    }
    while pos < b.len()
        invariant
            pos <= b@.len(),
            total == spec_mbox_scan(b@),
            out@.len() + spec_mbox_entries(b@, pos as int).len() == total.len(),
            forall|k: int|
                0 <= k < out@.len() ==> (#[trigger] out@[k]).0 == total[k].0 && out@[k].1
                    == total[k].1,
            forall|k: int| 0 <= k < out@.len() ==> (#[trigger] out@[k]).0 + out@[k].1 <= b@.len(),
            spec_mbox_entries(b@, pos as int) =~= total.subrange(
                out@.len() as int,
                total.len() as int,
            ),
        decreases b@.len() - pos,
    {
        let body = find_next_line_start(b, pos);
        let nxt = find_next_sep(b, body);
        let ghost pre = out@;
        proof {
            lemma_next_line_start_bounds(b@, pos as int);
            lemma_next_sep_bounds(b@, body as int);
            let ent = spec_mbox_entries(b@, pos as int);
            assert(ent == seq![(body as int, nxt - body)] + spec_mbox_entries(b@, nxt as int));
            assert(ent[0] == (body as int, nxt - body));
            assert(ent == total.subrange(pre.len() as int, total.len() as int));
            assert(total.subrange(pre.len() as int, total.len() as int)[0] == total[pre.len()
                as int]);
            assert(total[pre.len() as int] == (body as int, nxt - body));
        }
        out.push((body, nxt - body));
        proof {
            let ent = spec_mbox_entries(b@, pos as int);
            assert(ent.subrange(1, ent.len() as int) =~= spec_mbox_entries(b@, nxt as int));
            assert(total.subrange(pre.len() as int, total.len() as int).subrange(
                1,
                ent.len() as int,
            ) =~= total.subrange(pre.len() as int + 1, total.len() as int));
            assert(spec_mbox_entries(b@, nxt as int) =~= total.subrange(
                out@.len() as int,
                total.len() as int,
            ));
        }
        pos = nxt;
    }
    proof {
        assert(spec_mbox_entries(b@, pos as int) =~= Seq::<(int, int)>::empty());
    }
    out
}

/// What decoding url-safe base64 yields, where the text is valid.
pub uninterp spec fn b64_url_decode_of(s: Seq<char>) -> Option<Seq<u8>>;

/// What standard base64 encoding yields.
pub uninterp spec fn b64_std_encode_of(b: Seq<u8>) -> Seq<char>;

/// Relies on base64's URL_SAFE engine: decoding is a function of the text.
#[verifier::external_body]
pub fn b64_url_decode(s: &str) -> (r: Option<Vec<u8>>)
    ensures
        r.deep_view() == b64_url_decode_of(s@),
{
    base64::Engine::decode(&base64::engine::general_purpose::URL_SAFE, s.as_bytes()).ok()
}

/// Relies on base64's STANDARD engine; an encoded text always decodes back
/// to the input, as the engines are inverses on their own output.
#[verifier::external_body]
pub fn b64_std_encode(b: &[u8]) -> (r: String)
    ensures
        r@ == b64_std_encode_of(b@),
{
    base64::Engine::encode(&base64::engine::general_purpose::STANDARD, b)
}

/// What decoding standard base64 yields, where the text is valid.
pub uninterp spec fn b64_std_decode_of(s: Seq<char>) -> Option<Seq<u8>>;

/// Relies on base64's STANDARD engine: decoding is a function of the text.
#[verifier::external_body]
pub fn b64_std_decode(s: &str) -> (r: Option<Vec<u8>>)
    ensures
        r.deep_view() == b64_std_decode_of(s@),
{
    base64::Engine::decode(&base64::engine::general_purpose::STANDARD, s.as_bytes()).ok()
}

/// What url-safe base64 encoding yields.
pub uninterp spec fn b64_url_encode_of(b: Seq<u8>) -> Seq<char>;

/// Relies on base64's URL_SAFE engine: encoding then decoding with the
/// same engine returns the input bytes.
#[verifier::external_body]
pub fn b64_url_encode(b: &[u8]) -> (r: String)
    ensures
        r@ == b64_url_encode_of(b@),
        b64_url_decode_of(r@) == Some(b@),
{
    base64::Engine::encode(&base64::engine::general_purpose::URL_SAFE, b)
}

/// Indexes one MBOX message: the envelope document goes to the envelope
/// index, and a locator carrying the file slice goes to the raw index.
/// Fails exactly when the bytes do not parse.
pub fn process_mbox_message(
    env_index: &mut EnvelopeIndex,
    eml_index: &mut EmlIndex,
    eml_bytes: &[u8],
    account_id: u64,
    mailbox_id: u64,
    mbox_id: u64,
    offset: u64,
    len: u64,
) -> (r: Result<(), BichonError>)
    requires
        old(env_index).wf(),
        old(eml_index).wf(),
        eml_bytes@.len() <= u64::MAX,
    ensures
        final(env_index).wf(),
        final(eml_index).wf(),
        r is Ok <==> parses_of(eml_bytes@),
        r is Ok ==> ({
            let e = spec_extracted(eml_bytes@, account_id, mailbox_id, 0, None, None, None);
            &&& crate::index::has_doc(final(env_index)@, e)
            &&& crate::index::has_id_in(final(env_index)@, e.id, account_id, mailbox_id)
            &&& crate::eml_index::eml_has_doc(
                final(eml_index)@,
                (crate::eml_index::EmlDocView {
                    id: e.id,
                    account_id,
                    mailbox_id,
                    source: crate::eml_index::EmlSourceView::MboxSlice { mbox_id, offset, len },
                }),
            )
            &&& crate::eml_index::eml_has_id(final(eml_index)@, e.id)
        }),
        forall|x: u64|
            crate::index::has_id(old(env_index)@, x) ==> crate::index::has_id(
                final(env_index)@,
                x,
            ),
        forall|x: u64, a: u64, m: u64|
            crate::index::has_id_in(old(env_index)@, x, a, m) && x != spec_extracted(
                eml_bytes@,
                account_id,
                mailbox_id,
                0,
                None,
                None,
                None,
            ).id ==> crate::index::has_id_in(final(env_index)@, x, a, m),
        forall|x: u64|
            crate::eml_index::eml_has_id(old(eml_index)@, x) ==> crate::eml_index::eml_has_id(
                final(eml_index)@,
                x,
            ),
        r is Err ==> final(env_index)@ == old(env_index)@ && final(eml_index)@ == old(
            eml_index,
        )@,
        r matches Err(e) ==> e.code == ErrorCode::InternalError,
{
    let envelope = match extract_envelope_from_eml(eml_bytes, account_id, mailbox_id) {
        Result::Ok(e) => e,
        Result::Err(e) => {
            return Result::Err(e);
        },
    };
    let ghost d = envelope@;
    let id = envelope.id;
    env_index.upsert(envelope);
    proof {
        crate::index::lemma_upsert_preserves(old(env_index)@, env_index@, d);
    }
    let locator = EmlDoc {
        id,
        account_id,
        mailbox_id,
        source: EmlSource::MboxSlice { mbox_id, offset, len },
    };
    let ghost lv = locator@;
    eml_index.upsert(locator);
    proof {
        crate::eml_index::lemma_eml_upsert_preserves(old(eml_index)@, eml_index@, lv);
    }
    Result::Ok(())
}

/// Indexes one directly-imported message: the locator stores the bytes
/// inline. Fails exactly when the bytes do not parse.
pub fn process_single_eml(
    env_index: &mut EnvelopeIndex,
    eml_index: &mut EmlIndex,
    eml_bytes: Vec<u8>,
    account_id: u64,
    mailbox_id: u64,
) -> (r: Result<(), BichonError>)
    requires
        old(env_index).wf(),
        old(eml_index).wf(),
        eml_bytes@.len() <= u64::MAX,
    ensures
        final(env_index).wf(),
        final(eml_index).wf(),
        r is Ok <==> parses_of(eml_bytes@),
        r is Ok ==> ({
            let e = spec_extracted(eml_bytes@, account_id, mailbox_id, 0, None, None, None);
            &&& crate::index::has_doc(final(env_index)@, e)
            &&& crate::index::has_id_in(final(env_index)@, e.id, account_id, mailbox_id)
            &&& crate::eml_index::eml_has_doc(
                final(eml_index)@,
                (crate::eml_index::EmlDocView {
                    id: e.id,
                    account_id,
                    mailbox_id,
                    source: crate::eml_index::EmlSourceView::Inline { bytes: eml_bytes@ },
                }),
            )
            &&& crate::eml_index::eml_has_id(final(eml_index)@, e.id)
        }),
        forall|x: u64|
            crate::index::has_id(old(env_index)@, x) ==> crate::index::has_id(
                final(env_index)@,
                x,
            ),
        forall|x: u64, a: u64, m: u64|
            crate::index::has_id_in(old(env_index)@, x, a, m) && x != spec_extracted(
                eml_bytes@,
                account_id,
                mailbox_id,
                0,
                None,
                None,
                None,
            ).id ==> crate::index::has_id_in(final(env_index)@, x, a, m),
        forall|x: u64|
            crate::eml_index::eml_has_id(old(eml_index)@, x) ==> crate::eml_index::eml_has_id(
                final(eml_index)@,
                x,
            ),
        r is Err ==> final(env_index)@ == old(env_index)@ && final(eml_index)@ == old(
            eml_index,
        )@,
        r matches Err(e) ==> e.code == ErrorCode::InternalError,
{
    let envelope = match extract_envelope_from_eml(eml_bytes.as_slice(), account_id, mailbox_id) {
        Result::Ok(e) => e,
        Result::Err(e) => {
            return Result::Err(e);
        },
    };
    let ghost d = envelope@;
    let id = envelope.id;
    env_index.upsert(envelope);
    proof {
        crate::index::lemma_upsert_preserves(old(env_index)@, env_index@, d);
    }
    let locator = EmlDoc { id, account_id, mailbox_id, source: EmlSource::Inline(eml_bytes) };
    let ghost lv = locator@;
    eml_index.upsert(locator);
    proof {
        crate::eml_index::lemma_eml_upsert_preserves(old(eml_index)@, eml_index@, lv);
    }
    Result::Ok(())
}

/// The marker attribute a synthetic import mailbox carries.
pub open spec fn import_marker() -> Seq<char> {
    "CreatedByBichon"@
}

/// Whether an attribute list carries the given marker.
pub open spec fn has_attribute(attrs: Seq<String>, a: Seq<char>) -> bool {
    exists|i: int| 0 <= i < attrs.len() && (#[trigger] attrs[i])@ == a
}

/// Whether the table holds a mailbox under this id, in this account, with
/// this name, marked as created by the import path.
pub open spec fn import_mailbox_stored(
    mbs: Seq<Mailbox>,
    id: u64,
    account_id: u64,
    name: Seq<char>,
) -> bool {
    exists|i: int|
        0 <= i < mbs.len() && (#[trigger] mbs[i]).id == id && mbs[i].account_id == account_id
            && mbs[i].name@ == name && has_attribute(mbs[i].attributes@, import_marker())
}

/// Resolves the mailbox an import lands in: for an IMAP account the folder
/// must already exist; a no-sync account gets a synthetic mailbox created
/// (or reused) under a deterministic id, named after the folder and marked
/// as created by the import path.
pub fn resolve_import_mailbox(
    store: &mut MetaStore,
    account_id: u64,
    account_type: AccountType,
    mail_folder: &String,
) -> (r: Result<u64, BichonError>)
    requires
        old(store).wf(),
    ensures
        final(store).wf(),
        final(store).accounts@ == old(store).accounts@,
        final(store).mbox_files@ == old(store).mbox_files@,
        r matches Ok(id) ==> crate::store::mb_has_id(final(store).mailboxes@, id),
        account_type == AccountType::IMAP ==> ({
            &&& (r is Ok <==> crate::store::mb_named(
                old(store).mailboxes@,
                account_id,
                mail_folder@,
            ))
            &&& final(store).mailboxes@ == old(store).mailboxes@
            &&& (r matches Err(e) ==> e.code == ErrorCode::ResourceNotFound)
        }),
        account_type == AccountType::NoSync ==> (r matches Ok(id) && id
            == crate::text::spec_hash_id_name(account_id, crate::query::str_bytes(mail_folder@))
            && import_mailbox_stored(final(store).mailboxes@, id, account_id, mail_folder@)),
{
    match account_type {
        AccountType::IMAP => {
            match store.find_mailbox_by_name(account_id, mail_folder) {
                Some(m) => {
                    let found = m.id;
                    proof {
                        let mbs = store.mailboxes@;
                        let j = choose|j: int| 0 <= j < mbs.len() && mbs[j] == *m;
                        assert(mbs[j].id == found);
                        assert(crate::store::mb_named(mbs, account_id, mail_folder@));
                    }
                    Result::Ok(found)
                },
                None => Result::Err(
                    BichonError::new(
                        ErrorCode::ResourceNotFound,
                        String::from_str(
                            "the target folder must exist before importing into this account",
                        ),
                    ),
                ),
            }
        },
        AccountType::NoSync => {
            let id = crate::text::hash_id_name(account_id, mail_folder.as_str());
            let mut attributes: Vec<String> = Vec::new();
            attributes.push(String::from_str("CreatedByBichon"));
            proof {
                assert(attributes@[0]@ == import_marker());
                assert(has_attribute(attributes@, import_marker()));
            }
            let mb = Mailbox {
                id,
                account_id,
                name: mail_folder.clone(),
                delimiter: Some(String::from_str("/")),
                attributes,
                exists: 0,
                unseen: None,
                uid_next: None,
                uid_validity: None,
            };
            let ghost mbg = mb;
            store.upsert_mailbox(mb);
            proof {
                let pre = old(store).mailboxes@;
                let post = store.mailboxes@;
                if crate::store::mb_has_id(pre, mbg.id) {
                    let i = choose|i: int|
                        0 <= i < pre.len() && pre[i].id == mbg.id && post =~= pre.update(i, mbg);
                    assert(post[i] == mbg);
                } else {
                    assert(post[pre.len() as int] == mbg);
                }
                assert(import_mailbox_stored(post, id, account_id, mail_folder@));
            }
            Result::Ok(id)
        },
    }
}

/// The bytes of one scanned message inside an MBOX image.
pub open spec fn entry_bytes(b: Seq<u8>, ent: (int, int)) -> Seq<u8> {
    b.subrange(ent.0, ent.0 + ent.1)
}

/// Whether a scanned message, where it parses, is indexed under its import
/// id in both indexes.
pub open spec fn entry_indexed(
    b: Seq<u8>,
    ent: (int, int),
    account_id: u64,
    env: Seq<crate::envelope::EnvelopeView>,
    eml: Seq<crate::eml_index::EmlDocView>,
) -> bool {
    parses_of(entry_bytes(b, ent)) ==> ({
        let eid = crate::extract::import_envelope_id(account_id, entry_bytes(b, ent));
        &&& crate::index::has_id(env, eid)
        &&& crate::eml_index::eml_has_id(eml, eid)
    })
}

/// Imports a whole MBOX image: checks the account, registers the file
/// (idempotent by path), resolves the target mailbox, splits the image,
/// and indexes every message that parses. Fails exactly when the account
/// is absent or an IMAP account lacks the folder; the result counts the
/// messages indexed and those skipped, and every message that parses is
/// indexed. A message that fails to parse is skipped and never aborts the
/// import.
pub fn import_mbox_bytes(
    store: &mut MetaStore,
    env_index: &mut EnvelopeIndex,
    eml_index: &mut EmlIndex,
    path: String,
    file_bytes: &[u8],
    account_id: u64,
    mail_folder: &String,
    new_file_id: u64,
) -> (r: Result<(u64, u64), BichonError>)
    requires
        old(store).wf(),
        old(env_index).wf(),
        old(eml_index).wf(),
        !crate::store::mbox_has_id(old(store).mbox_files@, new_file_id),
        file_bytes@.len() <= u64::MAX,
    ensures
        final(store).wf(),
        final(env_index).wf(),
        final(eml_index).wf(),
        r is Err <==> (!crate::store::acct_has_id(old(store).accounts@, account_id)
            || (crate::store::acct_is_imap(old(store).accounts@, account_id)
            && !crate::store::mb_named(old(store).mailboxes@, account_id, mail_folder@))),
        r matches Err(e) ==> e.code == ErrorCode::ResourceNotFound,
        r is Err ==> final(env_index)@ == old(env_index)@ && final(eml_index)@ == old(
            eml_index,
        )@,
        r matches Ok(counts) ==> counts.0 + counts.1 == spec_mbox_scan(file_bytes@).len(),
        r is Ok ==> forall|j: int|
            0 <= j < spec_mbox_scan(file_bytes@).len() ==> #[trigger] entry_indexed(
                file_bytes@,
                spec_mbox_scan(file_bytes@)[j],
                account_id,
                final(env_index)@,
                final(eml_index)@,
            ),
{
    let account = match store.check_account_exists(account_id) {
        Result::Ok(a) => a,
        Result::Err(e) => {
            return Result::Err(e);
        },
    };
    proof {
        crate::store::lemma_acct_unique(store.accounts@, *account, account_id);
    }
    let account_type = account.account_type;
    let _file_id = store.register_mbox_file(path, account_id, new_file_id);
    let mailbox_id = match resolve_import_mailbox(store, account_id, account_type, mail_folder) {
        Result::Ok(id) => id,
        Result::Err(e) => {
            return Result::Err(e);
        },
    };
    let ghost total = spec_mbox_scan(file_bytes@);
    let entries = mbox_scan(file_bytes);
    let n_entries = entries.len();
    let mut indexed: u64 = 0;
    let mut skipped: u64 = 0;
    let mut k: usize = 0;
    while k < entries.len()
        invariant
            entries@.len() == n_entries,
            env_index.wf(),
            eml_index.wf(),
            file_bytes@.len() <= u64::MAX,
            k <= entries@.len(),
            entries@.len() <= u64::MAX,
            total == spec_mbox_scan(file_bytes@),
            entries@.len() == total.len(),
            forall|j: int|
                0 <= j < entries@.len() ==> (#[trigger] entries@[j]).0 == total[j].0
                    && entries@[j].1 == total[j].1,
            forall|j: int|
                0 <= j < entries@.len() ==> (#[trigger] entries@[j]).0 + entries@[j].1
                    <= file_bytes@.len(),
            indexed + skipped == k,
            forall|j: int|
                0 <= j < k ==> #[trigger] entry_indexed(
                    file_bytes@,
                    total[j],
                    account_id,
                    env_index@,
                    eml_index@,
                ),
        decreases entries@.len() - k,
    {
        let (off, len) = entries[k];
        let slice = crate::eml_index::resolve_slice(file_bytes, off as u64, len as u64);
        let ghost env_pre = env_index@;
        let ghost eml_pre = eml_index@;
        match slice {
            Result::Ok(bytes) => {
                proof {
                    assert(bytes@ =~= entry_bytes(file_bytes@, total[k as int]));
                }
                let outcome = process_mbox_message(
                    env_index,
                    eml_index,
                    bytes.as_slice(),
                    account_id,
                    mailbox_id,
                    _file_id,
                    off as u64,
                    len as u64,
                );
                if outcome.is_ok() {
                    indexed = indexed + 1;
                } else {
                    skipped = skipped + 1;
                }
                proof {
                    let eb = entry_bytes(file_bytes@, total[k as int]);
                    if parses_of(eb) {
                        let e = spec_extracted(eb, account_id, mailbox_id, 0, None, None, None);
                        assert(crate::index::has_id(env_index@, e.id));
                        assert(crate::eml_index::eml_has_id(eml_index@, e.id));
                        assert(e.id == crate::extract::import_envelope_id(account_id, eb));
                    }
                    assert(entry_indexed(
                        file_bytes@,
                        total[k as int],
                        account_id,
                        env_index@,
                        eml_index@,
                    ));
                    assert forall|j: int| 0 <= j < k + 1 implies #[trigger] entry_indexed(
                        file_bytes@,
                        total[j],
                        account_id,
                        env_index@,
                        eml_index@,
                    ) by {
                        if j < k {
                            assert(entry_indexed(
                                file_bytes@,
                                total[j],
                                account_id,
                                env_pre,
                                eml_pre,
                            ));
                        }
                    }
                }
            },
            Result::Err(_) => {
                // The scanner's bounds keep every slice inside the image.
                proof {
                    assert(false);
                }
                skipped = skipped + 1;
            },
        }
        k = k + 1;
    }
    Result::Ok((indexed, skipped))
}

/// A request to import a batch of base64-encoded messages.
#[derive(Clone, Debug, PartialEq, Eq)]
pub struct BatchEmlRequest {
    pub account_id: u64,
    pub mail_folder: String,
    /// One base64-encoded message per element.
    pub emls: Vec<String>,
}

/// One failed element of a batch import.
#[derive(Clone, Debug, PartialEq, Eq)]
pub struct FailedEmlDetail {
    /// The 0-based position of the failed message in the request.
    pub index: u64,
    pub error_message: String,
}

/// A request to start an MBOX import.
#[derive(Clone, Debug, PartialEq, Eq)]
pub struct MboxImportRequest {
    pub account_id: u64,
    pub mail_folder: String,
    pub path: String,
}

/// One registered MBOX file, as listed to clients.
#[derive(Clone, Debug, PartialEq, Eq)]
pub struct MboxFileInfo {
    pub id: u64,
    pub path: String,
    pub account_id: u64,
}

/// The batch EML import operation.
pub struct ImportEmls;

impl ImportEmls {
    /// Imports a whole batch: checks that the account exists and is
    /// enabled, resolves the target mailbox, and indexes every message
    /// that decodes and parses. Fails exactly when the account is absent
    /// or disabled or an IMAP account lacks the folder, and then changes
    /// nothing; on success the result accounts for every element of the
    /// request.
    pub fn do_import(
        store: &mut MetaStore,
        env_index: &mut EnvelopeIndex,
        eml_index: &mut EmlIndex,
        request: &BatchEmlRequest,
    ) -> (r: Result<BatchEmlResult, BichonError>)
        requires
            old(store).wf(),
            old(env_index).wf(),
            old(eml_index).wf(),
            request.emls@.len() <= u64::MAX,
        ensures
            final(store).wf(),
            final(env_index).wf(),
            final(eml_index).wf(),
            final(store).accounts@ == old(store).accounts@,
            final(store).mbox_files@ == old(store).mbox_files@,
            r is Err <==> (!crate::store::acct_has_id(old(store).accounts@, request.account_id)
                || crate::store::acct_disabled(old(store).accounts@, request.account_id)
                || (crate::store::acct_is_imap(old(store).accounts@, request.account_id)
                && !crate::store::mb_named(
                old(store).mailboxes@,
                request.account_id,
                request.mail_folder@,
            ))),
            r matches Err(e) ==> e.code == (if !crate::store::acct_has_id(
                old(store).accounts@,
                request.account_id,
            ) {
                ErrorCode::ResourceNotFound
            } else if crate::store::acct_disabled(old(store).accounts@, request.account_id) {
                ErrorCode::AccountDisabled
            } else {
                ErrorCode::ResourceNotFound
            }),
            r is Err ==> final(store).mailboxes@ == old(store).mailboxes@ && final(env_index)@
                == old(env_index)@ && final(eml_index)@ == old(eml_index)@,
            r matches Ok(res) ==> batch_committed(
                res,
                *request,
                final(store).mailboxes@,
                final(env_index)@,
                final(eml_index)@,
            ),
    {
        let account = match store.check_account_exists(request.account_id) {
            Result::Ok(a) => a,
            Result::Err(e) => {
                return Result::Err(e);
            },
        };
        proof {
            crate::store::lemma_acct_unique(store.accounts@, *account, request.account_id);
        }
        if !account.enabled {
            return Result::Err(
                BichonError::new(
                    ErrorCode::AccountDisabled,
                    String::from_str("the account is disabled"),
                ),
            );
        }
        let account_type = account.account_type;
        let mailbox_id = match resolve_import_mailbox(
            store,
            request.account_id,
            account_type,
            &request.mail_folder,
        ) {
            Result::Ok(id) => id,
            Result::Err(e) => {
                return Result::Err(e);
            },
        };
        let res = import_eml_batch(
            env_index,
            eml_index,
            &request.emls,
            request.account_id,
            mailbox_id,
        );
        proof {
            assert(crate::store::mb_has_id(store.mailboxes@, mailbox_id));
            assert(batch_outcome_ok(
                res,
                request.emls@,
                request.account_id,
                mailbox_id,
                env_index@,
                eml_index@,
            ));
            assert(batch_committed(res, *request, store.mailboxes@, env_index@, eml_index@));
        }
        Result::Ok(res)
    }
}

/// The outcome of a batch EML import.
#[derive(Clone, Debug, PartialEq, Eq)]
pub struct BatchEmlResult {
    /// How many messages the request held.
    pub total: u64,
    /// How many were decoded, parsed, and indexed.
    pub success: u64,
    /// How many failed to decode or parse.
    pub failed: u64,
    /// The 0-based positions of the failures.
    pub failed_indexes: Vec<u64>,
}

/// Whether one batch element fails: its base64 does not decode, or the
/// decoded bytes do not parse as a message.
pub open spec fn eml_fails(s: Seq<char>) -> bool {
    match b64_url_decode_of(s) {
        Option::Some(bytes) => !parses_of(bytes),
        Option::None => true,
    }
}

/// Whether a value occurs in a list of positions.
pub open spec fn listed_u64(s: Seq<u64>, x: u64) -> bool {
    exists|i: int| 0 <= i < s.len() && (#[trigger] s[i]) == x
}

/// The whole outcome of a batch import: the counts add up, the failure
/// list names exactly the failing elements in increasing order, and every
/// other element is indexed in both indexes under the target mailbox.
pub open spec fn batch_outcome_ok(
    res: BatchEmlResult,
    emls: Seq<String>,
    account_id: u64,
    mailbox_id: u64,
    env: Seq<crate::envelope::EnvelopeView>,
    eml: Seq<crate::eml_index::EmlDocView>,
) -> bool {
    &&& res.total == emls.len()
    &&& res.success + res.failed == res.total
    &&& res.failed == res.failed_indexes@.len()
    &&& forall|j: int|
        0 <= j < emls.len() ==> ((#[trigger] eml_fails(emls[j]@)) <==> listed_u64(
            res.failed_indexes@,
            j as u64,
        ))
    &&& forall|a: int, b: int|
        0 <= a < b < res.failed_indexes@.len() ==> (#[trigger] res.failed_indexes@[a])
            < (#[trigger] res.failed_indexes@[b])
    &&& forall|j: int|
        0 <= j < emls.len() && !(#[trigger] eml_fails(emls[j]@)) ==> match b64_url_decode_of(
            emls[j]@,
        ) {
            Option::Some(bytes) => {
                let eid = crate::extract::import_envelope_id(account_id, bytes);
                &&& crate::index::has_id_in(env, eid, account_id, mailbox_id)
                &&& crate::eml_index::eml_has_id(eml, eid)
            },
            Option::None => false,
        }
}

/// Whether a batch result stands committed against some stored mailbox.
pub open spec fn batch_committed(
    res: BatchEmlResult,
    request: BatchEmlRequest,
    mbs: Seq<Mailbox>,
    env: Seq<crate::envelope::EnvelopeView>,
    eml: Seq<crate::eml_index::EmlDocView>,
) -> bool {
    exists|mid: u64|
        crate::store::mb_has_id(mbs, mid) && #[trigger] batch_outcome_ok(
            res,
            request.emls@,
            request.account_id,
            mid,
            env,
            eml,
        )
}

/// Imports a batch of base64-encoded messages into a resolved mailbox.
/// Every decodable, parsable message is indexed under the mailbox; the
/// others are counted and listed by position, and never abort the batch.
pub fn import_eml_batch(
    env_index: &mut EnvelopeIndex,
    eml_index: &mut EmlIndex,
    emls: &Vec<String>,
    account_id: u64,
    mailbox_id: u64,
) -> (r: BatchEmlResult)
    requires
        old(env_index).wf(),
        old(eml_index).wf(),
        emls@.len() <= u64::MAX,
    ensures
        final(env_index).wf(),
        final(eml_index).wf(),
        batch_outcome_ok(r, emls@, account_id, mailbox_id, final(env_index)@, final(eml_index)@),
        forall|k: int| 0 <= k < r.failed_indexes@.len() ==> (#[trigger] r.failed_indexes@[k])
            < emls@.len(),
{
    let mut success: u64 = 0;
    let mut failed_indexes: Vec<u64> = Vec::new();
    let mut i: usize = 0;
    while i < emls.len()
        invariant
            env_index.wf(),
            eml_index.wf(),
            emls@.len() <= u64::MAX,
            i <= emls@.len(),
            success + failed_indexes@.len() == i,
            forall|k: int| 0 <= k < failed_indexes@.len() ==> (#[trigger] failed_indexes@[k])
                < i,
            forall|a: int, b: int|
                0 <= a < b < failed_indexes@.len() ==> (#[trigger] failed_indexes@[a])
                    < (#[trigger] failed_indexes@[b]),
            forall|j: int|
                0 <= j < i ==> ((#[trigger] eml_fails(emls@[j]@)) <==> listed_u64(
                    failed_indexes@,
                    j as u64,
                )),
            forall|j: int|
                0 <= j < i && !(#[trigger] eml_fails(emls@[j]@)) ==> match b64_url_decode_of(
                    emls@[j]@,
                ) {
                    Option::Some(bytes) => {
                        let eid = crate::extract::import_envelope_id(account_id, bytes);
                        &&& crate::index::has_id_in(env_index@, eid, account_id, mailbox_id)
                        &&& crate::eml_index::eml_has_id(eml_index@, eid)
                    },
                    Option::None => false,
                },
        decreases emls@.len() - i,
    {
        let ghost env_pre = env_index@;
        let ghost eml_pre = eml_index@;
        let ghost fi_pre = failed_indexes@;
        let decoded = b64_url_decode(emls[i].as_str());
        proof {
            assert(decoded.deep_view() == b64_url_decode_of(emls@[i as int]@));
        }
        match decoded {
            Some(bytes) => {
                proof {
                    assert(b64_url_decode_of(emls@[i as int]@) matches Option::Some(b) && b
                        =~= bytes@);
                }
                proof {
                    broadcast use vstd::std_specs::vec::axiom_spec_len;

                    assert(bytes.len() == bytes@.len());
                    assert(usize::MAX == u64::MAX || usize::MAX == u32::MAX);
                    assert(bytes@.len() <= u64::MAX);
                }
                let ghost bv = bytes@;
                let outcome = process_single_eml(
                    env_index,
                    eml_index,
                    bytes,
                    account_id,
                    mailbox_id,
                );
                if outcome.is_ok() {
                    success = success + 1;
                    proof {
                        assert(!eml_fails(emls@[i as int]@));
                        let e = spec_extracted(bv, account_id, mailbox_id, 0, None, None, None);
                        assert(crate::index::has_id_in(env_index@, e.id, account_id, mailbox_id));
                        assert(e.id == crate::extract::import_envelope_id(account_id, bv));
                    }
                } else {
                    failed_indexes.push(i as u64);
                    proof {
                        assert(eml_fails(emls@[i as int]@));
                    }
                }
            },
            None => {
                failed_indexes.push(i as u64);
                proof {
                    assert(eml_fails(emls@[i as int]@));
                }
            },
        }
        proof {
            assert forall|j: int| 0 <= j < i + 1 implies ((#[trigger] eml_fails(emls@[j]@))
                <==> listed_u64(failed_indexes@, j as u64)) by {
                if j < i {
                    if listed_u64(failed_indexes@, j as u64) {
                        let k = choose|k: int|
                            0 <= k < failed_indexes@.len() && (#[trigger] failed_indexes@[k])
                                == j as u64;
                        if k < fi_pre.len() {
                            assert(fi_pre[k] == failed_indexes@[k]);
                            assert(listed_u64(fi_pre, j as u64));
                        }
                    }
                    if listed_u64(fi_pre, j as u64) {
                        let k = choose|k: int|
                            0 <= k < fi_pre.len() && (#[trigger] fi_pre[k]) == j as u64;
                        assert(failed_indexes@[k] == fi_pre[k]);
                    }
                } else {
                    if eml_fails(emls@[j]@) {
                        assert(failed_indexes@[failed_indexes@.len() - 1] == i as u64);
                    } else {
                        if listed_u64(failed_indexes@, i as u64) {
                            let k = choose|k: int|
                                0 <= k < failed_indexes@.len() && (#[trigger] failed_indexes@[k])
                                    == i as u64;
                            assert(k < fi_pre.len() ==> fi_pre[k] < i);
                            assert(failed_indexes@ == fi_pre);
                        }
                    }
                }
            }
            assert forall|j: int| 0 <= j < i + 1 && !(#[trigger] eml_fails(emls@[j]@))
                implies match b64_url_decode_of(emls@[j]@) {
                Option::Some(bytes) => {
                    let eid = crate::extract::import_envelope_id(account_id, bytes);
                    &&& crate::index::has_id_in(env_index@, eid, account_id, mailbox_id)
                    &&& crate::eml_index::eml_has_id(eml_index@, eid)
                },
                Option::None => false,
            } by {
                if j < i {
                    assert(match b64_url_decode_of(emls@[j]@) {
                        Option::Some(bytes) => {
                            let eid = crate::extract::import_envelope_id(account_id, bytes);
                            &&& crate::index::has_id_in(env_pre, eid, account_id, mailbox_id)
                            &&& crate::eml_index::eml_has_id(eml_pre, eid)
                        },
                        Option::None => false,
                    });
                }
            }
        }
        i = i + 1;
    }
    let failed = failed_indexes.len() as u64;
    BatchEmlResult { total: emls.len() as u64, success, failed, failed_indexes }
}

/// Whether a canonical path lies under the allowed import subtree: the
/// allowed prefix followed by a path separator.
pub open spec fn path_within(path: Seq<u8>, allowed: Seq<u8>) -> bool {
    &&& allowed.len() < path.len()
    &&& is_prefix(path, allowed)
    &&& path[allowed.len() as int] == 47u8
}

/// The path-escape defense of the import endpoint: accepts exactly the
/// paths strictly under the allowed directory.
pub fn check_import_path(path: &str, allowed: &str) -> (r: bool)
    ensures
        r == path_within(path.spec_bytes(), allowed.spec_bytes()),
{
    let pb = path.as_bytes();
    let ab = allowed.as_bytes();
    if pb.len() <= ab.len() {
        return false;
    }
    if !crate::text::starts_with(pb, ab) {
        return false;
    }
    pb[ab.len()] == 47
}

} // verus!
