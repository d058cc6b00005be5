use bichon::eml_index::EmlIndex;
use bichon::eml_index::EmlSource;
use bichon::extract::msg_attachment_data;
use bichon::index::EnvelopeIndex;
use bichon::ingest::import_mbox_bytes;
use bichon::ingest::mbox_scan;
use bichon::mbox_mock::generate_comprehensive_mbox;
use bichon::message::find_attachment;
use bichon::query::SearchFilter;
use bichon::store::Account;
use bichon::store::AccountType;
use bichon::store::MetaStore;

fn test_account(id: u64) -> Account {
    Account {
        id,
        email: "test@example.com".to_string(),
        name: None,
        enabled: true,
        account_type: AccountType::NoSync,
        date_since: None,
        date_before: None,
        sync_folders: None,
        known_folders: Vec::new(),
        sync_interval_min: None,
        sync_batch_size: None,
        encrypted_password: None,
        created_at: 0,
        updated_at: 0,
        created_by: 1,
    }
}

fn small_mbox() -> String {
    format!(
        "From MAILER-DAEMON Fri Jul  8 12:08:34 2011\n\
         From: John Doe <john.doe@example.com>\n\
         To: Mary Roe <mary.roe@example.com>\n\
         Subject: Sample message 1\n\
         Date: Fri, 8 Jul 2011 12:08:34 -0500\n\
         \n\
         This is a sample message.\n\
         From MAILER-DAEMON Fri Jul  8 12:08:34 2011\n\
         From: John Doe <john.doe@example.com>\n\
         To: Mary Roe <mary.roe@example.com>\n\
         Subject: Sample message 2 with attachment\n\
         Date: Fri, 8 Jul 2011 12:08:35 -0500\n\
         Content-Type: multipart/mixed; boundary=\"boundary\"\n\
         \n\
         --boundary\n\
         Content-Type: text/plain; charset=us-ascii\n\
         \n\
         This is a sample message with an attachment.\n\
         --boundary\n\
         Content-Type: text/plain; charset=us-ascii\n\
         Content-Disposition: attachment; filename=\"test.txt\"\n\
         \n\
         This is the attachment.\n\
         --boundary--\n"
    )
}

#[test]
fn import_mbox_with_attachment() {
    let mut store = MetaStore::new();
    let mut env_index = EnvelopeIndex::new();
    let mut eml_index = EmlIndex::new();
    store.insert_account(test_account(1)).unwrap();

    let mbox = small_mbox();
    let bytes = mbox.as_bytes();
    let (indexed, skipped) = import_mbox_bytes(
        &mut store,
        &mut env_index,
        &mut eml_index,
        "fixtures/small.mbox".to_string(),
        bytes,
        1,
        &"imported_from_mbox".to_string(),
        77,
    )
    .unwrap();
    assert_eq!(indexed, 2, "Expected to find 2 messages");
    assert_eq!(skipped, 0);

    // Searching the account returns both envelopes.
    let filter = SearchFilter {
        account_id: Some(1),
        ..SearchFilter::match_all()
    };
    let page = env_index.search(&filter, 1, 10, true, &None).unwrap();
    assert_eq!(page.total_items, 2);

    // Exactly one envelope reports an attachment.
    let with_attachment: Vec<_> = page.items.iter().filter(|e| e.has_attachment).collect();
    assert_eq!(with_attachment.len(), 1);
    let envelope = with_attachment[0];
    assert_eq!(envelope.attachments, vec!["test.txt".to_string()]);

    // The locator points back into the file; its slice holds the message,
    // and the attachment decodes to the expected bytes.
    let doc = eml_index.get(1, envelope.id).unwrap();
    let raw = match doc.source {
        EmlSource::MboxSlice { offset, len, .. } => {
            bytes[offset as usize..(offset + len) as usize].to_vec()
        }
        EmlSource::Inline(b) => b,
    };
    let idx = find_attachment(&raw, &"test.txt".to_string()).expect("Did not find the attachment");
    let content = msg_attachment_data(&raw, idx).unwrap();
    assert_eq!(content, b"This is the attachment.");
}

#[test]
fn comprehensive_mbox_import_and_search() {
    let mut store = MetaStore::new();
    let mut env_index = EnvelopeIndex::new();
    let mut eml_index = EmlIndex::new();
    store.insert_account(test_account(1)).unwrap();

    let mbox = generate_comprehensive_mbox();
    let (indexed, skipped) = import_mbox_bytes(
        &mut store,
        &mut env_index,
        &mut eml_index,
        "fixtures/comprehensive.mbox".to_string(),
        mbox.as_bytes(),
        1,
        &"comprehensive_test".to_string(),
        78,
    )
    .unwrap();
    assert_eq!(indexed, 7, "Expected 7 messages in mbox file");
    assert_eq!(skipped, 0);

    let text_query = |needle: &str| SearchFilter {
        account_id: Some(1),
        text: Some(needle.to_string()),
        ..SearchFilter::match_all()
    };
    for keyword in [
        "quarterly report",
        "deployment",
        "legal review",
        "brand redesign",
        "financial planning",
        "microservices design",
        // the nested message/rfc822 body stays searchable
        "patent application",
    ] {
        let page = env_index.search(&text_query(keyword), 1, 10, true, &None).unwrap();
        assert!(
            page.total_items >= 1,
            "Should find keyword '{}' in the imported mail",
            keyword
        );
    }

    // Search by exact sender string.
    let from_query = SearchFilter {
        from: Some("<alice@example.com>".to_string()),
        ..SearchFilter::match_all()
    };
    let page = env_index.search(&from_query, 1, 10, true, &None).unwrap();
    assert_eq!(page.total_items, 1);

    // Attachment detection across the fixture set.
    let attach_query = SearchFilter {
        account_id: Some(1),
        has_attachment: Some(true),
        ..SearchFilter::match_all()
    };
    let page = env_index.search(&attach_query, 1, 10, true, &None).unwrap();
    assert!(page.total_items >= 4, "Should find multiple emails with attachments");
}

#[test]
fn mbox_scan_counts_messages() {
    let mbox = small_mbox();
    let entries = mbox_scan(mbox.as_bytes());
    assert_eq!(entries.len(), 2);
    // Each entry's slice starts right after its separator line.
    let (off, len) = entries[0];
    let first = &mbox.as_bytes()[off..off + len];
    assert!(first.starts_with(b"From: John Doe"));
}
