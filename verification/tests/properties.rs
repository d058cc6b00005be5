use bichon::auth::has_permission;
use bichon::auth::allowed_accounts_for;
use bichon::auth::AccessToken;
use bichon::auth::Permission;
use bichon::auth::RateLimiter;
use bichon::auth::Role;
use bichon::auth::RoleType;
use bichon::auth::TokenType;
use bichon::auth::User;
use bichon::auth::check_token;
use bichon::auth::TokenDecision;
use bichon::envelope::Envelope;
use bichon::index::EnvelopeIndex;
use bichon::stats::DAY_MS;
use bichon::stats::WINDOW_MS;
use bichon::sync::catchup_start_uid;
use bichon::sync::fetch_range;
use bichon::sync::generate_uid_batches;
use bichon::sync::progress_sequence;
use bichon::sync::uid_validity_reset_needed;
use bichon::sync::SyncController;
use bichon::sync::commit_batch_if_running;
use bichon::query::SearchFilter;

fn envelope(id: u64, account: u64, mailbox: u64, uid: u64, date: i64, size: u64) -> Envelope {
    Envelope {
        id,
        account_id: account,
        mailbox_id: mailbox,
        uid,
        message_id: format!("<{}@example.com>", id),
        subject: format!("message {}", id),
        text: "body text".to_string(),
        from: "<sender@example.com>".to_string(),
        to: "<rcpt@example.com>".to_string(),
        cc: String::new(),
        bcc: String::new(),
        date,
        internal_date: date,
        size,
        thread_id: 7,
        attachments: Vec::new(),
        has_attachment: false,
        tags: Vec::new(),
        mailbox_name: Some("INBOX".to_string()),
    }
}

// Idempotent re-index: writing d1 then d2 under one id stores exactly d2.
#[test]
fn reindex_same_id_keeps_last_write() {
    let mut index = EnvelopeIndex::new();
    let d1 = envelope(42, 1, 1, 5, 1000, 10);
    let mut d2 = envelope(42, 1, 1, 5, 1000, 10);
    d2.subject = "rewritten".to_string();
    index.upsert(d1);
    index.upsert(d2);
    assert_eq!(index.docs.len(), 1);
    assert_eq!(index.docs[0].subject, "rewritten");
}

// Order stability: a mailbox listing is monotone in internal date.
#[test]
fn mailbox_listing_is_date_ordered() {
    let mut index = EnvelopeIndex::new();
    for (id, date) in [(1u64, 300i64), (2, 100), (3, 200), (4, 200)] {
        index.upsert(envelope(id, 1, 9, id, date, 10));
    }
    let desc = index.list_mailbox_envelopes(1, 9, 1, 10, true).unwrap();
    let dates: Vec<i64> = desc.items.iter().map(|e| e.internal_date).collect();
    for w in dates.windows(2) {
        assert!(w[0] >= w[1]);
    }
    let asc = index.list_mailbox_envelopes(1, 9, 1, 10, false).unwrap();
    let dates: Vec<i64> = asc.items.iter().map(|e| e.internal_date).collect();
    for w in dates.windows(2) {
        assert!(w[0] <= w[1]);
    }
}

// Filter composition over disjoint fields equals the intersection.
#[test]
fn disjoint_filters_intersect() {
    let mut index = EnvelopeIndex::new();
    for (id, account, size) in [(1u64, 1u64, 10u64), (2, 1, 90), (3, 2, 90)] {
        index.upsert(envelope(id, account, 1, id, 100, size));
    }
    let f1 = SearchFilter { account_id: Some(1), ..SearchFilter::match_all() };
    let f2 = SearchFilter { min_size: Some(50), ..SearchFilter::match_all() };
    let combined = SearchFilter {
        account_id: Some(1),
        min_size: Some(50),
        ..SearchFilter::match_all()
    };
    let r1: Vec<u64> = index.search(&f1, 1, 10, true, &None).unwrap().items.iter().map(|e| e.id).collect();
    let r2: Vec<u64> = index.search(&f2, 1, 10, true, &None).unwrap().items.iter().map(|e| e.id).collect();
    let rc: Vec<u64> = index.search(&combined, 1, 10, true, &None).unwrap().items.iter().map(|e| e.id).collect();
    let intersection: Vec<u64> = r1.iter().copied().filter(|x| r2.contains(x)).collect();
    assert_eq!(rc, intersection);
    assert_eq!(rc, vec![2]);
}

// UID monotonicity: the max aggregation dominates every indexed uid.
#[test]
fn max_uid_dominates() {
    let mut index = EnvelopeIndex::new();
    for uid in [3u64, 11, 7] {
        index.upsert(envelope(uid, 1, 2, uid, 100, 10));
    }
    assert_eq!(index.get_max_uid(1, 2), Some(11));
    assert_eq!(index.get_max_uid(1, 3), None);
    assert_eq!(catchup_start_uid(Some(11)), 12);
    assert_eq!(catchup_start_uid(None), 1);
}

// Cancellation: a stopped account's drain commits nothing.
#[test]
fn stopped_sync_commits_nothing() {
    let mut controller = SyncController::new();
    assert!(controller.trigger_start(5));
    assert!(!controller.trigger_start(5)); // idempotent: at most one worker
    controller.stop(5);
    let mut index = EnvelopeIndex::new();
    let batch = vec![envelope(1, 5, 1, 1, 100, 10)];
    let committed = commit_batch_if_running(&controller, 5, &mut index, batch);
    assert!(!committed);
    assert_eq!(index.docs.len(), 0);
}

// Rate limit: at most the quota per sliding window, and rejections carry
// a positive wait.
#[test]
fn sliding_window_rate_limit() {
    let mut limiter = RateLimiter::new(2, 10);
    assert!(limiter.check(1_000).is_ok());
    assert!(limiter.check(2_000).is_ok());
    let rejected = limiter.check(3_000);
    match rejected {
        Err(wait) => assert!(wait > 0),
        Ok(_) => panic!("the third request inside the window must be rejected"),
    }
    // Once the window slides past the first two, a request is admitted.
    assert!(limiter.check(12_500).is_ok());
}

// Permission filter: a user with data access only on account 7 searches
// without an account filter and sees only account 7.
#[test]
fn search_respects_account_permissions() {
    let roles = vec![Role {
        id: 40,
        name: "reader".to_string(),
        role_type: RoleType::Account,
        permissions: vec![Permission::DataRead],
    }];
    let user = User {
        id: 9,
        username: "reader".to_string(),
        email: "reader@example.com".to_string(),
        password: None,
        global_roles: Vec::new(),
        account_access_map: vec![(7, 40)],
        ip_whitelist: None,
        rate_limit: None,
        created_at: 0,
        updated_at: 0,
    };
    assert!(has_permission(&roles, &user, Some(7), Permission::DataRead));
    assert!(!has_permission(&roles, &user, Some(8), Permission::DataRead));
    assert!(!has_permission(&roles, &user, None, Permission::DataReadAll));

    let allowed = allowed_accounts_for(&roles, &user);
    assert_eq!(allowed, Some(vec![7]));

    let mut index = EnvelopeIndex::new();
    index.upsert(envelope(1, 7, 1, 1, 100, 10));
    index.upsert(envelope(2, 8, 1, 1, 100, 10));
    let page = index
        .search(&SearchFilter::match_all(), 1, 10, true, &allowed)
        .unwrap();
    assert_eq!(page.total_items, 1);
    assert!(page.items.iter().all(|e| e.account_id == 7));
}

// Dashboard histogram: day buckets count the day's documents.
#[test]
fn dashboard_histogram_buckets() {
    let now: i64 = (WINDOW_MS as i64) + 10 * DAY_MS as i64 + 500;
    let day = DAY_MS as i64;
    let d = (now / day) * day; // today's bucket start
    let mut index = EnvelopeIndex::new();
    let mut id = 1u64;
    for _ in 0..3 {
        index.upsert(envelope(id, 1, 1, id, d - day + 5, 10));
        id += 1;
    }
    for _ in 0..5 {
        index.upsert(envelope(id, 1, 1, id, d + 5, 10));
        id += 1;
    }
    let stats = index.get_dashboard_stats(now, &vec![(1, "a@example.com".to_string())]);
    let prev = stats
        .recent_activity
        .iter()
        .find(|b| b.timestamp_ms == d - day)
        .expect("bucket for the previous day");
    assert_eq!(prev.count, 3);
    let today = stats
        .recent_activity
        .iter()
        .find(|b| b.timestamp_ms == d)
        .expect("bucket for today");
    assert_eq!(today.count, 5);
    assert_eq!(stats.total_size_bytes, 80);
    assert_eq!(stats.with_attachment_count, 0);
    assert_eq!(stats.without_attachment_count, 8);
    assert_eq!(stats.top_senders.len(), 1);
    assert_eq!(stats.top_senders[0].count, 8);
    assert_eq!(stats.top_accounts[0].key, "a@example.com");
}

// Large catch-up progress: strictly increasing from one to the count.
#[test]
fn progress_is_strictly_increasing() {
    let seq = progress_sequence(6);
    assert_eq!(seq, vec![1, 2, 3, 4, 5, 6]);
    for w in seq.windows(2) {
        assert!(w[0] < w[1]);
    }
}

// The batching policy collapses runs and caps batch sizes.
#[test]
fn uid_batches_collapse_runs() {
    let uids: Vec<u32> = vec![1, 2, 3, 4, 5, 6, 10, 11, 20];
    let batches = generate_uid_batches(&uids, 4);
    // Flattening the ranges gives back exactly the input.
    let mut flat: Vec<u32> = Vec::new();
    for batch in &batches {
        let mut count = 0u32;
        for (a, b) in batch {
            for u in *a..=*b {
                flat.push(u);
            }
            count += b - a + 1;
        }
        assert!(count <= 4);
    }
    assert_eq!(flat, uids);
    for batch in &batches[..batches.len() - 1] {
        let count: u32 = batch.iter().map(|(a, b)| b - a + 1).sum();
        assert_eq!(count, 4);
    }
    // Contiguous runs inside one batch collapse to a single range.
    assert_eq!(batches[0], vec![(1, 4)]);
}

// The uid-validity reset rule and fetch window arithmetic.
#[test]
fn sync_decisions() {
    assert!(uid_validity_reset_needed(Some(3), Some(4)));
    assert!(!uid_validity_reset_needed(Some(3), Some(3)));
    assert!(!uid_validity_reset_needed(None, Some(3)));

    assert_eq!(fetch_range(10, 1, 4, true), Some((7, 10)));
    assert_eq!(fetch_range(10, 3, 4, true), Some((1, 2)));
    assert_eq!(fetch_range(10, 4, 4, true), None);
    assert_eq!(fetch_range(10, 1, 4, false), Some((1, 4)));
    assert_eq!(fetch_range(10, 3, 4, false), Some((9, 10)));
    assert_eq!(fetch_range(0, 1, 4, true), None);
}

// Token expiry: browser tokens by age, API tokens by instant.
#[test]
fn token_expiry_rules() {
    let web = AccessToken {
        token: "t1".to_string(),
        user_id: 1,
        name: None,
        token_type: TokenType::WebUI,
        created_at: 1_000,
        updated_at: 1_000,
        expire_at: None,
        last_access_at: 0,
    };
    assert_eq!(check_token(&web, 2_000, 10_000), TokenDecision::Valid);
    assert_eq!(check_token(&web, 20_000, 10_000), TokenDecision::Expired);
    let api = AccessToken {
        token: "t2".to_string(),
        token_type: TokenType::Api,
        expire_at: Some(5_000),
        ..web.clone()
    };
    assert_eq!(check_token(&api, 4_999, 10), TokenDecision::Valid);
    assert_eq!(check_token(&api, 5_001, 10), TokenDecision::Expired);
}

// Pagination edges: zero page errors, a page past the end is empty with
// totals intact.
#[test]
fn pagination_edges() {
    let mut index = EnvelopeIndex::new();
    for id in 1..=3u64 {
        index.upsert(envelope(id, 1, 1, id, id as i64 * 100, 10));
    }
    assert!(index.search(&SearchFilter::match_all(), 0, 5, true, &None).is_err());
    assert!(index.search(&SearchFilter::match_all(), 1, 0, true, &None).is_err());
    let far = index.search(&SearchFilter::match_all(), 9, 2, true, &None).unwrap();
    assert_eq!(far.total_items, 3);
    assert_eq!(far.total_pages, Some(2));
    assert!(far.items.is_empty());
}

// Tag facet recursion: the children's counts sum to the parent's.
#[test]
fn facet_counts_sum_to_parent() {
    let mut index = EnvelopeIndex::new();
    let mut with_tag = |id: u64, tag: &str| {
        let mut e = envelope(id, 1, 1, id, 100, 10);
        e.tags = vec![tag.to_string()];
        index.upsert(e);
    };
    with_tag(1, "/x/a");
    with_tag(2, "/x/a");
    with_tag(3, "/x/b");
    with_tag(4, "/y/c");
    let listing = index.get_all_tags(&None);
    let count = |tag: &str| -> u64 {
        listing.iter().find(|t| t.tag == tag).map(|t| t.count).unwrap_or(0)
    };
    assert_eq!(count("/x"), 3);
    assert_eq!(count("/x/a"), 2);
    assert_eq!(count("/x/b"), 1);
    assert_eq!(count("/x/a") + count("/x/b"), count("/x"));
    assert_eq!(count("/y"), 1);
    // restricted to an account that holds nothing, every count is zero
    let restricted = index.get_all_tags(&Some(vec![99]));
    assert!(restricted.iter().all(|t| t.count == 0));
}
