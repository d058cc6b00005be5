use bichon::auth::extract_bearer_token;
use bichon::auth::ip_allowed;
use bichon::auth::resolve_token;
use bichon::auth::AccessToken;
use bichon::auth::TokenType;
use bichon::auth::User;
use bichon::auth::DEFAULT_ACCOUNT_MANAGER_ROLE_ID;
use bichon::eml_index::EmlIndex;
use bichon::index::EnvelopeIndex;
use bichon::ingest::b64_url_encode;
use bichon::ingest::BatchEmlRequest;
use bichon::ingest::ImportEmls;
use bichon::message::replace_all;
use bichon::message::render_html_with_inline_images;
use bichon::message::build_message_content;
use bichon::store::create_account;
use bichon::store::paginate_accounts;
use bichon::store::Account;
use bichon::store::AccountType;
use bichon::store::MetaStore;
use bichon::sync::fetch_range;
use bichon::sync::SyncController;
use bichon::users::register_user;
use bichon::users::update_user;
use bichon::users::UserUpdate;

fn account(id: u64, kind: AccountType, enabled: bool) -> Account {
    Account {
        id,
        email: format!("acct{}@example.com", id),
        name: None,
        enabled,
        account_type: kind,
        date_since: None,
        date_before: None,
        sync_folders: None,
        known_folders: Vec::new(),
        sync_interval_min: None,
        sync_batch_size: None,
        encrypted_password: None,
        created_at: 0,
        updated_at: 0,
        created_by: 1,
    }
}

fn user(id: u64, name: &str, email: &str) -> User {
    User {
        id,
        username: name.to_string(),
        email: email.to_string(),
        password: None,
        global_roles: Vec::new(),
        account_access_map: Vec::new(),
        ip_whitelist: None,
        rate_limit: None,
        created_at: 0,
        updated_at: 0,
    }
}

fn no_update() -> UserUpdate {
    UserUpdate {
        username: None,
        email: None,
        encrypted_password: None,
        global_roles: None,
        account_access_map: None,
        ip_whitelist: None,
        rate_limit: None,
    }
}

#[test]
fn update_rejects_taken_username_and_email() {
    let mut users = vec![user(1, "alice", "alice@example.com"), user(2, "bob", "bob@example.com")];
    let taken_name = UserUpdate { username: Some("alice".to_string()), ..no_update() };
    let err = update_user(&mut users, 2, taken_name, 10).unwrap_err();
    assert_eq!(err.code.code(), 30030); // already exists
    let taken_mail = UserUpdate { email: Some("alice@example.com".to_string()), ..no_update() };
    let err = update_user(&mut users, 2, taken_mail, 10).unwrap_err();
    assert_eq!(err.code.code(), 30030);
    // Keeping one's own name is no conflict.
    let own = UserUpdate { username: Some("bob".to_string()), ..no_update() };
    assert!(update_user(&mut users, 2, own, 10).is_ok());
    let missing = update_user(&mut users, 99, no_update(), 10).unwrap_err();
    assert_eq!(missing.code.code(), 30000); // not found
}

#[test]
fn registration_stores_user_and_webui_token() {
    let mut users = vec![user(1, "alice", "alice@example.com")];
    let mut tokens: Vec<AccessToken> = Vec::new();
    let uid = register_user(
        &mut users,
        &mut tokens,
        "master-key",
        "carol".to_string(),
        "carol@example.com".to_string(),
        "hunter22",
        vec![1],
        vec![(7, 2)],
        42,
        1000,
    )
    .unwrap();
    assert_eq!(uid, 42);
    assert_eq!(users.len(), 2);
    let stored = users[1].password.clone().unwrap();
    let back = bichon::crypto::internal_decrypt_string("master-key", &stored).unwrap();
    assert_eq!(back, "hunter22");
    assert_eq!(tokens.len(), 1);
    assert_eq!(tokens[0].user_id, 42);
    assert_eq!(tokens[0].token_type, TokenType::WebUI);
    // A taken username is a conflict and stores nothing.
    let err = register_user(
        &mut users,
        &mut tokens,
        "master-key",
        "carol".to_string(),
        "other@example.com".to_string(),
        "hunter22",
        vec![1],
        Vec::new(),
        43,
        1000,
    )
    .unwrap_err();
    assert_eq!(err.code.code(), 30030);
    assert_eq!(users.len(), 2);
    assert_eq!(tokens.len(), 1);
}

#[test]
fn account_pagination_windows() {
    let mut store = MetaStore::new();
    for id in 1..=5u64 {
        store.insert_account(account(id, AccountType::NoSync, true)).unwrap();
    }
    let pg = paginate_accounts(&store, 2, 2).unwrap();
    assert_eq!(pg.total_items, 5);
    assert_eq!(pg.total_pages, Some(3));
    let ids: Vec<u64> = pg.items.iter().map(|a| a.id).collect();
    assert_eq!(ids, vec![3, 4]);
    let last = paginate_accounts(&store, 3, 2).unwrap();
    assert_eq!(last.items.len(), 1);
    assert_eq!(last.items[0].id, 5);
    let past = paginate_accounts(&store, 4, 2).unwrap();
    assert!(past.items.is_empty());
    assert!(paginate_accounts(&store, 0, 2).is_err());
    assert!(paginate_accounts(&store, 1, 0).is_err());
}

#[test]
fn account_creation_grants_and_starts_sync() {
    let mut store = MetaStore::new();
    let mut users = vec![user(1, "alice", "alice@example.com")];
    let mut controller = SyncController::new();
    create_account(&mut store, &mut users, &mut controller, 1, account(7, AccountType::IMAP, true), 100)
        .unwrap();
    assert_eq!(store.accounts.len(), 1);
    assert!(users[0].account_access_map.contains(&(7, DEFAULT_ACCOUNT_MANAGER_ROLE_ID)));
    // The worker is already running, so a second start is refused.
    assert!(!controller.trigger_start(7));

    // A NoSync account starts no worker.
    create_account(&mut store, &mut users, &mut controller, 1, account(8, AccountType::NoSync, true), 100)
        .unwrap();
    assert!(controller.trigger_start(8));

    let mut bad_window = account(9, AccountType::NoSync, true);
    bad_window.date_since = Some(1);
    bad_window.date_before = Some(2);
    let err = create_account(&mut store, &mut users, &mut controller, 1, bad_window, 100)
        .unwrap_err();
    assert_eq!(err.code.code(), 10000); // invalid parameter
    let err = create_account(&mut store, &mut users, &mut controller, 99, account(10, AccountType::NoSync, true), 100)
        .unwrap_err();
    assert_eq!(err.code.code(), 30000); // creating user not found
}

#[test]
fn batch_import_error_codes_and_failures() {
    let mut store = MetaStore::new();
    let mut env = EnvelopeIndex::new();
    let mut eml = EmlIndex::new();

    store.insert_account(account(1, AccountType::NoSync, false)).unwrap();
    let req = BatchEmlRequest {
        account_id: 1,
        mail_folder: "imported".to_string(),
        emls: Vec::new(),
    };
    let err = ImportEmls::do_import(&mut store, &mut env, &mut eml, &req).unwrap_err();
    assert_eq!(err.code.code(), 20010); // account disabled

    store.insert_account(account(2, AccountType::IMAP, true)).unwrap();
    let req = BatchEmlRequest {
        account_id: 2,
        mail_folder: "Archive".to_string(),
        emls: Vec::new(),
    };
    let err = ImportEmls::do_import(&mut store, &mut env, &mut eml, &req).unwrap_err();
    assert_eq!(err.code.code(), 30000); // folder must already exist

    store.insert_account(account(3, AccountType::NoSync, true)).unwrap();
    let good = b64_url_encode(
        b"From: a@example.com\nSubject: ok\nMessage-ID: <ok@x>\n\nbody\n",
    );
    let req = BatchEmlRequest {
        account_id: 3,
        mail_folder: "imported".to_string(),
        emls: vec!["!!not-base64!!".to_string(), good],
    };
    let res = ImportEmls::do_import(&mut store, &mut env, &mut eml, &req).unwrap();
    assert_eq!(res.total, 2);
    assert_eq!(res.success, 1);
    assert_eq!(res.failed, 1);
    assert_eq!(res.failed_indexes, vec![0]);
    // The synthetic mailbox carries the import marker.
    let mb = store
        .mailboxes
        .iter()
        .find(|m| m.account_id == 3)
        .expect("the import created a mailbox");
    assert_eq!(mb.name, "imported");
    assert!(mb.attributes.iter().any(|a| a.as_str() == "CreatedByBichon"));
}

#[test]
fn replace_all_rewrites_every_occurrence() {
    assert_eq!(replace_all("a cid:x1 b cid:x1", "cid:x1", "Z"), "a Z b Z");
    assert_eq!(replace_all("aaaa", "aa", "b"), "bb");
    assert_eq!(replace_all("hello", "xyz", "q"), "hello");
    assert_eq!(replace_all("hello", "", "q"), "hello");
}

#[test]
fn inline_images_become_data_uris() {
    let png = b"png-bytes-fixture";
    let encoded = bichon::ingest::b64_std_encode(png);
    let mut eml = String::new();
    eml.push_str("From: a@example.com\nTo: b@example.com\nSubject: pic\n");
    eml.push_str("MIME-Version: 1.0\nContent-Type: multipart/related; boundary=\"B\"\n\n");
    eml.push_str("--B\nContent-Type: text/html\n\n<img src=\"cid:img1\">\n");
    eml.push_str("--B\nContent-Type: image/png\nContent-ID: <img1>\n");
    eml.push_str("Content-Disposition: inline; filename=\"i.png\"\n");
    eml.push_str("Content-Transfer-Encoding: base64\n\n");
    eml.push_str(&encoded);
    eml.push_str("\n--B--\n");

    let content = build_message_content(eml.as_bytes()).unwrap();
    let html = content.html.clone().expect("an html body");
    let atts = content.attachments.clone().unwrap();
    assert_eq!(atts.len(), 1);
    assert!(atts[0].inline);
    let cid = atts[0].content_id.clone().expect("a content id");

    let rendered = render_html_with_inline_images(eml.as_bytes()).expect("an html body");
    let expected = html.replace(
        &format!("cid:{}", cid),
        &format!("data:{};base64,{}", atts[0].file_type, encoded),
    );
    assert_eq!(rendered, expected);
    assert!(rendered.contains("data:image/png;base64,"));
    assert!(!rendered.contains("cid:img1"));
}

#[test]
fn bearer_token_extraction() {
    let header = "Bearer abc123".to_string();
    assert_eq!(extract_bearer_token(Some(&header), None), Some("abc123".to_string()));
    let malformed = "Token abc123".to_string();
    let query = "qtok".to_string();
    assert_eq!(extract_bearer_token(Some(&malformed), Some(&query)), Some("qtok".to_string()));
    assert_eq!(extract_bearer_token(Some(&malformed), None), None);
    assert_eq!(extract_bearer_token(None, Some(&query)), Some("qtok".to_string()));
    assert_eq!(extract_bearer_token(None, None), None);
}

#[test]
fn ip_allow_list_gates_clients() {
    let open = user(1, "alice", "alice@example.com");
    assert!(ip_allowed(&open, &"10.0.0.1".to_string()));
    let mut gated = user(2, "bob", "bob@example.com");
    gated.ip_whitelist = Some(vec!["10.0.0.1".to_string(), "10.0.0.2".to_string()]);
    assert!(ip_allowed(&gated, &"10.0.0.2".to_string()));
    assert!(!ip_allowed(&gated, &"10.0.0.3".to_string()));
    gated.ip_whitelist = Some(Vec::new());
    assert!(!ip_allowed(&gated, &"10.0.0.1".to_string()));
}

#[test]
fn token_resolution_and_access_stamp() {
    let api = AccessToken {
        token: "api-token".to_string(),
        user_id: 5,
        name: None,
        token_type: TokenType::Api,
        created_at: 0,
        updated_at: 0,
        expire_at: Some(10_000),
        last_access_at: 0,
    };
    let webui = AccessToken {
        token: "web-token".to_string(),
        user_id: 6,
        name: None,
        token_type: TokenType::WebUI,
        created_at: 0,
        updated_at: 0,
        expire_at: None,
        last_access_at: 0,
    };
    let mut tokens = vec![api, webui];
    // An accepted API call stamps last access.
    assert_eq!(resolve_token(&mut tokens, &"api-token".to_string(), 5_000, 3_600_000), Some(5));
    assert_eq!(tokens[0].last_access_at, 5_000);
    // An API token past its explicit expiry is refused.
    assert_eq!(resolve_token(&mut tokens, &"api-token".to_string(), 20_000, 3_600_000), None);
    // A WebUI token expires by age.
    assert_eq!(resolve_token(&mut tokens, &"web-token".to_string(), 5_000, 3_600_000), Some(6));
    assert_eq!(resolve_token(&mut tokens, &"web-token".to_string(), 7_200_000, 3_600_000), None);
    // An unknown value resolves to nothing.
    assert_eq!(resolve_token(&mut tokens, &"nope".to_string(), 5_000, 3_600_000), None);
}

#[test]
fn descending_fetch_window_is_pinned() {
    assert_eq!(fetch_range(10, 1, 4, true), Some((7, 10)));
    assert_eq!(fetch_range(10, 2, 4, true), Some((3, 6)));
    assert_eq!(fetch_range(10, 3, 4, true), Some((1, 2)));
    assert_eq!(fetch_range(10, 4, 4, true), None);
}

#[test]
fn webui_token_reset_keeps_one_session() {
    let old_web = AccessToken {
        token: "old-web".to_string(),
        user_id: 5,
        name: None,
        token_type: TokenType::WebUI,
        created_at: 0,
        updated_at: 0,
        expire_at: None,
        last_access_at: 0,
    };
    let api = AccessToken { token: "api".to_string(), token_type: TokenType::Api, ..old_web.clone() };
    let other = AccessToken { token: "other-web".to_string(), user_id: 6, ..old_web.clone() };
    let mut tokens = vec![old_web, api, other];
    let fresh = bichon::users::reset_webui_token(&mut tokens, 5, 99).unwrap();
    assert_eq!(tokens.len(), 3);
    // The old WebUI session of user 5 is gone; the API token and the other
    // user's session survive; exactly one new WebUI token exists.
    assert!(tokens.iter().all(|t| t.token != "old-web"));
    assert!(tokens.iter().any(|t| t.token == "api"));
    assert!(tokens.iter().any(|t| t.token == "other-web"));
    let webui: Vec<&AccessToken> = tokens
        .iter()
        .filter(|t| t.user_id == 5 && t.token_type == TokenType::WebUI)
        .collect();
    assert_eq!(webui.len(), 1);
    assert_eq!(webui[0].token, fresh);
    assert_eq!(webui[0].created_at, 99);
}

#[test]
fn account_cleanup_is_sequenced() {
    let mut store = MetaStore::new();
    let mut env = EnvelopeIndex::new();
    let mut eml = EmlIndex::new();
    let mut users = vec![user(1, "alice", "alice@example.com")];
    let mut controller = SyncController::new();
    create_account(&mut store, &mut users, &mut controller, 1, account(3, AccountType::NoSync, true), 0)
        .unwrap();
    create_account(&mut store, &mut users, &mut controller, 1, account(4, AccountType::NoSync, true), 0)
        .unwrap();
    let mbox = b"From a@x Mon Dec 04 10:00:00 2025\nFrom: a@example.com\nSubject: one\n\nbody one\n";
    bichon::ingest::import_mbox_bytes(&mut store, &mut env, &mut eml, "/data/a.mbox".to_string(), mbox, 3, &"imported".to_string(), 1)
        .unwrap();
    bichon::ingest::import_mbox_bytes(&mut store, &mut env, &mut eml, "/data/b.mbox".to_string(), mbox, 4, &"imported".to_string(), 2)
        .unwrap();
    assert_eq!(env.docs.len(), 2);

    bichon::store::cleanup_account(&mut store, &mut env, &mut eml, &mut users, 3).unwrap();
    assert!(store.accounts.iter().all(|a| a.id != 3));
    assert!(store.mailboxes.iter().all(|m| m.account_id != 3));
    assert!(store.mbox_files.iter().all(|f| f.account_id != 3));
    assert!(env.docs.iter().all(|d| d.account_id != 3));
    assert!(eml.docs.iter().all(|d| d.account_id != 3));
    assert!(users[0].account_access_map.iter().all(|p| p.0 != 3));
    // The other account's world survives.
    assert!(store.accounts.iter().any(|a| a.id == 4));
    assert_eq!(env.docs.len(), 1);
    assert!(users[0].account_access_map.contains(&(4, DEFAULT_ACCOUNT_MANAGER_ROLE_ID)));
    // A second cleanup finds nothing.
    let err = bichon::store::cleanup_account(&mut store, &mut env, &mut eml, &mut users, 3)
        .unwrap_err();
    assert_eq!(err.code.code(), 30000);
}
