use bichon::eml_index::resolve_slice;
use bichon::envelope::Addr;
use bichon::error::ErrorCode;
use bichon::extract::extract_envelope_from_eml;
use bichon::extract::thread_id_exec;
use bichon::auth::Permission;
use bichon::auth::Role;
use bichon::auth::RoleType;
use bichon::ingest::b64_url_decode;
use bichon::ingest::b64_url_encode;
use bichon::ingest::check_import_path;
use bichon::payload::RoleCreateRequest;
use bichon::payload::UserCreateRequest;
use bichon::query::facet_is_wf;
use bichon::query::facet_match;
use bichon::text::fnv_hash;
use bichon::users::authenticate_user;
use bichon::users::LoginOutcome;
use bichon::crypto::internal_encrypt_string;

#[test]
fn error_codes_and_statuses() {
    assert_eq!(ErrorCode::InvalidParameter.code(), 10000);
    assert_eq!(ErrorCode::PermissionDenied.code(), 20000);
    assert_eq!(ErrorCode::ResourceNotFound.code(), 30000);
    assert_eq!(ErrorCode::TooManyRequest.code(), 30020);
    assert_eq!(ErrorCode::ConnectionPoolTimeout.code(), 40020);
    assert_eq!(ErrorCode::InternalError.code(), 70000);
    assert_eq!(ErrorCode::InvalidParameter.status(), 400);
    assert_eq!(ErrorCode::ResourceNotFound.status(), 404);
    assert_eq!(ErrorCode::TooManyRequest.status(), 429);
}

#[test]
fn base64_round_trip() {
    let bytes = b"arbitrary \x00 binary \xff data";
    let encoded = b64_url_encode(bytes);
    let decoded = b64_url_decode(&encoded).unwrap();
    assert_eq!(decoded, bytes);
    assert!(b64_url_decode("!!!").is_none());
}

#[test]
fn slices_and_hashes() {
    let file = b"0123456789";
    assert_eq!(resolve_slice(file, 2, 3).unwrap(), b"234");
    assert!(resolve_slice(file, 8, 5).is_err());
    // FNV-1a of "a" (standard test vector).
    assert_eq!(fnv_hash(b"a"), 0xaf63dc4c8601ec8c);
    assert_eq!(fnv_hash(b""), 0xcbf29ce484222325);
}

#[test]
fn facet_paths() {
    assert!(facet_is_wf("/work/urgent"));
    assert!(!facet_is_wf("work"));
    assert!(!facet_is_wf("/work/"));
    assert!(!facet_is_wf("//work"));
    assert!(facet_match("/work/urgent", "/work"));
    assert!(facet_match("/work", "/work"));
    assert!(!facet_match("/workshop", "/work"));
}

#[test]
fn import_path_guard() {
    assert!(check_import_path("/data/mbox_import/a.mbox", "/data/mbox_import"));
    assert!(!check_import_path("/data/mbox_importx/a.mbox", "/data/mbox_import"));
    assert!(!check_import_path("/data/other/a.mbox", "/data/mbox_import"));
    assert!(!check_import_path("/data/mbox_import", "/data/mbox_import"));
}

#[test]
fn thread_ids_cluster_replies() {
    let base = b"From: a@example.com\nSubject: Budget plan\nMessage-ID: <m1@x>\n\nhello\n";
    let reply =
        b"From: b@example.com\nSubject: Re: Budget plan\nMessage-ID: <m2@x>\n\nhi back\n";
    // Without references, the normalized subject clusters the thread.
    let t1 = thread_id_exec(base, &"Budget plan".to_string());
    let t2 = thread_id_exec(reply, &"Re: Budget plan".to_string());
    assert_eq!(t1, t2);
    // A references chain wins over the subject.
    let with_refs = b"From: c@example.com\nSubject: Unrelated\nReferences: <m1@x>\n\nbody\n";
    let t3 = thread_id_exec(with_refs, &"Unrelated".to_string());
    assert_eq!(t3, fnv_hash(b"m1@x"));
}

#[test]
fn extraction_fields() {
    let eml = b"From: Alice <alice@example.com>\nTo: Bob <bob@example.com>\n\
Subject: Greetings\nMessage-ID: <g1@example.com>\nDate: Mon, 4 Dec 2023 10:00:00 -0500\n\
Content-Type: text/plain\n\n\
hello there from the fixture\n";
    let e = extract_envelope_from_eml(eml, 3, 9).unwrap();
    assert_eq!(e.account_id, 3);
    assert_eq!(e.mailbox_id, 9);
    assert_eq!(e.uid, 0);
    assert_eq!(e.subject, "Greetings");
    assert_eq!(e.message_id, "g1@example.com");
    assert_eq!(e.from, "Alice <alice@example.com>");
    assert_eq!(e.to, "Bob <bob@example.com>");
    assert!(e.text.contains("hello there"));
    assert!(!e.has_attachment);
    assert_eq!(e.size, eml.len() as u64);
    assert!(extract_envelope_from_eml(b"", 1, 1).is_err());
}

#[test]
fn address_rendering() {
    let a = Addr { name: Some("Jane".to_string()), address: Some("j@x".to_string()) };
    assert_eq!(a.to_display_string(), "Jane <j@x>");
    let b = Addr { name: None, address: Some("j@x".to_string()) };
    assert_eq!(b.to_display_string(), "<j@x>");
    let c = Addr { name: Some("Jane".to_string()), address: None };
    assert_eq!(c.to_display_string(), "Jane");
}

#[test]
fn payload_validation() {
    let roles = vec![
        Role {
            id: 1,
            name: "ops".to_string(),
            role_type: RoleType::Global,
            permissions: vec![Permission::UserManage],
        },
        Role {
            id: 2,
            name: "reader".to_string(),
            role_type: RoleType::Account,
            permissions: vec![Permission::DataRead],
        },
    ];
    let accounts = vec![7u64];

    let bad_name = RoleCreateRequest {
        name: "  Admin  ".to_string(),
        role_type: RoleType::Global,
        description: None,
        permissions: vec![Permission::UserManage],
    };
    assert!(bad_name.validate().is_err());
    let bad_scope = RoleCreateRequest {
        name: "helpers".to_string(),
        role_type: RoleType::Account,
        description: None,
        permissions: vec![Permission::UserManage],
    };
    assert!(bad_scope.validate().is_err());
    let good = RoleCreateRequest {
        name: "helpers".to_string(),
        role_type: RoleType::Account,
        description: None,
        permissions: vec![Permission::DataRead],
    };
    assert!(good.validate().is_ok());

    let user_req = UserCreateRequest {
        username: "carol".to_string(),
        email: "carol@example.com".to_string(),
        password: "long-enough".to_string(),
        global_roles: vec![1],
        account_access_map: vec![(7, 2)],
        avatar_base64: None,
        description: None,
        theme: None,
        language: None,
    };
    assert!(user_req.validate(&roles, &accounts).is_ok());
    let short = UserCreateRequest { username: "cc".to_string(), ..user_req.clone() };
    assert!(short.validate(&roles, &accounts).is_err());

    let themed = UserCreateRequest { theme: Some("dark".to_string()), ..user_req.clone() };
    assert!(themed.validate(&roles, &accounts).is_ok());
    let bad_theme = UserCreateRequest { theme: Some("sepia".to_string()), ..user_req.clone() };
    assert!(bad_theme.validate(&roles, &accounts).is_err());
    let bad_lang = UserCreateRequest { language: Some("tlh".to_string()), ..user_req.clone() };
    assert!(bad_lang.validate(&roles, &accounts).is_err());
    let good_lang = UserCreateRequest { language: Some("zh-tw".to_string()), ..user_req.clone() };
    assert!(good_lang.validate(&roles, &accounts).is_ok());
    let long_desc = UserCreateRequest {
        description: Some("x".repeat(257)),
        ..user_req.clone()
    };
    assert!(long_desc.validate(&roles, &accounts).is_err());
    let bad_avatar = UserCreateRequest {
        avatar_base64: Some("!not base64!".to_string()),
        ..user_req.clone()
    };
    assert!(bad_avatar.validate(&roles, &accounts).is_err());
    let good_avatar = UserCreateRequest {
        avatar_base64: Some(bichon::ingest::b64_std_encode(b"png")),
        ..user_req
    };
    assert!(good_avatar.validate(&roles, &accounts).is_ok());
}

#[test]
fn login_decision() {
    let master = "service-master-key";
    let enc = internal_encrypt_string(master, "hunter22").unwrap();
    let users = vec![bichon::auth::User {
        id: 4,
        username: "dave".to_string(),
        email: "dave@example.com".to_string(),
        password: Some(enc),
        global_roles: Vec::new(),
        account_access_map: Vec::new(),
        ip_whitelist: None,
        rate_limit: None,
        created_at: 0,
        updated_at: 0,
    }];
    let (ok, uid) =
        authenticate_user(&users, master, &"dave".to_string(), &"hunter22".to_string());
    assert_eq!(ok, LoginOutcome::Accepted);
    assert_eq!(uid, 4);
    let (wrong, _) =
        authenticate_user(&users, master, &"dave".to_string(), &"hunter23".to_string());
    assert_eq!(wrong, LoginOutcome::WrongPassword);
    let (by_email, _) = authenticate_user(
        &users,
        master,
        &"dave@example.com".to_string(),
        &"hunter22".to_string(),
    );
    assert_eq!(by_email, LoginOutcome::Accepted);
    let (unknown, _) =
        authenticate_user(&users, master, &"nobody".to_string(), &"x".to_string());
    assert_eq!(unknown, LoginOutcome::UnknownUser);
}
