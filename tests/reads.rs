use note::config::Config;
use note::error::Ex;
use note::store::Tables;
use note::token::{Token, SESSION_TTL};
use note::users::UserData;

const T0: i64 = 1_700_000_000;

fn cfg() -> Config {
    Config {
        server_addr: String::new(),
        database_path: String::new(),
        site_root: String::new(),
        base_url: "/".to_string(),
        cookie_path: "/".to_string(),
        site_title: String::new(),
        secret_invite: "i".to_string(),
        secret_passwd: "p".to_string(),
    }
}

fn setup() -> (Config, Tables) {
    let cfg = cfg();
    let mut db = Tables::new();
    let root = Token::sign("", T0 + 900, cfg.secret_invite.as_bytes());
    for u in ["bob", "alice", "carol"] {
        UserData::sign_up_at(&mut db, &cfg, u, "pw", &root, T0).unwrap();
    }
    db.create_page("bob", "bob", "zeta", T0).unwrap();
    db.create_page("alice", "alice", "notes", T0).unwrap();
    db.create_page("alice", "alice", "apple", T0).unwrap();
    db.create_page("bob", "bob", "alpha", T0).unwrap();
    (cfg, db)
}

#[test]
fn read_page_gives_next_in_key_order() {
    let (_, db) = setup();
    let (p, next) = db.read_page("alice", "apple").unwrap();
    assert_eq!(p.title, "Untitled");
    assert_eq!(next, Some(("alice".to_string(), "notes".to_string(), "Untitled".to_string())));
    let (_, next) = db.read_page("alice", "notes").unwrap();
    assert_eq!(next, Some(("bob".to_string(), "alpha".to_string(), "Untitled".to_string())));
    let (_, next) = db.read_page("bob", "alpha").unwrap();
    assert_eq!(next.map(|n| n.1), Some("zeta".to_string()));
    let (_, next) = db.read_page("bob", "zeta").unwrap();
    assert_eq!(next, None);
}

#[test]
fn read_missing_page_is_not_found() {
    let (_, db) = setup();
    assert!(matches!(db.read_page("alice", "b"), Err(Ex::PageNotFound)));
    assert!(matches!(db.read_page("dave", "x"), Err(Ex::PageNotFound)));
}

#[test]
fn read_user_copies_record() {
    let (_, db) = setup();
    let a = db.read_user("alice").unwrap();
    let mut files = a.files.clone();
    files.sort();
    assert_eq!(files, vec!["apple".to_string(), "notes".to_string()]);
    assert!(matches!(db.read_user("zed"), Err(Ex::UserNotFound)));
}

#[test]
fn sign_in_checks() {
    let (cfg, db) = setup();
    assert_eq!(UserData::sign_in(&db, &cfg, "alice", "pw"), Ok(()));
    assert_eq!(UserData::sign_in(&db, &cfg, "alice", "nope"), Err(Ex::InvalidCredentials));
    assert_eq!(UserData::sign_in(&db, &cfg, "zed", "pw"), Err(Ex::UserNotFound));
}

#[test]
fn issued_tokens_verify() {
    let s = Token::issue_session("alice", b"k");
    assert_eq!(Token::parse(&s, b"k"), Some("alice".to_string()));
    let i = Token::issue_invite("", b"k");
    assert_eq!(Token::parse(&i, b"k"), Some(String::new()));
    assert!(SESSION_TTL > 100 * 24 * 3600);
}

#[test]
fn user_listing_lists_collaborators_and_pages() {
    let (cfg, mut db) = setup();
    let from_alice = Token::sign("alice", T0 + 900, cfg.secret_invite.as_bytes());
    UserData::link_collab_at(&mut db, &cfg, "bob", &from_alice, T0).unwrap();
    db.update_page("alice", "alice", "notes", "My notes", "x", T0).unwrap();
    let (collabs, pages) = db.user_listing("alice").unwrap();
    assert_eq!(collabs, vec!["bob".to_string()]);
    assert_eq!(
        pages,
        vec![("apple".to_string(), "Untitled".to_string()), ("notes".to_string(), "My notes".to_string())]
    );
    assert!(matches!(db.user_listing("zed"), Err(Ex::UserNotFound)));
}

#[test]
fn user_listing_skips_files_without_rows() {
    let (_, mut db) = setup();
    db.pages.retain(|((o, f), _)| !(o == "bob" && f == "zeta"));
    let (collabs, pages) = db.user_listing("bob").unwrap();
    assert!(collabs.is_empty());
    assert_eq!(pages, vec![("alpha".to_string(), "Untitled".to_string())]);
}

#[test]
fn read_for_edit_checks_permission() {
    let (_, db) = setup();
    let p = db.read_for_edit("alice", "alice", "notes").unwrap();
    assert_eq!(p.title, "Untitled");
    assert!(matches!(db.read_for_edit("bob", "alice", "notes"), Err(Ex::PermissionDenied)));
    assert!(matches!(db.read_for_edit("alice", "alice", "none"), Err(Ex::PageNotFound)));
    assert!(matches!(db.read_for_edit("alice", "ghost", "x"), Err(Ex::PageNotFound)));
}

#[test]
fn sets_stay_in_ascending_order() {
    let (cfg, mut db) = setup();
    let from_alice = Token::sign("alice", T0 + 900, cfg.secret_invite.as_bytes());
    for u in ["zed", "mike", "dave"] {
        UserData::sign_up_at(&mut db, &cfg, u, "pw", &from_alice, T0).unwrap();
    }
    UserData::link_collab_at(&mut db, &cfg, "carol", &from_alice, T0).unwrap();
    UserData::link_collab_at(&mut db, &cfg, "mike", &from_alice, T0).unwrap();
    db.create_page("alice", "alice", "b", T0).unwrap();
    db.delete_page("alice", "alice", "notes").unwrap();
    let (collabs, pages) = db.user_listing("alice").unwrap();
    assert_eq!(collabs, vec!["carol", "dave", "mike", "zed"]);
    let files: Vec<&str> = pages.iter().map(|(f, _)| f.as_str()).collect();
    assert_eq!(files, vec!["apple", "b"]);
    assert_eq!(db.read_user("alice").unwrap().files, vec!["apple", "b"]);
}
