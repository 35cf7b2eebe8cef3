use note::config::Config;
use note::error::Ex;
use note::pages::PageData;
use note::store::Tables;
use note::token::Token;
use note::users::UserData;

const T0: i64 = 1_700_000_000;

fn cfg() -> Config {
    Config {
        server_addr: "127.0.0.1:8080".to_string(),
        database_path: "note.db".to_string(),
        site_root: "site".to_string(),
        base_url: "https://wiki.example/".to_string(),
        cookie_path: "/".to_string(),
        site_title: "Notes".to_string(),
        secret_invite: "invite-key".to_string(),
        secret_passwd: "passwd-key".to_string(),
    }
}

fn invite(cfg: &Config, inviter: &str, ttl: i64) -> String {
    Token::sign(inviter, T0 + ttl, cfg.secret_invite.as_bytes())
}

fn user<'a>(db: &'a Tables, name: &str) -> &'a UserData {
    &db.users.iter().find(|(n, _)| n == name).expect("user row").1
}

fn page<'a>(db: &'a Tables, owner: &str, file: &str) -> Option<&'a PageData> {
    db.pages.iter().find(|((o, f), _)| o == owner && f == file).map(|(_, p)| p)
}

fn sorted(v: &[String]) -> Vec<String> {
    let mut v = v.to_vec();
    v.sort();
    v
}

fn with_alice(cfg: &Config) -> Tables {
    let mut db = Tables::new();
    let root = invite(cfg, "", 900);
    assert_eq!(UserData::sign_up_at(&mut db, cfg, "alice", "pw-a", &root, T0), Ok(()));
    db
}

#[test]
fn root_invite_sign_up_then_expiry() {
    let cfg = cfg();
    let mut db = Tables::new();
    let root = invite(&cfg, "", 900);
    assert_eq!(UserData::sign_up_at(&mut db, &cfg, "alice", "pw", &root, T0 + 10), Ok(()));
    let alice = user(&db, "alice");
    assert!(alice.collabs.is_empty());
    assert!(alice.files.is_empty());
    assert_eq!(alice.verify_passwd("pw", cfg.secret_passwd.as_bytes()), Ok(()));
    assert_eq!(
        UserData::sign_up_at(&mut db, &cfg, "carol", "pw", &root, T0 + 901),
        Err(Ex::InvalidInvite)
    );
    assert_eq!(db.users.len(), 1);
}

#[test]
fn create_update_permissions_scenario() {
    let cfg = cfg();
    let mut db = with_alice(&cfg);
    let root = invite(&cfg, "", 900);
    assert_eq!(UserData::sign_up_at(&mut db, &cfg, "bob", "pw-b", &root, T0), Ok(()));
    assert_eq!(db.create_page("alice", "alice", "notes", T0), Ok(()));
    assert_eq!(db.create_page("alice", "alice", "notes", T0 + 1), Err(Ex::PageAlreadyExists));
    assert_eq!(
        db.update_page("bob", "alice", "notes", "Hacked", "x", T0 + 2),
        Err(Ex::PermissionDenied)
    );
    let p = page(&db, "alice", "notes").unwrap();
    assert_eq!(p.title, "Untitled");
    assert_eq!(p.markdown, "");
    assert_eq!(p.date, T0);
    assert_eq!(user(&db, "alice").files, vec!["notes".to_string()]);
}

#[test]
fn update_renders_markdown() {
    let cfg = cfg();
    let mut db = with_alice(&cfg);
    db.create_page("alice", "alice", "notes", T0).unwrap();
    assert_eq!(db.update_page("alice", "alice", "notes", "Hi", "# Hi", T0 + 5), Ok(()));
    let p = page(&db, "alice", "notes").unwrap();
    assert_eq!(p.title, "Hi");
    assert_eq!(p.markdown, "# Hi");
    assert_eq!(p.html, "<h1>Hi</h1>\n");
    assert_eq!(p.date, T0 + 5);
}

#[test]
fn update_twice_changes_only_date() {
    let cfg = cfg();
    let mut db = with_alice(&cfg);
    db.create_page("alice", "alice", "notes", T0).unwrap();
    db.update_page("alice", "alice", "notes", "T", "*x*", T0 + 1).unwrap();
    let first = page(&db, "alice", "notes").map(|p| (p.title.clone(), p.markdown.clone(), p.html.clone())).unwrap();
    let files_first = user(&db, "alice").files.clone();
    db.update_page("alice", "alice", "notes", "T", "*x*", T0 + 2).unwrap();
    let p = page(&db, "alice", "notes").unwrap();
    assert_eq!((p.title.clone(), p.markdown.clone(), p.html.clone()), first);
    assert_eq!(p.date, T0 + 2);
    assert_eq!(user(&db, "alice").files, files_first);
    assert_eq!(db.pages.len(), 1);
}

#[test]
fn denied_delete_changes_nothing() {
    let cfg = cfg();
    let mut db = with_alice(&cfg);
    let root = invite(&cfg, "", 900);
    UserData::sign_up_at(&mut db, &cfg, "mallory", "pw", &root, T0).unwrap();
    db.create_page("alice", "alice", "notes", T0).unwrap();
    assert_eq!(db.delete_page("mallory", "alice", "notes"), Err(Ex::PermissionDenied));
    assert!(page(&db, "alice", "notes").is_some());
    assert_eq!(user(&db, "alice").files, vec!["notes".to_string()]);
}

#[test]
fn delete_removes_page_and_file() {
    let cfg = cfg();
    let mut db = with_alice(&cfg);
    db.create_page("alice", "alice", "a", T0).unwrap();
    db.create_page("alice", "alice", "b", T0).unwrap();
    assert_eq!(db.delete_page("alice", "alice", "a"), Ok(()));
    assert!(page(&db, "alice", "a").is_none());
    assert_eq!(user(&db, "alice").files, vec!["b".to_string()]);
    assert_eq!(db.delete_page("alice", "alice", "missing"), Ok(()));
    assert_eq!(db.delete_page("alice", "nobody", "b"), Err(Ex::UserNotFound));
}

#[test]
fn page_errors() {
    let cfg = cfg();
    let mut db = with_alice(&cfg);
    assert_eq!(db.create_page("alice", "alice", "bad name", T0), Err(Ex::InvalidFilename));
    assert_eq!(db.create_page("alice", "nobody", "x", T0), Err(Ex::UserNotFound));
    assert_eq!(db.update_page("alice", "alice", "x", "t", "m", T0), Err(Ex::PageNotFound));
    assert_eq!(db.update_page("alice", "nobody", "x", "t", "m", T0), Err(Ex::UserNotFound));
    assert!(db.pages.is_empty());
}

#[test]
fn invite_link_grants_one_way() {
    let cfg = cfg();
    let mut db = with_alice(&cfg);
    let root = invite(&cfg, "", 900);
    UserData::sign_up_at(&mut db, &cfg, "bob", "pw", &root, T0).unwrap();
    db.create_page("bob", "bob", "b-notes", T0).unwrap();
    let from_alice = invite(&cfg, "alice", 604800);
    assert_eq!(
        UserData::link_collab_at(&mut db, &cfg, "bob", &from_alice, T0 + 60),
        Ok("https://wiki.example/@alice".to_string())
    );
    assert_eq!(user(&db, "alice").collabs, vec!["bob".to_string()]);
    assert!(user(&db, "bob").collabs.is_empty());
    assert_eq!(db.create_page("bob", "alice", "shared", T0), Ok(()));
    assert_eq!(db.update_page("alice", "bob", "b-notes", "t", "m", T0), Err(Ex::PermissionDenied));
}

#[test]
fn own_or_root_invite_link_grants_nothing() {
    let cfg = cfg();
    let mut db = with_alice(&cfg);
    let own = invite(&cfg, "alice", 100);
    assert_eq!(
        UserData::link_collab_at(&mut db, &cfg, "alice", &own, T0),
        Ok("https://wiki.example/@alice".to_string())
    );
    let root = invite(&cfg, "", 100);
    assert_eq!(
        UserData::link_collab_at(&mut db, &cfg, "alice", &root, T0),
        Ok("https://wiki.example/@alice".to_string())
    );
    assert!(user(&db, "alice").collabs.is_empty());
}

#[test]
fn invite_link_errors() {
    let cfg = cfg();
    let mut db = with_alice(&cfg);
    let ghost = invite(&cfg, "ghost", 100);
    assert_eq!(UserData::link_collab_at(&mut db, &cfg, "alice", &ghost, T0), Err(Ex::InvalidInvite));
    assert_eq!(UserData::link_collab_at(&mut db, &cfg, "alice", "garbage", T0), Err(Ex::InvalidInvite));
    let expired = invite(&cfg, "alice", 100);
    assert_eq!(UserData::link_collab_at(&mut db, &cfg, "bob", &expired, T0 + 100), Err(Ex::InvalidInvite));
}

#[test]
fn sign_up_links_both_ways() {
    let cfg = cfg();
    let mut db = with_alice(&cfg);
    let from_alice = invite(&cfg, "alice", 604800);
    assert_eq!(UserData::sign_up_at(&mut db, &cfg, "carol", "pw", &from_alice, T0 + 1), Ok(()));
    assert_eq!(user(&db, "alice").collabs, vec!["carol".to_string()]);
    assert_eq!(user(&db, "carol").collabs, vec!["alice".to_string()]);
    db.create_page("alice", "alice", "a", T0).unwrap();
    db.create_page("carol", "carol", "c", T0).unwrap();
    assert_eq!(db.update_page("carol", "alice", "a", "t", "m", T0), Ok(()));
    assert_eq!(db.update_page("alice", "carol", "c", "t", "m", T0), Ok(()));
}

#[test]
fn sign_up_errors() {
    let cfg = cfg();
    let mut db = with_alice(&cfg);
    let root = invite(&cfg, "", 900);
    assert_eq!(UserData::sign_up_at(&mut db, &cfg, "al", "pw", &root, T0), Err(Ex::InvalidUsername));
    assert_eq!(UserData::sign_up_at(&mut db, &cfg, "alice", "pw", &root, T0), Err(Ex::UserExists));
    let ghost = invite(&cfg, "ghost", 900);
    assert_eq!(UserData::sign_up_at(&mut db, &cfg, "dave", "pw", &ghost, T0), Err(Ex::InvalidInvite));
    let forged = Token::sign("alice", T0 + 900, b"wrong-key");
    assert_eq!(UserData::sign_up_at(&mut db, &cfg, "dave", "pw", &forged, T0), Err(Ex::InvalidInvite));
    assert_eq!(sorted(&db.users.iter().map(|(n, _)| n.clone()).collect::<Vec<_>>()), vec!["alice".to_string()]);
    assert!(user(&db, "alice").collabs.is_empty());
}

#[test]
fn sign_up_with_clock() {
    let cfg = cfg();
    let mut db = Tables::new();
    let root = Token::new("", 900, cfg.secret_invite.as_bytes());
    assert_eq!(UserData::sign_up(&mut db, &cfg, "erin", "pw", &root), Ok(()));
    let own = Token::new("erin", 900, cfg.secret_invite.as_bytes());
    assert_eq!(
        UserData::link_collab(&mut db, &cfg, "frank", &own),
        Ok("https://wiki.example/@erin".to_string())
    );
    assert_eq!(user(&db, "erin").collabs, vec!["frank".to_string()]);
}

#[test]
fn page_new_renders() {
    let p = PageData::new("T", "plain");
    assert_eq!(p.html, "<p>plain</p>\n");
    let q = PageData::new_at("T", "", 7);
    assert_eq!(q.html, "");
    assert_eq!(q.date, 7);
}
