use note::error::Ex;
use note::names::{validate_filename, validate_username};
use note::users::UserData;

#[test]
fn password_digest_known_vector() {
    let u = UserData::new("pw", b"k");
    let expected: [u8; 32] = [
        51, 19, 206, 12, 163, 233, 120, 252, 138, 204, 15, 176, 224, 48, 36, 39, 247, 217, 130, 80,
        49, 182, 166, 47, 234, 127, 39, 14, 7, 209, 94, 29,
    ];
    assert_eq!(u.passwd, expected);
    assert!(u.collabs.is_empty());
    assert!(u.files.is_empty());
}

#[test]
fn verify_password() {
    let u = UserData::new("hunter2", b"k");
    assert_eq!(u.verify_passwd("hunter2", b"k"), Ok(()));
    assert_eq!(u.verify_passwd("hunter3", b"k"), Err(Ex::InvalidCredentials));
    assert_eq!(u.verify_passwd("hunter2", b"other"), Err(Ex::InvalidCredentials));
}

#[test]
fn update_password_needs_old_one() {
    let mut u = UserData::new("old", b"k");
    assert_eq!(u.update_passwd("wrong", "new", b"k"), Err(Ex::InvalidCredentials));
    assert_eq!(u.verify_passwd("old", b"k"), Ok(()));
    assert_eq!(u.update_passwd("old", "new", b"k"), Ok(()));
    assert_eq!(u.verify_passwd("new", b"k"), Ok(()));
    assert_eq!(u.verify_passwd("old", b"k"), Err(Ex::InvalidCredentials));
}

#[test]
fn profile_url() {
    assert_eq!(UserData::get_profile_url("https://wiki.example/", "bob"), "https://wiki.example/@bob");
    assert_eq!(UserData::get_profile_url("", "a"), "@a");
}

#[test]
fn from_parts_drops_duplicates() {
    let c = vec!["a".to_string(), "b".to_string(), "a".to_string()];
    let u = UserData::from_parts([0; 32], &c, &vec![]);
    assert_eq!(u.collabs, vec!["a".to_string(), "b".to_string()]);
}

#[test]
fn username_rule() {
    assert!(!validate_username("ab"));
    assert!(validate_username("abc"));
    assert!(validate_username("A_b-9"));
    assert!(validate_username(&"x".repeat(24)));
    assert!(!validate_username(&"x".repeat(25)));
    assert!(!validate_username("a b c"));
    assert!(!validate_username("abé"));
    assert!(!validate_username("abc/"));
}

#[test]
fn filename_rule() {
    assert!(!validate_filename(""));
    assert!(validate_filename("a"));
    assert!(validate_filename(&"f".repeat(120)));
    assert!(!validate_filename(&"f".repeat(121)));
    assert!(!validate_filename("notes.md"));
}
