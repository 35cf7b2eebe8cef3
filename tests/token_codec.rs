use note::token::{Token, SIGNATURE_LEN};

const SECRET: &[u8] = b"secret";

#[test]
fn sign_matches_known_vector() {
    let t = Token::sign("alice", 1000, SECRET);
    assert_eq!(t, "YWxpY2XoAwAAAAAAAA-VIW3XzC107HvC5_CN4Mz6qyAQI37aSrcuGGJ9uTY3s");
}

#[test]
fn round_trip_before_expiry() {
    let t = Token::sign("alice", 1000, SECRET);
    assert_eq!(Token::parse_at(&t, SECRET, 999), Some("alice".to_string()));
    assert_eq!(Token::parse_at(&t, SECRET, -5), Some("alice".to_string()));
}

#[test]
fn rejected_from_expiry_on() {
    let t = Token::sign("alice", 1000, SECRET);
    assert_eq!(Token::parse_at(&t, SECRET, 1000), None);
    assert_eq!(Token::parse_at(&t, SECRET, 5000), None);
}

#[test]
fn round_trip_with_clock() {
    let t = Token::new("bob", 3600, SECRET);
    assert_eq!(Token::parse(&t, SECRET), Some("bob".to_string()));
}

#[test]
fn empty_subject_round_trip() {
    let t = Token::new("", 900, SECRET);
    assert_eq!(Token::parse(&t, SECRET), Some(String::new()));
    let z = Token::sign("", 0, SECRET);
    assert!(z.starts_with("AAAAAAAAAAA"));
    assert_eq!(z.len(), 11 + SIGNATURE_LEN);
}

#[test]
fn already_expired_token_rejected() {
    let t = Token::new("carol", -1, SECRET);
    assert_eq!(Token::parse(&t, SECRET), None);
    let zero = Token::new("carol", 0, SECRET);
    assert_eq!(Token::parse(&zero, SECRET), None);
}

#[test]
fn non_ascii_subject_round_trip() {
    let t = Token::sign("zoë-名前", 50, SECRET);
    assert_eq!(Token::parse_at(&t, SECRET, 10), Some("zoë-名前".to_string()));
}

#[test]
fn every_single_character_change_rejected() {
    let t = Token::sign("alice", 1000, SECRET);
    let chars: Vec<char> = t.chars().collect();
    for i in 0..chars.len() {
        for repl in ['A', 'z', '0', '-', '_'] {
            if chars[i] == repl {
                continue;
            }
            let mut c = chars.clone();
            c[i] = repl;
            let forged: String = c.into_iter().collect();
            assert_eq!(Token::parse_at(&forged, SECRET, 0), None, "position {i}");
        }
    }
}

#[test]
fn other_secret_rejected() {
    let t = Token::sign("alice", 1000, SECRET);
    assert_eq!(Token::parse_at(&t, b"secreT", 0), None);
    assert_eq!(Token::parse_at(&t, b"", 0), None);
}

#[test]
fn short_tokens_rejected() {
    assert_eq!(Token::parse_at("", SECRET, 0), None);
    let t = Token::sign("alice", 1000, SECRET);
    let sig = &t[t.len() - SIGNATURE_LEN..];
    assert_eq!(Token::parse_at(&sig[1..], SECRET, 0), None);
    assert_eq!(Token::parse_at(&"A".repeat(42), SECRET, 0), None);
}

#[test]
fn bare_signature_without_payload_rejected() {
    let t = Token::sign("alice", 1000, SECRET);
    let sig = &t[t.len() - SIGNATURE_LEN..];
    assert_eq!(Token::parse_at(sig, SECRET, 0), None);
}

#[test]
fn non_ascii_token_rejected() {
    let t = Token::sign("alice", 1000, SECRET);
    let bad = format!("é{t}");
    assert_eq!(Token::parse_at(&bad, SECRET, 0), None);
}

#[test]
fn issued_token_length_and_alphabet() {
    for sub in ["", "alice", "zoë"] {
        let t = Token::issue_invite(sub, SECRET);
        let n = sub.len() + 8;
        assert_eq!(t.len(), (4 * n + 2) / 3 + SIGNATURE_LEN);
        assert!(t.chars().all(|c| c.is_ascii_alphanumeric() || c == '-' || c == '_'));
        assert_eq!(Token::parse(&t, SECRET), Some(sub.to_string()));
        let s = Token::issue_session(sub, SECRET);
        assert_eq!(s.len(), t.len());
        assert_eq!(Token::parse(&s, SECRET), Some(sub.to_string()));
    }
}
