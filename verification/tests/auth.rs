use survival_cubed::auth::{hash_password, hash_with_salt, record_for, verify_password};

#[test]
fn round_trips_correct_password() {
    let h = hash_password("hunter2");
    assert!(
        h.starts_with("$argon2id$"),
        "stored as an Argon2id PHC string"
    );
    assert!(verify_password("hunter2", &h));
}

#[test]
fn rejects_wrong_password() {
    let h = hash_password("hunter2");
    assert!(!verify_password("hunter3", &h));
    assert!(!verify_password("", &h));
}

#[test]
fn salts_differ_between_hashes() {
    // Same password hashed twice yields different encodings (random salt),
    // yet both verify.
    let a = hash_password("same");
    let b = hash_password("same");
    assert_ne!(a, b);
    assert!(verify_password("same", &a));
    assert!(verify_password("same", &b));
}

#[test]
fn rejects_malformed_records() {
    assert!(!verify_password("x", ""));
    assert!(!verify_password("x", "garbage"));
    assert!(!verify_password("x", "!invalid"));
    assert!(!verify_password("x", "$argon2id$v=19$bogus"));
}

#[test]
fn failed_hashing_stores_an_unusable_record() {
    let r = record_for(None);
    assert_eq!(r, "!invalid");
    assert!(!verify_password("", &r));
    assert!(!verify_password("!invalid", &r));
    assert_eq!(record_for(Some("$argon2id$abc".to_string())), "$argon2id$abc");
}

#[test]
fn hashing_is_not_the_password_itself() {
    let h = hash_password("open sesame");
    assert_ne!(h, "open sesame");
    assert!(!h.contains("open sesame"));
}

#[test]
fn hashing_under_a_given_salt_is_deterministic() {
    let a = hash_with_salt("hunter2", &[7u8; 16]).expect("short passwords hash");
    let b = hash_with_salt("hunter2", &[7u8; 16]).expect("short passwords hash");
    let c = hash_with_salt("hunter2", &[8u8; 16]).expect("short passwords hash");
    assert_eq!(a, b);
    assert_ne!(a, c);
    assert!(a.starts_with("$argon2id$"));
    assert!(verify_password("hunter2", &a));
    assert!(verify_password("hunter2", &c));
    assert!(!verify_password("hunter3", &a));
}
