use survival_cubed::net::{
    fingerprint, fingerprint_hex, frame_length, frame_message, parse_fingerprint,
    read_version_header, u32_from_le, u32_to_le, version_header, Credentials, FrameTooLarge,
    KnownHosts, CREDENTIALS_HEADER, KNOWN_HOSTS_HEADER, MAX_FRAME, VERSION_MISMATCH_CLOSE,
};
use survival_cubed::protocol::PROTOCOL_VERSION;

fn sample_fp() -> [u8; 32] {
    let mut fp = [0u8; 32];
    for (i, b) in fp.iter_mut().enumerate() {
        *b = (i as u8).wrapping_mul(37).wrapping_add(5);
    }
    fp
}

#[test]
fn little_endian_words() {
    assert_eq!(u32_to_le(0x0403_0201), [1, 2, 3, 4]);
    assert_eq!(u32_from_le([1, 2, 3, 4]), 0x0403_0201);
    assert_eq!(u32_from_le(u32_to_le(u32::MAX)), u32::MAX);
    assert_eq!(u32_to_le(7), 7u32.to_le_bytes());
}

#[test]
fn version_header_carries_the_protocol_version() {
    assert_eq!(version_header(), PROTOCOL_VERSION.to_le_bytes());
    assert_eq!(read_version_header(version_header()), PROTOCOL_VERSION);
    assert_eq!(read_version_header([25, 0, 0, 0]), 25);
    assert_eq!(VERSION_MISMATCH_CLOSE, 1);
}

#[test]
fn frames_announce_their_length() {
    let frame = frame_message(b"hello");
    assert_eq!(frame, vec![5, 0, 0, 0, b'h', b'e', b'l', b'l', b'o']);
    let header = [frame[0], frame[1], frame[2], frame[3]];
    assert_eq!(frame_length(header), Ok(5));
    assert_eq!(&frame[4..4 + frame_length(header).unwrap()], b"hello");
    assert_eq!(frame_message(&[]), vec![0, 0, 0, 0]);
}

#[test]
fn oversized_frames_are_refused() {
    let at_limit = (MAX_FRAME as u32).to_le_bytes();
    assert_eq!(frame_length(at_limit), Ok(MAX_FRAME));
    let over = (MAX_FRAME as u32 + 1).to_le_bytes();
    assert_eq!(frame_length(over), Err(FrameTooLarge { len: MAX_FRAME as u32 + 1 }));
    assert_eq!(frame_length([0xff; 4]), Err(FrameTooLarge { len: u32::MAX }));
}

#[test]
fn fingerprints_are_sha256_of_the_certificate() {
    let fp = fingerprint(b"");
    assert_eq!(
        fingerprint_hex(&fp),
        "e3:b0:c4:42:98:fc:1c:14:9a:fb:f4:c8:99:6f:b9:24:27:ae:41:e4:64:9b:93:4c:a4:95:99:1b:78:52:b8:55"
    );
    let fp = fingerprint(b"cert");
    assert_eq!(fp[0], 0x06);
    assert_eq!(fp[31], 0x22);
    assert_ne!(fingerprint(b"cert"), fingerprint(b"cert2"));
}

#[test]
fn fingerprint_text_round_trips() {
    let fp = sample_fp();
    let hex = fingerprint_hex(&fp);
    assert_eq!(hex.len(), 32 * 3 - 1);
    assert_eq!(parse_fingerprint(&hex), Some(fp));
    assert_eq!(parse_fingerprint(&hex.to_uppercase()), Some(fp));
}

#[test]
fn malformed_fingerprints_do_not_parse() {
    let hex = fingerprint_hex(&sample_fp());
    assert_eq!(parse_fingerprint(""), None);
    assert_eq!(parse_fingerprint(&hex[3..]), None); // 31 groups
    assert_eq!(parse_fingerprint(&format!("{hex}:00")), None); // 33 groups
    assert_eq!(parse_fingerprint(&hex.replacen("0", "g", 1)), None);
    let groups = vec!["100"; 32].join(":"); // 0x100 doesn't fit a byte
    assert_eq!(parse_fingerprint(&groups), None);
    let short = vec!["f"; 32].join(":"); // single digits are fine
    assert_eq!(parse_fingerprint(&short), Some([0x0f; 32]));
}

#[test]
fn recorded_hosts_are_trusted() {
    let mut kh = KnownHosts::new();
    assert_eq!(kh.get("127.0.0.1:5000"), None);
    let fp = sample_fp();
    let text = kh.add_and_save("127.0.0.1:5000", fp);
    assert_eq!(kh.get("127.0.0.1:5000"), Some(&fp));
    assert_eq!(kh.get("127.0.0.1:5001"), None);
    assert!(text.starts_with(KNOWN_HOSTS_HEADER));
    assert_eq!(
        text,
        format!("{KNOWN_HOSTS_HEADER}127.0.0.1:5000 {}\n", fingerprint_hex(&fp))
    );
    // A new fingerprint for the same host replaces the old one.
    let fp2 = [9u8; 32];
    let text = kh.add_and_save("127.0.0.1:5000", fp2);
    assert_eq!(kh.get("127.0.0.1:5000"), Some(&fp2));
    assert_eq!(text, kh.to_text());
    assert_eq!(text.lines().count(), 2);
}

#[test]
fn known_hosts_text_reads_back() {
    let mut kh = KnownHosts::new();
    kh.add_and_save("alpha:1", sample_fp());
    kh.add_and_save("beta:2", [1u8; 32]);
    let back = KnownHosts::from_text(&kh.to_text());
    assert_eq!(back.get("alpha:1"), Some(&sample_fp()));
    assert_eq!(back.get("beta:2"), Some(&[1u8; 32]));
    assert_eq!(back.get("gamma:3"), None);
}

#[test]
fn known_hosts_parsing_skips_junk() {
    let fp = sample_fp();
    let text = format!(
        "# comment\n\n   \nnofingerprint\nbad zz:zz\n  host:9 \t {}  \r\n#host:8 {}\n",
        fingerprint_hex(&fp),
        fingerprint_hex(&fp)
    );
    let kh = KnownHosts::from_text(&text);
    assert_eq!(kh.get("host:9"), Some(&fp));
    assert_eq!(kh.get("#host:8"), None);
    assert_eq!(kh.get("bad"), None);
    assert_eq!(kh.get("nofingerprint"), None);
    // Later lines override earlier ones.
    let text = format!("h {}\nh {}\n", fingerprint_hex(&fp), fingerprint_hex(&[2u8; 32]));
    assert_eq!(KnownHosts::from_text(&text).get("h"), Some(&[2u8; 32]));
}

#[test]
fn remembered_logins_are_found() {
    let mut creds = Credentials::new();
    assert_eq!(creds.get("srv:1", "ada"), None);
    assert!(!creds.has_any_for_name("ada"));
    let text = creds.add_and_save("srv:1", "ada", "pw1");
    assert_eq!(creds.get("srv:1", "ada"), Some("pw1"));
    assert_eq!(creds.get("srv:2", "ada"), None);
    assert_eq!(creds.get("srv:1", "bob"), None);
    assert!(creds.has_any_for_name("ada"));
    assert!(!creds.has_any_for_name("da"));
    assert!(!creds.has_any_for_name("bob"));
    assert_eq!(text, Some(format!("{CREDENTIALS_HEADER}srv:1\0ada\tpw1\n")));
}

#[test]
fn saving_the_same_password_again_writes_nothing() {
    let mut creds = Credentials::new();
    assert!(creds.add_and_save("s", "n", "p").is_some());
    assert_eq!(creds.add_and_save("s", "n", "p"), None);
    let text = creds.add_and_save("s", "n", "q");
    assert_eq!(creds.get("s", "n"), Some("q"));
    assert_eq!(text, Some(creds.to_text()));
}

#[test]
fn credential_text_reads_back_and_skips_unwritable() {
    let mut creds = Credentials::new();
    creds.add_and_save("a:1", "ada", "secret with spaces");
    creds.add_and_save("b:2", "bo", "tab\there");
    let text = creds.to_text();
    // The password holding a tab can't be written as a line, so it is left out.
    assert!(!text.contains("tab"));
    let back = Credentials::from_text(&text);
    assert_eq!(back.get("a:1", "ada"), Some("secret with spaces"));
    assert_eq!(back.get("b:2", "bo"), None);
}

#[test]
fn credential_parsing_skips_comments_and_untabbed_lines() {
    let text = "# header\n\nno tab here\nk1\tv1\nk2\tv\t2\n#k3\tv3\n";
    let creds = Credentials::from_text(text);
    // Keys are "<host>\0<name>"; these keys have no NUL, so look them up raw
    // through a host whose key matches: none do.
    assert!(!creds.has_any_for_name("k1"));
    let text = "h\0n\tpw\nh\0n\tpw2\n";
    let creds = Credentials::from_text(text);
    assert_eq!(creds.get("h", "n"), Some("pw2"));
    let text = "h\0n\tv\t2\n";
    assert_eq!(Credentials::from_text(text).get("h", "n"), Some("v\t2"));
}

#[test]
fn fingerprint_text_is_32_two_digit_groups() {
    assert_eq!(fingerprint_hex(&[0xAB; 32]), vec!["ab"; 32].join(":"));
    let hex = fingerprint_hex(&sample_fp());
    assert_eq!(hex.len(), 95);
    let groups: Vec<&str> = hex.split(':').collect();
    assert_eq!(groups.len(), 32);
    for (i, g) in groups.iter().enumerate() {
        assert_eq!(*g, format!("{:02x}", sample_fp()[i]));
    }
}
