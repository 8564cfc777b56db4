use gameserver::key::{generate_flag, hex_string, hmac_sha256};

#[test]
fn tokens_are_deterministic() {
    let svc = "echo".to_string();
    let secret = "game-secret".to_string();
    let a = generate_flag(3, 7, &svc, &secret);
    let b = generate_flag(3, 7, &svc, &secret);
    assert_eq!(a, b);
}

#[test]
fn token_carries_the_canonical_payload() {
    let svc = "echo".to_string();
    let secret = "k".to_string();
    let token = generate_flag(1, 2, &svc, &secret);
    assert!(token.starts_with("flag{tick=1|team=2|svc=echo|hmac="));
    assert!(token.ends_with("}"));
    // 64 lower-case hex digits between the marker and the brace
    let prefix = "flag{tick=1|team=2|svc=echo|hmac=";
    assert_eq!(token.len(), prefix.len() + 64 + 1);
    let hex = &token[prefix.len()..token.len() - 1];
    assert!(hex.chars().all(|c| c.is_ascii_hexdigit() && !c.is_ascii_uppercase()));
}

#[test]
fn distinct_inputs_give_distinct_tokens() {
    let svc = "echo".to_string();
    let secret = "k".to_string();
    let t1 = generate_flag(1, 2, &svc, &secret);
    let t2 = generate_flag(2, 2, &svc, &secret);
    let t3 = generate_flag(1, 3, &svc, &secret);
    assert_ne!(t1, t2);
    assert_ne!(t1, t3);
    // and a different secret changes the digest
    let other = generate_flag(1, 2, &svc, &"other".to_string());
    assert_ne!(t1, other);
}

#[test]
fn negative_identifiers_render_with_a_sign() {
    let svc = "echo".to_string();
    let secret = "k".to_string();
    let token = generate_flag(-1, -12, &svc, &secret);
    assert!(token.starts_with("flag{tick=-1|team=-12|svc=echo|hmac="));
}

#[test]
fn hmac_matches_the_published_test_vectors() {
    // RFC 4231 test case 2: key "Jefe", message "what do ya want for nothing?"
    let mac = hmac_sha256(b"Jefe", b"what do ya want for nothing?");
    assert_eq!(
        hex_string(&mac),
        "5bdcc146bf60754e6a042426089575c75a003f089d2739839dec58b964ec3843"
    );
    // RFC 4231 test case 1: twenty 0x0b bytes as key, message "Hi There"
    let mac = hmac_sha256(&[0x0b; 20], b"Hi There");
    assert_eq!(
        hex_string(&mac),
        "b0344c61d8db38535ca8afceaf0bf12b881dc200c9833da726e9376c2e32cff7"
    );
}

#[test]
fn hex_renders_bytes_low_nibble_last() {
    assert_eq!(hex_string(&vec![]), "");
    assert_eq!(hex_string(&vec![0x00, 0xff, 0x1a]), "00ff1a");
}
