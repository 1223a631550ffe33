use kiro_auth::decode_token_map;
use kiro_auth::encode_token_map;
use kiro_auth::AuthError;

fn pair(k: &str, v: &str) -> (Vec<u8>, Vec<u8>) {
    (k.as_bytes().to_vec(), v.as_bytes().to_vec())
}

#[test]
fn encode_emits_the_documented_layout() {
    let entries = vec![pair("ab", "c")];
    let bytes = encode_token_map(&entries);
    assert_eq!(
        bytes,
        vec![0, 0, 0, 1, 0, 0, 0, 2, b'a', b'b', 0, 0, 0, 1, b'c']
    );
    let empty: Vec<(Vec<u8>, Vec<u8>)> = Vec::new();
    assert_eq!(encode_token_map(&empty), vec![0, 0, 0, 0]);
}

#[test]
fn encode_then_decode_returns_the_entries() {
    let entries = vec![
        pair("grant_type", "refresh_token"),
        pair("refresh_token", "tok-123"),
        pair("empty", ""),
    ];
    let bytes = encode_token_map(&entries);
    let back = decode_token_map(&bytes).unwrap();
    assert_eq!(back, entries);
}

#[test]
fn malformed_payloads_are_errors_not_crashes() {
    // Too short for a count.
    assert_eq!(decode_token_map(&vec![0, 0, 0]), Err(AuthError::InvalidFormat));
    // A count with no entries behind it.
    assert_eq!(decode_token_map(&vec![0, 0, 0, 1]), Err(AuthError::InvalidFormat));
    // A field running past the end.
    assert_eq!(
        decode_token_map(&vec![0, 0, 0, 1, 0, 0, 0, 9, b'x']),
        Err(AuthError::InvalidFormat)
    );
    // Trailing bytes after the last entry.
    let mut bytes = encode_token_map(&vec![pair("a", "b")]);
    bytes.push(0);
    assert_eq!(decode_token_map(&bytes), Err(AuthError::InvalidFormat));
    // An empty map decodes.
    assert_eq!(decode_token_map(&vec![0, 0, 0, 0]), Ok(Vec::new()));
}
