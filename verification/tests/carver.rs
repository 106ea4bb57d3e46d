//! Searching bytes.

use filerecovery::bytes::find_subsequence;

#[test]
fn finds_subsequence() {
    assert_eq!(find_subsequence(b"hello world", b"wor"), Some(6));
    assert_eq!(find_subsequence(b"hello", b"xyz"), None);
    assert_eq!(find_subsequence(b"abc", b""), None);
}
