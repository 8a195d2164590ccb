use syscall_test::support::{memcmp, memcpy, memset, strlen};
use syscall_test::util::{u8_as_str, utf8_text, void_as_bytes, void_as_str, Utf8Failure};

#[test]
fn strlen_stops_at_zero_or_limit() {
    assert_eq!(strlen(b"abc\0def", 100), 3);
    assert_eq!(strlen(b"abcdef", 4), 4);
    assert_eq!(strlen(b"\0", 10), 0);
    assert_eq!(strlen(b"abc", 3), 3);
    assert_eq!(strlen(b"", 0), 0);
}

#[test]
fn memcpy_copies_prefix_only() {
    let mut dest = [9u8; 5];
    memcpy(&mut dest, &[1, 2, 3, 4], 3);
    assert_eq!(dest, [1, 2, 3, 9, 9]);
    memcpy(&mut dest, &[7], 0);
    assert_eq!(dest, [1, 2, 3, 9, 9]);
}

#[test]
fn memset_uses_low_byte() {
    let mut buffer = [1u8; 4];
    memset(&mut buffer, 0x1FF, 2);
    assert_eq!(buffer, [0xFF, 0xFF, 1, 1]);
    memset(&mut buffer, 0, 4);
    assert_eq!(buffer, [0, 0, 0, 0]);
    memset(&mut buffer, -1, 1);
    assert_eq!(buffer, [0xFF, 0, 0, 0]);
}

#[test]
fn memcmp_orders_by_first_difference() {
    assert_eq!(memcmp(&[1, 2, 3], &[1, 2, 3], 3), 0);
    assert_eq!(memcmp(&[1, 2, 3], &[1, 5, 0], 3), -1);
    assert_eq!(memcmp(&[1, 9, 0], &[1, 5, 7], 3), 1);
    assert_eq!(memcmp(&[1, 2, 3], &[1, 2, 4], 2), 0);
    assert_eq!(memcmp(&[200], &[100], 1), 1);
    assert_eq!(memcmp(&[], &[], 0), 0);
}

#[test]
fn memcmp_after_memcpy_is_equal() {
    let src = [5u8, 6, 7, 8];
    let mut dest = [0u8; 6];
    memcpy(&mut dest, &src, 4);
    assert_eq!(memcmp(&dest, &src, 4), 0);
}

#[test]
fn memcmp_swapped_operands_negate() {
    let a = [3u8, 1];
    let b = [3u8, 2];
    assert_eq!(memcmp(&a, &b, 2), -memcmp(&b, &a, 2));
}

#[test]
fn c_strings_from_memory() {
    let memory = b"hello\0world";
    assert_eq!(void_as_bytes(memory, 1000), b"hello");
    assert_eq!(void_as_bytes(memory, 3), b"hel");
    assert_eq!(void_as_str(memory, 1000).ok(), Some("hello"));
    assert_eq!(u8_as_str(b"My awesome test string.\n\0\0\0", 1024).ok(), Some("My awesome test string.\n"));
}

fn failure_at(result: Result<&str, Utf8Failure>) -> (usize, Option<usize>) {
    match result {
        Ok(_) => panic!("expected invalid UTF-8"),
        Err(f) => {
            assert_eq!(f.valid_up_to, f.error.valid_up_to());
            (f.valid_up_to, f.error.error_len())
        }
    }
}

#[test]
fn invalid_utf8_is_an_error() {
    let memory = [0xFFu8, 0xFE, 0];
    assert_eq!(failure_at(void_as_str(&memory, 10)), (0, Some(1)));
    assert_eq!(failure_at(u8_as_str(&memory, 10)), (0, Some(1)));
}

#[test]
fn invalid_utf8_reports_longest_valid_prefix() {
    // "ab", then a lone continuation byte, then "c".
    assert_eq!(failure_at(utf8_text(&[b'a', b'b', 0x80, b'c'])), (2, Some(1)));
    // "é" (two bytes) followed by a cut-off three-byte sequence.
    assert_eq!(failure_at(utf8_text(&[0xC3, 0xA9, 0xE2, 0x82])), (2, None));
    for bytes in [&[b'x', 0xFF, b'y', b'z'][..], &[0xC3, 0x28][..], &[b'o', b'k', 0xED, 0xA0, 0x80][..]] {
        let expected = core::str::from_utf8(bytes).unwrap_err();
        assert_eq!(failure_at(utf8_text(bytes)), (expected.valid_up_to(), expected.error_len()));
    }
    assert_eq!(utf8_text("héllo".as_bytes()).ok(), Some("héllo"));
}

#[test]
fn cut_off_and_invalid_sequences_stay_apart() {
    assert_eq!(failure_at(utf8_text(&[0xC3])), (0, None));
    assert_eq!(failure_at(utf8_text(&[0xC3, 0x28])), (0, Some(1)));
}
