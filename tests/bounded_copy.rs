use rust_wrappers::copy::{bounded_copy, safe_strcpy_rust, CopyError};
use rust_wrappers::cstr::terminator_offset;

const GUARD: u8 = 0xAB;

/// A destination of `capacity` bytes filled with `fill`, followed by four guard bytes.
fn guarded(capacity: usize, fill: u8) -> Vec<u8> {
    let mut v = vec![fill; capacity];
    v.extend_from_slice(&[GUARD; 4]);
    v
}

fn guards_intact(v: &[u8], capacity: usize) -> bool {
    v[capacity..].iter().all(|&b| b == GUARD)
}

#[test]
fn truncates_long_source() {
    let mut dest = guarded(6, 0xFF);
    safe_strcpy_rust(&mut dest, b"HelloWorld\0", 6);
    assert_eq!(&dest[..6], b"Hello\0");
    assert!(guards_intact(&dest, 6));
}

#[test]
fn exact_fit_uses_whole_buffer() {
    let mut dest = guarded(3, 0xFF);
    safe_strcpy_rust(&mut dest, b"Hi\0", 3);
    assert_eq!(&dest[..3], b"Hi\0");
    assert!(guards_intact(&dest, 3));
}

#[test]
fn zero_capacity_is_refused() {
    let mut dest = guarded(0, 0xFF);
    assert_eq!(bounded_copy(&mut dest, b"Hi\0", 0), Err(CopyError::ZeroCapacity));
    assert!(guards_intact(&dest, 0));
    safe_strcpy_rust(&mut dest, b"Hi\0", 0);
    assert!(guards_intact(&dest, 0));
}

#[test]
fn capacity_larger_than_buffer_is_refused() {
    let mut dest = vec![0x11u8; 4];
    assert_eq!(
        bounded_copy(&mut dest, b"Hi\0", 5),
        Err(CopyError::CapacityExceedsBuffer)
    );
    assert_eq!(dest, vec![0x11u8; 4]);
    safe_strcpy_rust(&mut dest, b"Hi\0", 5);
    assert_eq!(dest, vec![0x11u8; 4]);
}

#[test]
fn unterminated_source_is_refused() {
    let mut dest = vec![0x11u8; 8];
    assert_eq!(
        bounded_copy(&mut dest, b"Hello", 8),
        Err(CopyError::UnterminatedSource)
    );
    assert_eq!(dest, vec![0x11u8; 8]);
}

#[test]
fn zero_capacity_checked_before_other_errors() {
    let mut dest: Vec<u8> = Vec::new();
    assert_eq!(bounded_copy(&mut dest, b"abc", 0), Err(CopyError::ZeroCapacity));
    assert_eq!(
        bounded_copy(&mut dest, b"abc", 1),
        Err(CopyError::CapacityExceedsBuffer)
    );
}

#[test]
fn result_reports_source_length() {
    let mut dest = guarded(6, 0);
    assert_eq!(bounded_copy(&mut dest, b"HelloWorld\0", 6), Ok(10));
    assert_eq!(&dest[..6], b"Hello\0");
    let mut dest = guarded(6, 0);
    assert_eq!(bounded_copy(&mut dest, b"Hey\0", 6), Ok(3));
    assert_eq!(&dest[..4], b"Hey\0");
}

#[test]
fn stops_at_first_zero_byte() {
    let mut dest = guarded(8, 0xFF);
    assert_eq!(bounded_copy(&mut dest, b"ab\0cd\0", 8), Ok(2));
    assert_eq!(&dest[..8], b"ab\0\xFF\xFF\xFF\xFF\xFF");
    assert!(guards_intact(&dest, 8));
}

#[test]
fn source_of_capacity_minus_one_fits() {
    let mut dest = guarded(5, 0xFF);
    safe_strcpy_rust(&mut dest, b"abcd\0", 5);
    assert_eq!(&dest[..5], b"abcd\0");
    assert!(guards_intact(&dest, 5));
}

#[test]
fn source_of_capacity_minus_two_leaves_last_byte() {
    let mut dest = guarded(5, 0xFF);
    safe_strcpy_rust(&mut dest, b"abc\0", 5);
    assert_eq!(&dest[..5], b"abc\0\xFF");
    assert!(guards_intact(&dest, 5));
}

#[test]
fn empty_source_gives_terminator_first() {
    let mut dest = guarded(5, 0xFF);
    safe_strcpy_rust(&mut dest, b"\0", 5);
    assert_eq!(&dest[..5], b"\0\xFF\xFF\xFF\xFF");
    assert!(guards_intact(&dest, 5));
}

#[test]
fn capacity_one_holds_only_terminator() {
    let mut dest = guarded(1, 0xFF);
    assert_eq!(bounded_copy(&mut dest, b"xyz\0", 1), Ok(3));
    assert_eq!(&dest[..1], b"\0");
    assert!(guards_intact(&dest, 1));
}

#[test]
fn repeated_copies_agree() {
    let mut first = guarded(6, 0);
    let mut second = guarded(6, 0);
    safe_strcpy_rust(&mut first, b"HelloWorld\0", 6);
    safe_strcpy_rust(&mut second, b"HelloWorld\0", 6);
    assert_eq!(first, second);
    let again = first.clone();
    safe_strcpy_rust(&mut first, b"HelloWorld\0", 6);
    assert_eq!(first, again);
}

#[test]
fn same_string_whatever_destination_held() {
    let mut zeros = guarded(6, 0x00);
    let mut ones = guarded(6, 0xFF);
    safe_strcpy_rust(&mut zeros, b"abc\0", 6);
    safe_strcpy_rust(&mut ones, b"abc\0", 6);
    assert_eq!(&zeros[..4], &ones[..4]);
    assert_eq!(&zeros[..4], b"abc\0");
}

#[test]
fn terminator_offset_finds_first_zero() {
    assert_eq!(terminator_offset(b"HelloWorld\0"), Some(10));
    assert_eq!(terminator_offset(b"\0abc\0"), Some(0));
    assert_eq!(terminator_offset(b"abc"), None);
    assert_eq!(terminator_offset(b""), None);
}
