use syscall_test::syscall::{
    fstat_filesize, get_filesize, sbrk, stat_filesize, stat_syscall, str_to_zero_padded, O_APPEND,
    O_CREAT, O_RDONLY, O_RDWR, O_TRUNC, O_WRONLY,
};

fn stat_with_size(size: i64) -> [u8; 144] {
    let mut stat = [0xAAu8; 144];
    stat[48..56].copy_from_slice(&size.to_le_bytes());
    stat
}

#[test]
fn zero_padded_copies_path_then_zeros() {
    let buffer = str_to_zero_padded("/tmp/barz");
    assert_eq!(&buffer[..9], b"/tmp/barz");
    assert!(buffer[9..].iter().all(|b| *b == 0));
    assert_eq!(buffer.len(), 1024);
}

#[test]
fn zero_padded_of_empty_path_is_all_zeros() {
    let buffer = str_to_zero_padded("");
    assert!(buffer.iter().all(|b| *b == 0));
}

#[test]
fn zero_padded_longest_path_keeps_terminator() {
    let path = "a".repeat(1023);
    let buffer = str_to_zero_padded(&path);
    assert!(buffer[..1023].iter().all(|b| *b == b'a'));
    assert_eq!(buffer[1023], 0);
}

#[test]
fn zero_padded_keeps_multibyte_text() {
    let buffer = str_to_zero_padded("/tmp/é");
    assert_eq!(&buffer[..7], "/tmp/é".as_bytes());
    assert_eq!(buffer[7], 0);
}

#[test]
fn filesize_reads_little_endian_word_at_48() {
    assert_eq!(get_filesize(&stat_with_size(24)), 24);
    assert_eq!(get_filesize(&stat_with_size(0x0102_0304_0506_0708)), 0x0102_0304_0506_0708);
    assert_eq!(get_filesize(&stat_with_size(-1)), -1);
    assert_eq!(get_filesize(&stat_with_size(i64::MIN)), i64::MIN);
}

#[test]
fn stat_outcome_depends_on_result() {
    let stat = stat_with_size(7);
    assert_eq!(stat_syscall(0, stat), Some(stat));
    assert_eq!(stat_syscall(u64::MAX - 1, stat), None);
    assert_eq!(stat_filesize(0, stat), Some(7));
    assert_eq!(stat_filesize(2, stat), None);
    assert_eq!(fstat_filesize(0, stat_with_size("My awesome test string.\n".len() as i64)), Some(24));
    assert_eq!(fstat_filesize(9, stat), None);
}

#[test]
fn sbrk_moves_break_by_delta() {
    assert_eq!(sbrk(0x5000, 0), 0x5000);
    assert_eq!(sbrk(0x5000, 10000), 0x5000 + 10000);
    assert_eq!(sbrk(0x5000 + 10000, -10000), 0x5000);
}

#[test]
fn sbrk_grow_then_shrink_restores_break() {
    let start: u64 = 0x55_5555_8000;
    let grown = sbrk(start, 10000);
    assert_eq!(sbrk(grown, -10000), start);
}

#[test]
fn sbrk_reads_high_break_as_signed() {
    // A break above 2^63 is read as a negative number, as the computation does.
    assert_eq!(sbrk(u64::MAX, 1), 0);
}

#[test]
fn open_flag_values() {
    assert_eq!(O_RDONLY, 0);
    assert_eq!(O_WRONLY, 1);
    assert_eq!(O_RDWR, 2);
    assert_eq!(O_CREAT, 0o100);
    assert_eq!(O_TRUNC, 0o1000);
    assert_eq!(O_APPEND, 0o2000);
}
