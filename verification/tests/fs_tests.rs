use syscall_test::fs::{contains_char, read_into_chunk, ChunkRead, File};
use syscall_test::syscall::{O_APPEND, O_CREAT, O_RDONLY, O_RDWR, O_TRUNC, O_WRONLY};

#[test]
fn mode_read_only() {
    assert_eq!(File::open_flags("r"), O_RDONLY);
}

#[test]
fn mode_write_truncates_and_creates() {
    assert_eq!(File::open_flags("w"), O_WRONLY | O_TRUNC | O_CREAT);
}

#[test]
fn mode_read_write() {
    assert_eq!(File::open_flags("rw"), O_RDWR);
    assert_eq!(File::open_flags("wr"), O_RDWR);
}

#[test]
fn mode_append() {
    assert_eq!(File::open_flags("a"), O_RDONLY | O_APPEND);
    assert_eq!(File::open_flags("wa"), O_WRONLY | O_APPEND);
    assert_eq!(File::open_flags("rwa"), O_RDWR | O_APPEND);
    assert_eq!(File::open_flags("ra"), O_APPEND);
}

#[test]
fn mode_empty_truncates_and_creates() {
    assert_eq!(File::open_flags(""), O_TRUNC | O_CREAT);
    assert_eq!(File::open_flags("x"), O_TRUNC | O_CREAT);
}

#[test]
fn contains_char_finds_letters() {
    assert!(contains_char("rw", 'w'));
    assert!(!contains_char("rw", 'a'));
    assert!(!contains_char("", 'r'));
    assert!(contains_char("éa", 'a'));
}

#[test]
fn descriptor_zero_is_refused() {
    assert_eq!(File::from_fd(0).err(), Some("Something went wrong... :/ "));
    let f = File::from_fd(3).ok().unwrap();
    assert_eq!(f.fd(), 3);
}

#[test]
fn only_descriptor_zero_is_refused() {
    // A failure word from the raw call is kept as the descriptor, as in the original.
    assert_eq!(File::from_fd((-2i64) as u64).ok().map(|f| f.fd()), Some((-2i64) as u64));
    assert!(File::from_fd((-4095i64) as u64).is_ok());
    assert!(File::from_fd(u64::MAX).is_ok());
}

#[test]
fn write_succeeds_only_when_everything_was_written() {
    let f = File::from_fd(3).ok().unwrap();
    let data = "Hello there".as_bytes();
    assert_eq!(f.write(data, 11), Ok(()));
    assert_eq!(f.write(data, 5), Err("Didn't write?"));
    assert_eq!(f.write(data, u64::MAX), Err("Didn't write?"));
}

#[test]
fn read_into_reports_count_or_error() {
    let f = File::from_fd(3).ok().unwrap();
    let buffer = [0u8; 1024];
    assert_eq!(f.read_into(&buffer, 11), Ok(11));
    assert_eq!(f.read_into(&buffer, 0), Ok(0));
    assert_eq!(f.read_into(&buffer, u64::MAX), Err("Something went wrong"));
    assert_eq!(f.read_into(&buffer, (-9i64) as u64), Err("Something went wrong"));
    assert_eq!(f.read_into(&buffer, (-4095i64) as u64), Err("Something went wrong"));
}

#[test]
fn size_from_fstat() {
    let f = File::from_fd(3).ok().unwrap();
    assert_eq!(f.size(Some(11)), Ok(11));
    assert_eq!(f.size(None), Err("Something went wrong getting the size."));
    assert_eq!(f.size(Some(-1)), Ok(usize::MAX));
}

#[test]
fn chunk_kept_only_when_fully_read() {
    let chunk = b"Hello there".to_vec();
    assert_eq!(read_into_chunk(11, chunk.clone(), Ok(11)), Ok(chunk.clone()));
    assert_eq!(
        read_into_chunk(11, chunk.clone(), Ok(4)),
        Err("Didn't read expected size, did the file change?")
    );
    assert_eq!(read_into_chunk(11, chunk, Err("Something went wrong")), Err("Something went wrong"));
}

fn finished(state: ChunkRead) -> Result<Vec<u8>, &'static str> {
    match state {
        ChunkRead::Done(outcome) => outcome,
        _ => panic!("not finished"),
    }
}

#[test]
fn chunk_read_goes_through_open_size_and_read() {
    let state = ChunkRead::start().opened(3);
    let state = state.sized(Some(11));
    let size = match &state {
        ChunkRead::Reading(f, n) => {
            assert_eq!(f.fd(), 3);
            *n
        }
        _ => panic!("expected a read"),
    };
    assert_eq!(size, 11);
    let chunk = b"Hello there".to_vec();
    assert_eq!(finished(state.read(chunk.clone(), 11)), Ok(chunk));
}

#[test]
fn chunk_read_stops_at_first_failure() {
    assert_eq!(finished(ChunkRead::start().opened(0)), Err("Something went wrong... :/ "));
    assert_eq!(
        finished(ChunkRead::start().opened(3).sized(None)),
        Err("Something went wrong getting the size.")
    );
    let reading = ChunkRead::start().opened(3).sized(Some(4));
    assert_eq!(finished(reading.read(vec![0; 4], (-9i64) as u64)), Err("Something went wrong"));
    let reading = ChunkRead::start().opened(3).sized(Some(4));
    assert_eq!(
        finished(reading.read(vec![0; 4], 3)),
        Err("Didn't read expected size, did the file change?")
    );
}
