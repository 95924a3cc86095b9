use braindamage::{BraindamageIo, Cell, FileIo, FileWrite, TestIo};
use std::fmt::Debug;

// The file behind a file channel, kept in memory: `None` is a missing file.
type Disk<T> = Option<Vec<T>>;

fn file_read<T: Cell>(io: &mut FileIo<T>, disk: &Disk<T>) -> T {
    if io.needs_load() {
        io.load(disk.clone().unwrap_or_default());
    }
    io.next_read()
}

fn file_write<T: Cell>(io: &mut FileIo<T>, disk: &mut Disk<T>, value: T) -> T {
    match io.write(value) {
        FileWrite::Stored(v) => v,
        FileWrite::Flush(cells) => {
            *disk = Some(cells);
            FileIo::<T>::flush_result(true)
        }
    }
}

#[test]
fn test_read_empty() {
    let disk: Disk<u8> = None;
    let mut io: FileIo<u8> = FileIo::new("empty");
    assert_eq!(file_read(&mut io, &disk), 0u8);
    assert_eq!(file_read(&mut io, &disk), 0u8);

    let disk: Disk<u16> = None;
    let mut io: FileIo<u16> = FileIo::new("empty");
    assert_eq!(file_read(&mut io, &disk), 0u16);
    assert_eq!(file_read(&mut io, &disk), 0u16);

    let disk: Disk<u32> = None;
    let mut io: FileIo<u32> = FileIo::new("empty");
    assert_eq!(file_read(&mut io, &disk), 0u32);
    assert_eq!(file_read(&mut io, &disk), 0u32);
}

fn read_write_type<T>(file: &str, data: &[T])
where
    T: Cell + PartialEq + Debug + From<u8>,
{
    let mut disk: Disk<T> = None;
    let mut io: FileIo<T> = FileIo::new(file);

    // No file: the read gives the end value.
    assert_eq!(file_read(&mut io, &disk), 0u8.into());

    for var in data {
        assert_eq!(file_write(&mut io, &mut disk, *var), *var);
        assert_eq!(file_read(&mut io, &disk), 0u8.into());
    }

    assert_eq!(file_write(&mut io, &mut disk, 0u8.into()), 0u8.into());
    for var in data {
        assert_eq!(file_read(&mut io, &disk), *var);
    }
    assert_eq!(file_read(&mut io, &disk), 0u8.into());
    for var in data {
        assert_eq!(file_read(&mut io, &disk), *var);
    }
}

#[test]
fn test_read_write() {
    const TEST_FILE: &str = "fileio_test_read_write.test";
    read_write_type(TEST_FILE, &[1u8, 2u8, 3u8, 4u8, 5u8, 6u8, 7u8, 8u8]);
    read_write_type(TEST_FILE, &[1u16, 2u16, 3u16, 4u16, 5u16, 6u16, 7u16, 8u16]);
    read_write_type(TEST_FILE, &[1u32, 2u32, 3u32, 4u32, 5u32, 6u32, 7u32, 8u32]);
}

#[test]
fn test_only_load_on_zero() {
    let mut disk: Disk<u8> = None;
    let mut io: FileIo<u8> = FileIo::new("fileio_only_load_on_zero.test");

    // Write
    assert_eq!(file_read(&mut io, &disk), 0u8);
    assert_eq!(file_write(&mut io, &mut disk, 1u8), 1u8);
    assert_eq!(file_write(&mut io, &mut disk, 1u8), 1u8);
    assert_eq!(file_write(&mut io, &mut disk, 1u8), 1u8);
    assert_eq!(file_write(&mut io, &mut disk, 0u8), 0u8); // Save

    // Read once
    assert_eq!(file_read(&mut io, &disk), 1u8);
    assert_eq!(file_read(&mut io, &disk), 1u8);
    assert_eq!(file_read(&mut io, &disk), 1u8);
    assert_eq!(file_read(&mut io, &disk), 0u8); // End of file
    assert_eq!(file_read(&mut io, &disk), 1u8);

    // Write a different value
    assert_eq!(file_write(&mut io, &mut disk, 9u8), 9u8);
    assert_eq!(file_write(&mut io, &mut disk, 9u8), 9u8);
    assert_eq!(file_write(&mut io, &mut disk, 9u8), 9u8);
    assert_eq!(file_write(&mut io, &mut disk, 0u8), 0u8); // Save

    // Read two more 1
    assert_eq!(file_read(&mut io, &disk), 1u8);
    assert_eq!(file_read(&mut io, &disk), 1u8);
    assert_eq!(file_read(&mut io, &disk), 0u8); // End of file

    // Read new values
    assert_eq!(file_read(&mut io, &disk), 9u8);
    assert_eq!(file_read(&mut io, &disk), 9u8);
    assert_eq!(file_read(&mut io, &disk), 9u8);
    assert_eq!(file_read(&mut io, &disk), 0u8); // End of file

    // Write a different value
    assert_eq!(file_write(&mut io, &mut disk, 5u8), 5u8);
    assert_eq!(file_write(&mut io, &mut disk, 5u8), 5u8);
    assert_eq!(file_write(&mut io, &mut disk, 5u8), 5u8);
    assert_eq!(file_write(&mut io, &mut disk, 0u8), 0u8); // Save

    // Read new values
    assert_eq!(file_read(&mut io, &disk), 5u8);
    assert_eq!(file_read(&mut io, &disk), 5u8);
    assert_eq!(file_read(&mut io, &disk), 5u8);
    assert_eq!(file_read(&mut io, &disk), 0u8); // End of file
}

#[test]
fn test_clear_file_on_small_buffer() {
    let mut disk: Disk<u8> = None;
    let mut io: FileIo<u8> = FileIo::new("fileio_test_clear_file_on_small_buffer.test");

    // Write 111
    assert_eq!(file_read(&mut io, &disk), 0u8);
    assert_eq!(file_write(&mut io, &mut disk, 1u8), 1u8);
    assert_eq!(file_write(&mut io, &mut disk, 1u8), 1u8);
    assert_eq!(file_write(&mut io, &mut disk, 1u8), 1u8);
    assert_eq!(file_write(&mut io, &mut disk, 0u8), 0u8); // Save

    // Write 8
    assert_eq!(file_write(&mut io, &mut disk, 8u8), 8u8);
    assert_eq!(file_write(&mut io, &mut disk, 0u8), 0u8); // Save

    // Read 80
    assert_eq!(file_read(&mut io, &disk), 8u8);
    assert_eq!(file_read(&mut io, &disk), 0u8); // End of file
    assert_eq!(file_read(&mut io, &disk), 8u8);
    assert_eq!(file_read(&mut io, &disk), 0u8); // End of file
    assert_eq!(file_read(&mut io, &disk), 8u8);
    assert_eq!(file_read(&mut io, &disk), 0u8); // End of file
}

#[test]
fn file_flush_hands_over_buffer_and_reports_result() {
    let mut io: FileIo<u16> = FileIo::new("data");
    assert_eq!(io.file_name(), "data");
    match io.write(300u16) {
        FileWrite::Stored(v) => assert_eq!(v, 300u16),
        FileWrite::Flush(_) => panic!("a non-zero value is stored"),
    }
    match io.write(7u16) {
        FileWrite::Stored(v) => assert_eq!(v, 7u16),
        FileWrite::Flush(_) => panic!("a non-zero value is stored"),
    }
    match io.write(0u16) {
        FileWrite::Flush(cells) => assert_eq!(cells, vec![300u16, 7u16]),
        FileWrite::Stored(_) => panic!("the end value flushes"),
    }
    match io.write(0u16) {
        FileWrite::Flush(cells) => assert!(cells.is_empty()),
        FileWrite::Stored(_) => panic!("the end value flushes"),
    }
    assert_eq!(FileIo::<u16>::flush_result(true), 0u16);
    assert_eq!(FileIo::<u16>::flush_result(false), 1u16);
}

#[test]
fn file_channel_scenario_flush_on_zero() {
    let mut disk: Disk<u8> = None;
    let mut io: FileIo<u8> = FileIo::new("scenario");
    for v in [1u8, 1, 1, 0] {
        assert_eq!(file_write(&mut io, &mut disk, v), v);
    }
    let first: Vec<u8> = (0..4).map(|_| file_read(&mut io, &disk)).collect();
    assert_eq!(first, vec![1, 1, 1, 0]);
    // The next read starts a cycle on the same file.
    assert_eq!(file_read(&mut io, &disk), 1);
    for v in [9u8, 9, 9, 0] {
        assert_eq!(file_write(&mut io, &mut disk, v), v);
    }
    let rest: Vec<u8> = (0..3).map(|_| file_read(&mut io, &disk)).collect();
    assert_eq!(rest, vec![1, 1, 0]);
    let fresh: Vec<u8> = (0..4).map(|_| file_read(&mut io, &disk)).collect();
    assert_eq!(fresh, vec![9, 9, 9, 0]);
}

#[test]
fn test_read_no_loop() {
    let mut io: TestIo<u8> = TestIo::new(vec![0, 1, 2], false, Vec::new());
    assert!(io.is_write_done());
    assert!(!io.is_read_done());
    assert!(!io.is_done());
    assert_eq!(io.read(), 0u8);
    assert_eq!(io.read(), 1u8);
    assert_eq!(io.read(), 2u8);
    assert!(io.is_read_done());
    assert!(io.is_done());
    assert!(!io.has_failed());
    assert_eq!(io.read(), 0u8);
    assert!(io.has_failed());

    let mut io: TestIo<u8> = TestIo::new(vec![9, 6, 3], false, Vec::new());
    assert!(io.is_write_done());
    assert!(!io.is_read_done());
    assert!(!io.is_done());
    assert_eq!(io.read(), 9u8);
    assert_eq!(io.read(), 6u8);
    assert_eq!(io.read(), 3u8);
    assert!(io.is_read_done());
    assert!(io.is_done());
    io.read();
    assert!(io.has_failed());

    let mut io: TestIo<u8> = TestIo::new(Vec::new(), false, Vec::new());
    assert!(io.is_write_done());
    assert!(io.is_read_done());
    assert!(io.is_done());
    io.read();
    assert!(io.has_failed());
}

#[test]
fn test_read_loop() {
    let mut io: TestIo<u8> = TestIo::new(vec![0, 1, 2], true, Vec::new());
    assert!(io.is_write_done());
    assert!(io.is_read_done());
    assert!(io.is_done());
    assert_eq!(io.read(), 0u8);
    assert_eq!(io.read(), 1u8);
    assert_eq!(io.read(), 2u8);

    assert_eq!(io.read(), 0u8);
    assert_eq!(io.read(), 1u8);
    assert_eq!(io.read(), 2u8);

    let mut io: TestIo<u8> = TestIo::new(vec![9, 6, 3], true, Vec::new());
    assert!(io.is_write_done());
    assert!(io.is_read_done());
    assert!(io.is_done());
    assert_eq!(io.read(), 9u8);
    assert_eq!(io.read(), 6u8);
    assert_eq!(io.read(), 3u8);

    assert_eq!(io.read(), 9u8);
    assert_eq!(io.read(), 6u8);
    assert_eq!(io.read(), 3u8);
}

#[test]
fn test_write() {
    let mut io: TestIo<u8> = TestIo::new(Vec::new(), true, vec![1, 2, 3, 4]);
    assert!(!io.is_write_done());
    assert!(io.is_read_done());
    assert!(!io.is_done());
    assert_eq!(io.write(1u8), 1u8);
    assert_eq!(io.write(2u8), 2u8);
    assert_eq!(io.write(3u8), 3u8);
    assert_eq!(io.write(4u8), 4u8);
    assert!(io.is_write_done());
    assert!(io.is_done());
    assert!(!io.has_failed());
    io.write(4u8);
    assert!(io.has_failed());

    let mut io: TestIo<u8> = TestIo::new(Vec::new(), true, vec![8, 0]);
    assert!(!io.is_write_done());
    assert!(io.is_read_done());
    assert!(!io.is_done());
    assert_eq!(io.write(8u8), 8u8);
    assert_eq!(io.write(0u8), 0u8);
    assert!(io.is_write_done());
    assert!(io.is_done());
    io.write(0u8);
    assert!(io.has_failed());
}

#[test]
fn test_io_write_mismatch_marks_failure() {
    let mut io: TestIo<u32> = TestIo::new(Vec::new(), false, vec![5, 6]);
    assert_eq!(io.write(5u32), 5u32);
    assert!(!io.has_failed());
    assert_eq!(io.write(7u32), 7u32);
    assert!(io.has_failed());
    assert!(io.is_write_done());
}
