use parallel::arguments::disk_buffer::{DiskBuffer, DiskRead, BUFFER_SIZE};
use parallel::arguments::errors::{FileErr, InputIteratorErr};
use parallel::arguments::iterator::{InputBuffer, InputIterator, Step};

/// A file held in memory, read the way a driver reads a file on disk: never
/// more bytes than asked for, and never more than `most` at once.
struct Disk {
    data: Vec<u8>,
    offset: usize,
    most: usize,
}

impl Disk {
    fn new(data: &[u8], most: usize) -> Disk {
        Disk { data: data.to_vec(), offset: 0, most }
    }

    fn read(&mut self, want: usize) -> DiskRead {
        let end = self.data.len().min(self.offset + want.min(self.most));
        let bytes = self.data[self.offset..end].to_vec();
        self.offset = end;
        DiskRead::Bytes(bytes)
    }
}

fn open(path: &str, data: &[u8], total: usize, most: usize) -> (InputIterator, Disk) {
    let mut disk = Disk::new(data, most);
    let first = disk.read(BUFFER_SIZE);
    (InputIterator::new(path, total, first).unwrap(), disk)
}

/// Pulls until a record, the end or an error comes, reading whenever the
/// stream asks.
fn pull(stream: &mut InputIterator, disk: &mut Disk) -> Option<Result<String, InputIteratorErr>> {
    loop {
        match stream.next() {
            Step::Record(record) => return Some(Ok(record)),
            Step::Done => return None,
            Step::Failed(why) => return Some(Err(why)),
            Step::Refill(want) => {
                assert!(want >= 1 && want <= BUFFER_SIZE);
                if let Err(why) = stream.buffer(disk.read(want)) {
                    return Some(Err(why));
                }
            }
        }
    }
}

fn read_all(data: &[u8], total: usize, most: usize) -> Vec<String> {
    let (mut stream, mut disk) = open("arguments", data, total, most);
    let mut records = Vec::new();
    while let Some(record) = pull(&mut stream, &mut disk) {
        records.push(record.unwrap());
    }
    assert_eq!(pull(&mut stream, &mut disk), None);
    records
}

fn numbers(last: usize) -> Vec<u8> {
    let mut data = Vec::new();
    for number in 1..=last {
        data.extend_from_slice(format!("{}\n", number).as_bytes());
    }
    data
}

#[test]
fn test_input_iterator() {
    let data = numbers(4096);
    let (mut iterator, mut disk) = open("tests/buffer.dat", &data, 4096, BUFFER_SIZE);
    assert_eq!(0, iterator.window_start());
    assert_eq!(1859, iterator.window_end());
    for expected in 1..4096 {
        let actual = pull(&mut iterator, &mut disk).unwrap();
        assert_eq!(actual.unwrap(), expected.to_string());
    }
}

#[test]
fn three_records_then_none() {
    let (mut stream, mut disk) = open("abc", b"a\nbb\nccc\n", 3, BUFFER_SIZE);
    assert_eq!(pull(&mut stream, &mut disk), Some(Ok("a".to_string())));
    assert_eq!(pull(&mut stream, &mut disk), Some(Ok("bb".to_string())));
    assert_eq!(pull(&mut stream, &mut disk), Some(Ok("ccc".to_string())));
    assert_eq!(pull(&mut stream, &mut disk), None);
    assert_eq!(pull(&mut stream, &mut disk), None);
    assert_eq!(stream.curr_argument(), 3);
    assert_eq!(stream.total_arguments(), 3);
}

#[test]
fn file_larger_than_the_window_in_numeric_order() {
    let data = numbers(4096);
    assert!(data.len() > BUFFER_SIZE);
    let records = read_all(&data, 4096, BUFFER_SIZE);
    assert_eq!(records.len(), 4096);
    for (index, record) in records.iter().enumerate() {
        assert_eq!(record, &(index + 1).to_string());
    }
    assert_eq!(records.last().unwrap(), "4096");
}

#[test]
fn last_record_without_newline() {
    let (mut stream, mut disk) = open("hello", b"hello", 1, BUFFER_SIZE);
    assert_eq!(stream.window_end(), 0);
    assert_eq!(pull(&mut stream, &mut disk), Some(Ok("hello".to_string())));
    assert_eq!(stream.window_end(), 1);
    assert_eq!(pull(&mut stream, &mut disk), None);
}

#[test]
fn yields_exactly_what_was_asked_for() {
    let data = numbers(100);
    for total in [0usize, 1, 37, 99, 100] {
        let records = read_all(&data, total, BUFFER_SIZE);
        assert_eq!(records.len(), total);
        for (index, record) in records.iter().enumerate() {
            assert_eq!(record, &(index + 1).to_string());
        }
    }
}

#[test]
fn stops_at_the_end_of_a_file_with_fewer_records() {
    assert_eq!(read_all(b"x\ny\n", 5, BUFFER_SIZE), vec!["x".to_string(), "y".to_string()]);
    assert_eq!(read_all(b"x\ny", 5, BUFFER_SIZE), vec!["x".to_string(), "y".to_string()]);
    assert_eq!(read_all(b"", 5, BUFFER_SIZE), Vec::<String>::new());
}

#[test]
fn reads_back_what_was_written_however_it_is_cut() {
    let written: Vec<String> = vec![
        "first".to_string(),
        String::new(),
        "x".repeat(BUFFER_SIZE - 1),
        "second record".to_string(),
        String::new(),
        "y".repeat(5000),
        "z".repeat(5000),
        "last".to_string(),
    ];
    let data = written.join("\n").into_bytes();
    for most in [1usize, 2, 7, 4096, 8191, BUFFER_SIZE] {
        assert_eq!(read_all(&data, written.len(), most), written);
    }
}

#[test]
fn empty_records_are_records() {
    assert_eq!(
        read_all(b"\n\na\n\n", 4, BUFFER_SIZE),
        vec![String::new(), String::new(), "a".to_string(), String::new()]
    );
    let only_delimiters = vec![b'\n'; BUFFER_SIZE + 10];
    let records = read_all(&only_delimiters, BUFFER_SIZE + 10, BUFFER_SIZE);
    assert_eq!(records.len(), BUFFER_SIZE + 10);
    assert!(records.iter().all(|record| record.is_empty()));
}

#[test]
fn record_split_by_two_reads_is_yielded_whole() {
    let mut stream = InputIterator::new("split", 2, DiskRead::Bytes(b"one\ntw".to_vec())).unwrap();
    assert_eq!(stream.next(), Step::Record("one".to_string()));
    assert_eq!(stream.next(), Step::Refill(BUFFER_SIZE - 2));
    assert_eq!(stream.buffer(DiskRead::Bytes(b"o\nthr".to_vec())), Ok(()));
    assert_eq!(stream.next(), Step::Record("two".to_string()));
    assert_eq!(stream.next(), Step::Done);
}

#[test]
fn window_ordinals_follow_the_refills() {
    let data = numbers(4096);
    let (mut stream, mut disk) = open("ordinals", &data, 4096, BUFFER_SIZE);
    for _ in 0..1859 {
        pull(&mut stream, &mut disk).unwrap().unwrap();
    }
    assert_eq!(stream.window_start(), 0);
    assert_eq!(stream.window_end(), 1859);
    assert_eq!(stream.next(), Step::Refill(BUFFER_SIZE - 4));
    stream.buffer(disk.read(BUFFER_SIZE - 4)).unwrap();
    assert_eq!(stream.window_start(), 1860);
    // 8192 bytes hold "1860\n" to "3497\n", 5 bytes each, and "34".
    assert_eq!(stream.window_end(), 1859 + 1638);
    assert_eq!(stream.next(), Step::Record("1860".to_string()));
    assert_eq!(stream.curr_argument(), 1860);
}

#[test]
fn record_longer_than_the_window_is_refused() {
    let mut data = b"ok\n".to_vec();
    data.extend_from_slice(&vec![b'x'; BUFFER_SIZE]);
    data.extend_from_slice(b"\nnever\n");
    let (mut stream, mut disk) = open("long", &data, 3, BUFFER_SIZE);
    assert_eq!(pull(&mut stream, &mut disk), Some(Ok("ok".to_string())));
    assert_eq!(pull(&mut stream, &mut disk), Some(Err(InputIteratorErr::RecordTooLong)));
    assert_eq!(pull(&mut stream, &mut disk), None);
    assert_eq!(stream.next(), Step::Done);
}

#[test]
fn window_full_of_one_record_is_refused_at_once() {
    let mut stream =
        InputIterator::new("full", 1, DiskRead::Bytes(vec![b'x'; BUFFER_SIZE])).unwrap();
    assert_eq!(stream.next(), Step::Failed(InputIteratorErr::RecordTooLong));
    assert_eq!(stream.next(), Step::Done);
}

#[test]
fn longest_record_that_fits() {
    let record = "r".repeat(BUFFER_SIZE - 1);
    let data = format!("{}\n{}", record, record).into_bytes();
    assert_eq!(read_all(&data, 2, BUFFER_SIZE), vec![record.clone(), record]);
}

#[test]
fn file_that_cannot_be_opened() {
    let made = InputIterator::new("missing", 4, DiskRead::Unopened("no such file".to_string()));
    assert_eq!(
        made.err(),
        Some(FileErr::Open("missing".to_string(), "no such file".to_string()))
    );
}

#[test]
fn first_read_that_fails() {
    let made = InputIterator::new("broken", 4, DiskRead::Failed("input/output error".to_string()));
    assert_eq!(
        made.err(),
        Some(FileErr::Read("broken".to_string(), "input/output error".to_string()))
    );
}

#[test]
fn read_that_fails_in_mid_stream_ends_the_stream() {
    let mut stream = InputIterator::new("dir/args", 3, DiskRead::Bytes(b"a\nb".to_vec())).unwrap();
    assert_eq!(stream.next(), Step::Record("a".to_string()));
    assert_eq!(stream.next(), Step::Refill(BUFFER_SIZE - 1));
    assert_eq!(
        stream.buffer(DiskRead::Failed("device gone".to_string())),
        Err(InputIteratorErr::FileRead("dir/args".to_string(), "device gone".to_string()))
    );
    assert_eq!(stream.next(), Step::Done);
    assert_eq!(stream.buffer(DiskRead::Bytes(b"\nc\n".to_vec())), Ok(()));
    assert_eq!(stream.next(), Step::Done);
    assert_eq!(stream.curr_argument(), 1);
    assert_eq!(
        stream.buffer(DiskRead::Unopened("closed".to_string())),
        Err(InputIteratorErr::FileRead("dir/args".to_string(), "closed".to_string()))
    );
}

#[test]
fn malformed_bytes_become_replacement_characters() {
    let data = [b'f', 0xff, b'o', b'\n', 0xe2, 0x82, 0xac, b'\n', 0xc3, b'\n'];
    let mut stream = InputIterator::new("bytes", 3, DiskRead::Bytes(data.to_vec())).unwrap();
    assert_eq!(stream.next(), Step::Record("f\u{fffd}o".to_string()));
    assert_eq!(stream.next(), Step::Record("\u{20ac}".to_string()));
    assert_eq!(stream.next(), Step::Record("\u{fffd}".to_string()));
    assert_eq!(stream.next(), Step::Done);
}

#[test]
fn records_as_bytes() {
    let data = [b'f', 0xff, b'o', b'\n', b'\n', b't'];
    let mut stream = InputIterator::new("bytes", 3, DiskRead::Bytes(data.to_vec())).unwrap();
    assert_eq!(stream.next_bytes(), Step::Record(vec![b'f', 0xff, b'o']));
    assert_eq!(stream.next_bytes(), Step::Record(Vec::new()));
    assert_eq!(stream.next_bytes(), Step::Refill(BUFFER_SIZE - 1));
    assert_eq!(stream.buffer(DiskRead::Bytes(Vec::new())), Ok(()));
    assert_eq!(stream.next_bytes(), Step::Record(vec![b't']));
    assert_eq!(stream.next_bytes(), Step::Done);
}

#[test]
fn asks_for_no_more_than_the_window_has_room_for() {
    let data = numbers(20000);
    let (mut stream, mut disk) = open("room", &data, 20000, 333);
    let mut yielded = 0;
    loop {
        match stream.next() {
            Step::Record(record) => {
                yielded += 1;
                assert_eq!(record, yielded.to_string());
            }
            Step::Refill(want) => {
                assert!(want >= 1 && want <= BUFFER_SIZE);
                stream.buffer(disk.read(want)).unwrap();
            }
            Step::Done => break,
            Step::Failed(why) => panic!("{:?}", why),
        }
    }
    assert_eq!(yielded, 20000);
}

#[test]
fn disk_buffer_keeps_a_prefix_on_refill() {
    let mut buffer = DiskBuffer::new("file");
    assert_eq!(buffer.len(), 0);
    assert_eq!(buffer.path_name(), "file");
    buffer.buffer(0, &b"abcdef".to_vec());
    assert_eq!(buffer.len(), 6);
    assert_eq!(buffer.slice(0, 6), b"abcdef");
    assert_eq!(buffer.get(2), b'c');
    buffer.shift(4);
    assert_eq!(buffer.slice(0, buffer.len()), b"ef");
    buffer.buffer(2, &b"ghi".to_vec());
    assert_eq!(buffer.slice(0, buffer.len()), b"efghi");
    buffer.buffer(1, &b"".to_vec());
    assert_eq!(buffer.slice(0, buffer.len()), b"e");
    buffer.buffer(1, &vec![b'z'; BUFFER_SIZE - 1]);
    assert_eq!(buffer.len(), BUFFER_SIZE);
    assert_eq!(buffer.get(BUFFER_SIZE - 1), b'z');
    buffer.truncate(3);
    assert_eq!(buffer.slice(0, buffer.len()), b"ezz");
    assert_eq!(buffer.slice(1, 1), b"");
}

#[test]
fn input_buffer_from_the_first_read() {
    assert!(InputBuffer::new(DiskBuffer::new("p"), DiskRead::Bytes(b"a\nb\n".to_vec())).is_ok());
    assert_eq!(
        InputBuffer::new(DiskBuffer::new("p"), DiskRead::Failed("why".to_string())).err(),
        Some(FileErr::Read("p".to_string(), "why".to_string()))
    );
    assert_eq!(
        InputBuffer::new(DiskBuffer::new("p"), DiskRead::Unopened("why".to_string())).err(),
        Some(FileErr::Open("p".to_string(), "why".to_string()))
    );
}

#[test]
fn first_window_is_laid_out_as_read() {
    let stream = InputIterator::new("abc", 3, DiskRead::Bytes(b"a\nbb\nccc\n".to_vec())).unwrap();
    assert_eq!(stream.index(), 0);
    assert_eq!(stream.window_start(), 0);
    assert_eq!(stream.window_end(), 3);
    assert_eq!(stream.indices(), vec![0, 1, 4, 8]);
    assert_eq!(stream.capacity(), 8);
}

#[test]
fn empty_file_is_no_error() {
    let mut stream = InputIterator::new("empty", 2, DiskRead::Bytes(Vec::new())).unwrap();
    assert_eq!(stream.index(), 0);
    assert_eq!(stream.capacity(), 0);
    assert_eq!(stream.indices(), vec![0]);
    assert_eq!(stream.window_start(), 0);
    assert_eq!(stream.window_end(), 0);
    assert_eq!(stream.next(), Step::Done);
}

#[test]
fn pull_moves_the_cursor_and_refill_resets_it() {
    let mut stream = InputIterator::new("c", 9, DiskRead::Bytes(b"a\nbb\ncc".to_vec())).unwrap();
    assert_eq!(stream.indices(), vec![0, 1, 4]);
    assert_eq!(stream.capacity(), 4);
    assert_eq!(stream.next(), Step::Record("a".to_string()));
    assert_eq!(stream.index(), 1);
    assert_eq!(stream.next(), Step::Record("bb".to_string()));
    assert_eq!(stream.index(), 2);
    assert_eq!(stream.next(), Step::Refill(BUFFER_SIZE - 2));
    assert_eq!(stream.index(), 2);
    assert_eq!((stream.window_start(), stream.window_end()), (0, 2));
    // The tail "cc" goes to the front, the read behind it.
    assert_eq!(stream.buffer(DiskRead::Bytes(b"c\n\nd\ne".to_vec())), Ok(()));
    assert_eq!(stream.index(), 0);
    assert_eq!(stream.indices(), vec![0, 3, 4, 6]);
    assert_eq!(stream.capacity(), 6);
    assert_eq!((stream.window_start(), stream.window_end()), (3, 5));
    assert_eq!(stream.curr_argument(), 2);
    assert_eq!(stream.total_arguments(), 9);
    assert_eq!(stream.next(), Step::Record("ccc".to_string()));
    assert_eq!(stream.index(), 1);
}

#[test]
fn failed_read_leaves_the_window_as_it_was() {
    let mut stream = InputIterator::new("f", 9, DiskRead::Bytes(b"a\nbb\ncc".to_vec())).unwrap();
    assert_eq!(stream.next(), Step::Record("a".to_string()));
    let before = (
        stream.index(),
        stream.indices(),
        stream.capacity(),
        stream.window_start(),
        stream.window_end(),
        stream.curr_argument(),
        stream.total_arguments(),
    );
    assert!(stream.buffer(DiskRead::Failed("gone".to_string())).is_err());
    let after = (
        stream.index(),
        stream.indices(),
        stream.capacity(),
        stream.window_start(),
        stream.window_end(),
        stream.curr_argument(),
        stream.total_arguments(),
    );
    assert_eq!(before, after);
    assert_eq!(stream.buffer(DiskRead::Bytes(b"x\n".to_vec())), Ok(()));
    assert_eq!(stream.indices(), before.1);
    assert_eq!(stream.index(), 1);
}

#[test]
fn read_that_fills_the_window_without_delimiter_is_refused() {
    let mut stream = InputIterator::new("long", 2, DiskRead::Bytes(b"a\nxx".to_vec())).unwrap();
    assert_eq!(stream.next(), Step::Record("a".to_string()));
    assert_eq!(stream.next(), Step::Refill(BUFFER_SIZE - 2));
    assert_eq!(
        stream.buffer(DiskRead::Bytes(vec![b'x'; BUFFER_SIZE - 2])),
        Err(InputIteratorErr::RecordTooLong)
    );
    assert_eq!(stream.index(), 0);
    assert_eq!(stream.indices(), vec![0]);
    assert_eq!(stream.next(), Step::Done);
}

#[test]
fn last_record_without_newline_leaves_the_window() {
    let mut stream = InputIterator::new("t", 3, DiskRead::Bytes(b"a\ntail".to_vec())).unwrap();
    assert_eq!(stream.next(), Step::Record("a".to_string()));
    assert_eq!(stream.next(), Step::Refill(BUFFER_SIZE - 4));
    assert_eq!(stream.buffer(DiskRead::Bytes(Vec::new())), Ok(()));
    assert_eq!((stream.index(), stream.indices(), stream.capacity()), (0, vec![0], 0));
    assert_eq!(stream.window_end(), 1);
    assert_eq!(stream.next(), Step::Record("tail".to_string()));
    assert_eq!((stream.index(), stream.indices(), stream.capacity()), (0, vec![0], 0));
    assert_eq!(stream.window_end(), 2);
    assert_eq!(stream.next(), Step::Done);
}
