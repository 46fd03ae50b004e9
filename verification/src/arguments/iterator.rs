//! The stream of arguments: newline-delimited records of a file of any size,
//! yielded one by one out of a window of `BUFFER_SIZE` bytes.
//!
//! The stream does not read the file. Its driver pulls with
//! [`InputIterator::next`]; where the answer is [`Step::Refill`] it reads that
//! many bytes at most, hands what came to [`InputIterator::buffer`], and pulls
//! again.

use crate::arguments::disk_buffer::{DiskBuffer, DiskRead, BUFFER_SIZE};
use crate::arguments::errors::{FileErr, InputIteratorErr};
use crate::arguments::indices::{
    is_delimiter_table, lemma_table_counts, lemma_table_record, lemma_table_tail, record_start,
};
use crate::arguments::model::{
    cursor_after_pull, fail, feed, opening, pull, refill, room, window_after_pull, Pulled,
    StreamModel,
};
use crate::arguments::records::{records, DELIMITER};
use vstd::prelude::*;
use vstd::slice::slice_to_vec;
use vstd::utf8::{decode_utf8, valid_utf8};

verus! {

/// The text that `String::from_utf8_lossy` makes of `bytes`.
pub uninterp spec fn utf8_lossy(bytes: Seq<u8>) -> Seq<char>;

/// `String::from_utf8_lossy`, made into an owned string: the text of `bytes`,
/// with the replacement character in place of each malformed sequence. Bytes
/// that are valid UTF-8 come back as the text they encode.
#[verifier::external_body]
fn from_utf8_lossy(bytes: &[u8]) -> (text: String)
    ensures
        text@ == utf8_lossy(bytes@),
        valid_utf8(bytes@) ==> text@ == decode_utf8(bytes@),
{
    String::from_utf8_lossy(bytes).into_owned()
}

/// What a pull on the stream gave, with records of type `R`.
#[derive(Debug, PartialEq, Eq)]
pub enum Step<R> {
    /// The next record.
    Record(R),
    /// Nothing more: every record asked for was yielded, the file ended, or
    /// the stream had failed before.
    Done,
    /// No complete record is in the window. Read up to this many bytes of the
    /// file, hand what came to `buffer`, and pull again.
    Refill(usize),
    /// The stream failed, and will yield nothing more.
    Failed(InputIteratorErr),
}

/// Whether `step` says in bytes what `pulled` says.
pub open spec fn gives_bytes(step: Step<Vec<u8>>, pulled: Pulled) -> bool {
    match pulled {
        Pulled::Record(bytes) => step matches Step::Record(record) && record@ == bytes,
        Pulled::Done => step is Done,
        Pulled::Refill(want) => step matches Step::Refill(n) && n == want,
        Pulled::TooLong => step matches Step::Failed(InputIteratorErr::RecordTooLong),
    }
}

/// Whether `step` says in text what `pulled` says: its record is the lossy
/// decoding of the bytes.
pub open spec fn gives_text(step: Step<String>, pulled: Pulled) -> bool {
    match pulled {
        Pulled::Record(bytes) => step matches Step::Record(record) && record@ == utf8_lossy(bytes)
            && (valid_utf8(bytes) ==> record@ == decode_utf8(bytes)),
        Pulled::Done => step is Done,
        Pulled::Refill(want) => step matches Step::Refill(n) && n == want,
        Pulled::TooLong => step matches Step::Failed(InputIteratorErr::RecordTooLong),
    }
}

/// Where the next record lies in the window, or why there is none.
enum Located {
    Record(usize, usize),
    Done,
    Refill(usize),
    TooLong,
}

/// The window and what the stream knows of it: where its delimiters are, how
/// many of its records were yielded, and which part of the file's records it
/// holds.
pub struct InputBuffer {
    /// The number of records of the window that were yielded.
    index: usize,
    /// 0 for the first window; then the ordinal, counted from one, of the
    /// record that the window begins with.
    start: u128,
    /// The number of complete records seen up to the end of the window.
    end: u128,
    /// The position of the window's last delimiter, 0 where it has none.
    capacity: usize,
    /// The number of delimiters in the window.
    count: usize,
    /// Whether a read came back empty.
    ended: bool,
    disk_buffer: DiskBuffer,
    /// The delimiter table: `BUFFER_SIZE + 1` entries, so that a window of
    /// nothing but delimiters has room.
    indices: Vec<usize>,
}

impl InputBuffer {
    /// The buffer and the table have their sizes.
    pub closed spec fn shaped(&self) -> bool {
        &&& self.disk_buffer.wf()
        &&& self.indices@.len() == BUFFER_SIZE + 1
        &&& self.indices@[0] == 0
    }

    /// The table describes the window, the cursor lies within the table, and
    /// the count of records seen is that of the records yielded and the
    /// records still in the window.
    pub closed spec fn wf(&self) -> bool {
        &&& self.shaped()
        &&& is_delimiter_table(self.disk_buffer@, self.indices@, self.count as int)
        &&& self.index <= self.count
        &&& self.capacity == self.indices@[self.count as int]
        &&& 0 <= self.consumed() <= usize::MAX
    }

    /// The bytes of the window that were not yielded.
    pub closed spec fn pending(&self) -> Seq<u8> {
        self.disk_buffer@.skip(record_start(self.indices@, self.index as int))
    }

    /// Whether a read came back empty.
    pub closed spec fn ended(&self) -> bool {
        self.ended
    }

    /// The number of records yielded since the stream was opened.
    pub closed spec fn consumed(&self) -> int {
        self.end - (self.count - self.index)
    }

    /// 0 for the first window; then the ordinal, counted from one, of the
    /// record that the window begins with.
    pub closed spec fn spec_window_start(&self) -> nat {
        self.start as nat
    }

    /// The number of records of the window that were yielded.
    pub closed spec fn cursor(&self) -> nat {
        self.index as nat
    }

    /// The bytes of the window, yielded or not.
    pub closed spec fn window(&self) -> Seq<u8> {
        self.disk_buffer@
    }

    /// The delimiter table of the window: 0, and the position of each of its
    /// delimiters.
    pub closed spec fn table(&self) -> Seq<usize> {
        self.indices@.take(self.count + 1)
    }

    /// The position of the window's last delimiter, 0 where it has none.
    pub closed spec fn useful_len(&self) -> nat {
        self.capacity as nat
    }

    /// What a well-formed buffer's parts have to do with one another: the
    /// table is the delimiter table of the window, the useful length is its
    /// last entry, the cursor lies within it, and the bytes not yet yielded
    /// are those of the window from the record on at which the cursor stands.
    pub proof fn lemma_layout(&self)
        requires
            self.wf(),
        ensures
            self.window().len() <= BUFFER_SIZE,
            self.table().len() >= 1,
            is_delimiter_table(self.window(), self.table(), self.table().len() - 1),
            self.cursor() < self.table().len(),
            self.useful_len() == self.table()[self.table().len() - 1],
            self.pending() == self.window().skip(record_start(self.table(), self.cursor() as int)),
    {
        self.disk_buffer.lemma_bounded();
        let table = self.table();
        let count = self.count as int;
        assert forall|k: int| 0 <= k <= count implies table[k] == self.indices@[k] by {}
        assert forall|i: int|
            0 <= i < self.window().len() && #[trigger] self.window()[i] == DELIMITER implies exists|
            k: int,
        | 1 <= k <= count && #[trigger] table[k] == i by {
            let k = choose|k: int| 1 <= k <= count && #[trigger] self.indices@[k] == i;
            assert(table[k] == i);
        }
    }

    /// The path of the file.
    pub closed spec fn path(&self) -> Seq<char> {
        self.disk_buffer.path()
    }

    /// The number of bytes that the window holds, and the number of entries
    /// of the table.
    pub closed spec fn footprint(&self) -> (nat, nat) {
        (self.disk_buffer.size(), self.indices@.len())
    }

    /// Takes a buffer and the outcome of the first read of its file, puts the
    /// bytes into the buffer and finds their delimiters.
    pub fn new(unprocessed: DiskBuffer, first: DiskRead) -> (made: Result<InputBuffer, FileErr>)
        requires
            unprocessed.wf(),
            first matches DiskRead::Bytes(bytes) ==> bytes@.len() <= BUFFER_SIZE,
        ensures
            match first {
                DiskRead::Unopened(cause) => made matches Err(FileErr::Open(path, why))
                    && path@ == unprocessed.path() && why == cause,
                DiskRead::Failed(cause) => made matches Err(FileErr::Read(path, why)) && path@
                    == unprocessed.path() && why == cause,
                DiskRead::Bytes(bytes) => made matches Ok(buffer) && buffer.wf()
                    && buffer.pending() == bytes@ && buffer.ended() == (bytes@.len() == 0)
                    && buffer.consumed() == 0 && buffer.spec_window_start() == 0
                    && buffer.path() == unprocessed.path() && buffer.cursor() == 0
                    && buffer.window() == bytes@,
            },
    {
        let mut unprocessed = unprocessed;
        match first {
            DiskRead::Unopened(cause) => Err(FileErr::Open(unprocessed.path_name(), cause)),
            DiskRead::Failed(cause) => Err(FileErr::Read(unprocessed.path_name(), cause)),
            DiskRead::Bytes(bytes) => {
                unprocessed.buffer(0, &bytes);
                let bytes_read = unprocessed.len();
                let mut temp = InputBuffer {
                    index: 0,
                    start: 0,
                    end: 0,
                    capacity: 0,
                    count: 0,
                    ended: bytes.len() == 0,
                    disk_buffer: unprocessed,
                    indices: vec![0usize; BUFFER_SIZE + 1],
                };
                temp.count_arguments(bytes_read);
                assert(temp.disk_buffer@ =~= bytes@);
                assert(temp.disk_buffer@.take(bytes_read as int) =~= temp.disk_buffer@);
                assert(temp.pending() =~= bytes@);
                Ok(temp)
            },
        }
    }

    /// Finds the delimiters among the first `bytes_read` bytes of the window:
    /// writes their positions into the table, adds their number to the count
    /// of records seen, and notes where the last one lies.
    fn count_arguments(&mut self, bytes_read: usize)
        requires
            old(self).shaped(),
            bytes_read <= old(self).disk_buffer@.len(),
            old(self).end <= usize::MAX,
        ensures
            final(self).shaped(),
            is_delimiter_table(
                old(self).disk_buffer@.take(bytes_read as int),
                final(self).indices@,
                final(self).count as int,
            ),
            final(self).count <= bytes_read,
            final(self).end == old(self).end + final(self).count,
            final(self).capacity == final(self).indices@[final(self).count as int],
            final(self).disk_buffer == old(self).disk_buffer,
            final(self).index == old(self).index,
            final(self).start == old(self).start,
            final(self).ended == old(self).ended,
    {
        proof {
            self.disk_buffer.lemma_bounded();
        }
        self.count = 0;
        let mut id: usize = 0;
        while id < bytes_read
            invariant
                self.shaped(),
                self.disk_buffer == old(self).disk_buffer,
                self.index == old(self).index,
                self.start == old(self).start,
                self.ended == old(self).ended,
                bytes_read <= self.disk_buffer@.len() <= BUFFER_SIZE,
                id <= bytes_read,
                self.count <= id,
                is_delimiter_table(
                    self.disk_buffer@.take(id as int),
                    self.indices@,
                    self.count as int,
                ),
                self.end == old(self).end + self.count,
                old(self).end <= usize::MAX,
            decreases bytes_read - id,
        {
            let ghost before = self.indices@;
            let ghost seen = self.disk_buffer@.take(id as int);
            let ghost next = self.disk_buffer@.take(id + 1);
            if self.disk_buffer.get(id) == DELIMITER {
                self.indices.set(self.count + 1, id);
                self.count += 1;
                self.end += 1;
                proof {
                    let table = self.indices@;
                    let count = self.count as int;
                    assert forall|k: int| 1 <= k <= count implies #[trigger] table[k] < next.len()
                        && next[table[k] as int] == DELIMITER by {
                        if k < count {
                            assert(table[k] == before[k]);
                            assert(seen[before[k] as int] == DELIMITER);
                        }
                    }
                    assert forall|j: int, k: int| 1 <= j < k <= count implies #[trigger] table[j]
                        < #[trigger] table[k] by {
                        assert(table[j] == before[j]);
                        if k < count {
                            assert(table[k] == before[k]);
                        }
                    }
                    assert forall|i: int|
                        0 <= i < next.len() && #[trigger] next[i] == DELIMITER implies exists|
                        k: int,
                    | 1 <= k <= count && #[trigger] table[k] == i by {
                        if i < id {
                            assert(seen[i] == DELIMITER);
                            let k = choose|k: int| 1 <= k <= count - 1 && #[trigger] before[k] == i;
                            assert(table[k] == i);
                        } else {
                            assert(table[count] == i);
                        }
                    }
                }
            } else {
                proof {
                    let table = self.indices@;
                    let count = self.count as int;
                    assert forall|k: int| 1 <= k <= count implies #[trigger] table[k] < next.len()
                        && next[table[k] as int] == DELIMITER by {
                        assert(seen[table[k] as int] == DELIMITER);
                    }
                    assert forall|i: int|
                        0 <= i < next.len() && #[trigger] next[i] == DELIMITER implies exists|
                        k: int,
                    | 1 <= k <= count && #[trigger] table[k] == i by {
                        assert(seen[i] == DELIMITER);
                    }
                }
            }
            id += 1;
        }
        self.capacity = self.indices[self.count];
    }

    /// Moves on to the next window: moves the bytes not yet yielded to the
    /// front of the window, puts `incoming` behind them, and finds the
    /// delimiters of the whole. An empty `incoming` where there was room says
    /// that the file has ended.
    fn advance_window(&mut self, incoming: &Vec<u8>)
        requires
            old(self).wf(),
            old(self).pending().len() + incoming@.len() <= BUFFER_SIZE,
        ensures
            final(self).wf(),
            final(self).pending() == old(self).pending() + incoming@,
            final(self).ended() == (old(self).ended() || (incoming@.len() == 0 && old(
                self,
            ).pending().len() < BUFFER_SIZE)),
            final(self).consumed() == old(self).consumed(),
            final(self).spec_window_start() == old(self).consumed() + 1,
            final(self).path() == old(self).path(),
            final(self).footprint() == old(self).footprint(),
            final(self).cursor() == 0,
            final(self).window() == old(self).pending() + incoming@,
    {
        proof {
            self.disk_buffer.lemma_bounded();
            lemma_table_tail(self.disk_buffer@, self.indices@, self.count as int);
            if self.index < self.count {
                lemma_table_record(
                    self.disk_buffer@,
                    self.indices@,
                    self.count as int,
                    self.index as int,
                );
            }
        }
        let from = if self.index == 0 {
            self.indices[0]
        } else {
            self.indices[self.index] + 1
        };
        self.disk_buffer.shift(from);
        let preserve = self.disk_buffer.len();
        if incoming.len() == 0 && preserve < BUFFER_SIZE {
            self.ended = true;
        }
        self.disk_buffer.buffer(preserve, incoming);
        let bytes_read = self.disk_buffer.len();
        self.end = self.end - ((self.count - self.index) as u128);
        self.start = self.end + 1;
        self.index = 0;
        self.count_arguments(bytes_read);
        proof {
            self.disk_buffer.lemma_bounded();
            assert(self.disk_buffer@.take(bytes_read as int) =~= self.disk_buffer@);
            assert(self.window() =~= old(self).pending() + incoming@);
            assert(self.pending() =~= self.window());
        }
    }
}

/// A stream of the records of one file. It knows how many records the caller
/// asked for and how many it has yielded, and owns the window through which
/// it sees the file.
pub struct InputIterator {
    total_arguments: usize,
    curr_argument: usize,
    input_buffer: InputBuffer,
    /// Whether an error was reported. The stream yields nothing after one.
    failed: bool,
}

impl View for InputIterator {
    type V = StreamModel;

    closed spec fn view(&self) -> StreamModel {
        StreamModel {
            total: self.total_arguments as nat,
            emitted: self.curr_argument as nat,
            pending: self.input_buffer.pending(),
            ended: self.input_buffer.ended(),
            failed: self.failed,
        }
    }
}

impl InputIterator {
    /// The window is well formed, no more records were yielded than were
    /// asked for, and the window's count of records agrees with the stream's.
    pub closed spec fn wf(&self) -> bool {
        &&& self.input_buffer.wf()
        &&& self.curr_argument <= self.total_arguments
        &&& self.input_buffer.consumed() == self.curr_argument
    }

    /// The path of the file.
    pub closed spec fn path(&self) -> Seq<char> {
        self.input_buffer.path()
    }

    /// What [`InputIterator::window_start`] returns.
    pub closed spec fn spec_window_start(&self) -> nat {
        self.input_buffer.spec_window_start()
    }

    /// The number of bytes that the window holds, and the number of entries
    /// of its delimiter table.
    pub closed spec fn footprint(&self) -> (nat, nat) {
        self.input_buffer.footprint()
    }

    /// The number of records of the present window that were yielded.
    pub closed spec fn cursor(&self) -> nat {
        self.input_buffer.cursor()
    }

    /// The bytes of the present window, yielded or not.
    pub closed spec fn window(&self) -> Seq<u8> {
        self.input_buffer.window()
    }

    /// The delimiter table of the present window: 0, and the position of each
    /// of its delimiters.
    pub closed spec fn table(&self) -> Seq<usize> {
        self.input_buffer.table()
    }

    /// The position of the window's last delimiter, 0 where it has none.
    pub closed spec fn useful_len(&self) -> nat {
        self.input_buffer.useful_len()
    }

    /// What a well-formed stream's parts have to do with one another: the
    /// table is the delimiter table of the window, the useful length is its
    /// last entry, the cursor lies within it, and the bytes not yet yielded
    /// are those of the window from the record on at which the cursor stands.
    pub proof fn lemma_layout(&self)
        requires
            self.wf(),
        ensures
            self.window().len() <= BUFFER_SIZE,
            self.table().len() >= 1,
            is_delimiter_table(self.window(), self.table(), self.table().len() - 1),
            self.cursor() < self.table().len(),
            self.useful_len() == self.table()[self.table().len() - 1],
            self@.pending == self.window().skip(record_start(self.table(), self.cursor() as int)),
    {
        self.input_buffer.lemma_layout();
    }

    /// However much of the file has gone through it, a stream holds a window
    /// of `BUFFER_SIZE` bytes and a table of `BUFFER_SIZE + 1` positions, and
    /// of the file no more than the window: the bytes not yet yielded fit in
    /// it, and what the stream asks for next fits beside them. It has yielded
    /// no more records than were asked for.
    pub proof fn lemma_bounded(&self)
        requires
            self.wf(),
        ensures
            self.footprint() == (BUFFER_SIZE as nat, (BUFFER_SIZE + 1) as nat),
            self@.pending.len() <= BUFFER_SIZE,
            self@.pending.len() + room(self@) == BUFFER_SIZE,
            self@.emitted <= self@.total,
    {
        self.input_buffer.disk_buffer.lemma_bounded();
        lemma_table_tail(
            self.input_buffer.disk_buffer@,
            self.input_buffer.indices@,
            self.input_buffer.count as int,
        );
        if self.input_buffer.index < self.input_buffer.count {
            lemma_table_record(
                self.input_buffer.disk_buffer@,
                self.input_buffer.indices@,
                self.input_buffer.count as int,
                self.input_buffer.index as int,
            );
        }
    }

    /// Opens a stream over the file at `path` that yields `args` records at
    /// most. `first` is what opening the file and reading up to `BUFFER_SIZE`
    /// bytes of it gave.
    pub fn new(path: &str, args: usize, first: DiskRead) -> (made: Result<InputIterator, FileErr>)
        requires
            first matches DiskRead::Bytes(bytes) ==> bytes@.len() <= BUFFER_SIZE,
        ensures
            match first {
                DiskRead::Unopened(cause) => made matches Err(FileErr::Open(at, why)) && at@
                    == path@ && why == cause,
                DiskRead::Failed(cause) => made matches Err(FileErr::Read(at, why)) && at@ == path@
                    && why == cause,
                DiskRead::Bytes(bytes) => made matches Ok(stream) && stream.wf() && stream@
                    == feed(opening(args as nat), bytes@) && stream.path() == path@
                    && stream.spec_window_start() == 0 && stream.cursor() == 0
                    && stream.window() == bytes@,
            },
    {
        let disk_buffer = DiskBuffer::new(path);
        match first {
            DiskRead::Unopened(cause) => Err(FileErr::Open(disk_buffer.path_name(), cause)),
            first => {
                let input_buffer = InputBuffer::new(disk_buffer, first)?;
                let stream = InputIterator {
                    total_arguments: args,
                    curr_argument: 0,
                    input_buffer,
                    failed: false,
                };
                assert(stream@ =~= feed(opening(args as nat), stream.input_buffer.pending()));
                Ok(stream)
            },
        }
    }

    /// Takes in what a read of the file gave. The bytes of a read join those
    /// not yet yielded, at the front of a new window, and the cursor goes back
    /// to its start; a read that came back empty ends the file. Where the new
    /// window is full of a record with no end, the stream fails with the
    /// record too long. A read that failed fails the stream, and is reported
    /// with the file's path; it leaves the window as it was, and so does any
    /// read on a stream that had failed before.
    pub fn buffer(&mut self, outcome: DiskRead) -> (done: Result<(), InputIteratorErr>)
        requires
            old(self).wf(),
            outcome matches DiskRead::Bytes(bytes) ==> bytes@.len() <= room(old(self)@),
        ensures
            final(self).wf(),
            final(self).path() == old(self).path(),
            final(self).footprint() == old(self).footprint(),
            match outcome {
                DiskRead::Unopened(cause) => done matches Err(InputIteratorErr::FileRead(at, why))
                    && at@ == old(self).path() && why == cause && final(self)@ == fail(
                    old(self)@,
                ),
                DiskRead::Failed(cause) => done matches Err(InputIteratorErr::FileRead(at, why))
                    && at@ == old(self).path() && why == cause && final(self)@ == fail(
                    old(self)@,
                ),
                DiskRead::Bytes(bytes) => final(self)@ == refill(old(self)@, bytes@).0 && if refill(
                    old(self)@,
                    bytes@,
                ).1 {
                    done == Err::<(), InputIteratorErr>(InputIteratorErr::RecordTooLong)
                } else {
                    done is Ok
                },
            },
            if outcome is Bytes && !old(self)@.failed {
                &&& final(self).cursor() == 0
                &&& final(self).window() == old(self)@.pending + outcome->Bytes_0@
                &&& final(self).spec_window_start() == old(self)@.emitted + 1
            } else {
                &&& final(self).cursor() == old(self).cursor()
                &&& final(self).window() == old(self).window()
                &&& final(self).table() == old(self).table()
                &&& final(self).useful_len() == old(self).useful_len()
                &&& final(self).spec_window_start() == old(self).spec_window_start()
            },
    {
        match outcome {
            DiskRead::Unopened(cause) => {
                self.failed = true;
                Err(InputIteratorErr::FileRead(self.input_buffer.disk_buffer.path_name(), cause))
            },
            DiskRead::Failed(cause) => {
                self.failed = true;
                Err(InputIteratorErr::FileRead(self.input_buffer.disk_buffer.path_name(), cause))
            },
            DiskRead::Bytes(bytes) => {
                if self.failed {
                    return Ok(());
                }
                proof {
                    self.input_buffer.disk_buffer.lemma_bounded();
                }
                self.input_buffer.advance_window(&bytes);
                assert(self@ =~= feed(old(self)@, bytes@));
                match self.locate() {
                    Located::TooLong => {
                        self.failed = true;
                        assert(self@ =~= fail(feed(old(self)@, bytes@)));
                        Err(InputIteratorErr::RecordTooLong)
                    },
                    _ => Ok(()),
                }
            },
        }
    }

    /// Where the next record lies, or why there is none. Changes nothing.
    fn locate(&self) -> (found: Located)
        requires
            self.wf(),
        ensures
            match pull(self@).1 {
                Pulled::Record(bytes) => found matches Located::Record(start, end) && start <= end
                    <= self.input_buffer.disk_buffer@.len()
                    && self.input_buffer.disk_buffer@.subrange(start as int, end as int) == bytes,
                Pulled::Done => found is Done,
                Pulled::Refill(want) => found matches Located::Refill(n) && n == want,
                Pulled::TooLong => found is TooLong,
            },
    {
        let buffer = &self.input_buffer;
        proof {
            buffer.disk_buffer.lemma_bounded();
            lemma_table_tail(buffer.disk_buffer@, buffer.indices@, buffer.count as int);
        }
        if self.failed || self.curr_argument == self.total_arguments {
            Located::Done
        } else if self.curr_argument as u128 != buffer.end {
            // The next record is in the window: the table says where.
            proof {
                lemma_table_record(
                    buffer.disk_buffer@,
                    buffer.indices@,
                    buffer.count as int,
                    buffer.index as int,
                );
            }
            let end = buffer.indices[buffer.index + 1];
            let start = if buffer.index == 0 {
                buffer.indices[buffer.index]
            } else {
                buffer.indices[buffer.index] + 1
            };
            Located::Record(start, end)
        } else {
            // The window is used up: what is left of it is behind its last
            // delimiter.
            let filled = buffer.disk_buffer.len();
            let start = if buffer.count == 0 {
                0
            } else {
                buffer.capacity + 1
            };
            let tail = filled - start;
            if buffer.ended {
                if tail > 0 {
                    assert(buffer.disk_buffer@.subrange(start as int, filled as int)
                        =~= buffer.pending());
                    Located::Record(start, filled)
                } else {
                    Located::Done
                }
            } else if tail == BUFFER_SIZE {
                Located::TooLong
            } else {
                Located::Refill(BUFFER_SIZE - tail)
            }
        }
    }

    /// Steps over the record that `locate` found.
    fn consume(&mut self)
        requires
            old(self).wf(),
            pull(old(self)@).1 is Record,
        ensures
            final(self).wf(),
            final(self)@ == pull(old(self)@).0,
            final(self).path() == old(self).path(),
            final(self).spec_window_start() == old(self).spec_window_start(),
            final(self).footprint() == old(self).footprint(),
            final(self).cursor() == cursor_after_pull(old(self)@, old(self).cursor()),
            final(self).window() == window_after_pull(old(self)@, old(self).window()),
            final(self).table() == old(self).table(),
            final(self).useful_len() == old(self).useful_len(),
    {
        proof {
            self.input_buffer.disk_buffer.lemma_bounded();
            lemma_table_tail(
                self.input_buffer.disk_buffer@,
                self.input_buffer.indices@,
                self.input_buffer.count as int,
            );
        }
        if self.curr_argument as u128 != self.input_buffer.end {
            proof {
                lemma_table_record(
                    self.input_buffer.disk_buffer@,
                    self.input_buffer.indices@,
                    self.input_buffer.count as int,
                    self.input_buffer.index as int,
                );
            }
            self.input_buffer.index += 1;
        } else {
            // The last record, which no delimiter ends: nothing stays behind.
            let start = if self.input_buffer.count == 0 {
                0
            } else {
                self.input_buffer.capacity + 1
            };
            self.input_buffer.disk_buffer.truncate(start);
            self.input_buffer.end += 1;
            assert(self.input_buffer.pending() =~= Seq::<u8>::empty());
        }
        self.curr_argument += 1;
        proof {
            self.input_buffer.disk_buffer.lemma_bounded();
        }
        assert(self@ =~= pull(old(self)@).0);
    }

    /// Pulls the next record, as text. Bytes that are not valid UTF-8 are
    /// replaced by the replacement character, never refused.
    pub fn next(&mut self) -> (step: Step<String>)
        requires
            old(self).wf(),
        ensures
            final(self).wf(),
            final(self)@ == pull(old(self)@).0,
            gives_text(step, pull(old(self)@).1),
            final(self).path() == old(self).path(),
            final(self).spec_window_start() == old(self).spec_window_start(),
            final(self).footprint() == old(self).footprint(),
            final(self).cursor() == cursor_after_pull(old(self)@, old(self).cursor()),
            final(self).window() == window_after_pull(old(self)@, old(self).window()),
            final(self).table() == old(self).table(),
            final(self).useful_len() == old(self).useful_len(),
    {
        match self.locate() {
            Located::Record(start, end) => {
                let record = from_utf8_lossy(self.input_buffer.disk_buffer.slice(start, end));
                self.consume();
                Step::Record(record)
            },
            Located::Done => Step::Done,
            Located::Refill(want) => Step::Refill(want),
            Located::TooLong => {
                self.failed = true;
                assert(self@ =~= pull(old(self)@).0);
                Step::Failed(InputIteratorErr::RecordTooLong)
            },
        }
    }

    /// Pulls the next record, as the bytes that the file holds.
    pub fn next_bytes(&mut self) -> (step: Step<Vec<u8>>)
        requires
            old(self).wf(),
        ensures
            final(self).wf(),
            final(self)@ == pull(old(self)@).0,
            gives_bytes(step, pull(old(self)@).1),
            final(self).path() == old(self).path(),
            final(self).spec_window_start() == old(self).spec_window_start(),
            final(self).footprint() == old(self).footprint(),
            final(self).cursor() == cursor_after_pull(old(self)@, old(self).cursor()),
            final(self).window() == window_after_pull(old(self)@, old(self).window()),
            final(self).table() == old(self).table(),
            final(self).useful_len() == old(self).useful_len(),
    {
        match self.locate() {
            Located::Record(start, end) => {
                let record = slice_to_vec(self.input_buffer.disk_buffer.slice(start, end));
                self.consume();
                Step::Record(record)
            },
            Located::Done => Step::Done,
            Located::Refill(want) => Step::Refill(want),
            Located::TooLong => {
                self.failed = true;
                assert(self@ =~= pull(old(self)@).0);
                Step::Failed(InputIteratorErr::RecordTooLong)
            },
        }
    }

    /// The number of records that the caller asked for.
    pub fn total_arguments(&self) -> (total: usize)
        ensures
            total == self@.total,
    {
        self.total_arguments
    }

    /// The number of records yielded so far.
    pub fn curr_argument(&self) -> (emitted: usize)
        ensures
            emitted == self@.emitted,
    {
        self.curr_argument
    }

    /// The number of records of the present window that were yielded.
    pub fn index(&self) -> (cursor: usize)
        ensures
            cursor == self.cursor(),
    {
        self.input_buffer.index
    }

    /// The position of the present window's last delimiter, 0 where it has
    /// none.
    pub fn capacity(&self) -> (useful_len: usize)
        ensures
            useful_len == self.useful_len(),
    {
        self.input_buffer.capacity
    }

    /// The delimiter table of the present window: 0, and the position of each
    /// of its delimiters.
    pub fn indices(&self) -> (table: Vec<usize>)
        requires
            self.wf(),
        ensures
            table@ == self.table(),
    {
        let buffer = &self.input_buffer;
        let mut table: Vec<usize> = Vec::new();
        let mut k: usize = 0;
        while k <= buffer.count
            invariant
                buffer.wf(),
                k <= buffer.count + 1,
                table@ == buffer.indices@.take(k as int),
            decreases buffer.count + 1 - k,
        {
            table.push(buffer.indices[k]);
            k += 1;
            assert(table@ =~= buffer.indices@.take(k as int));
        }
        table
    }

    /// 0 while the stream looks at its first window; then the ordinal,
    /// counted from one, of the record that the present window begins with.
    pub fn window_start(&self) -> (start: u128)
        ensures
            start == self.spec_window_start(),
    {
        self.input_buffer.start
    }

    /// The number of complete records from the start of the file to the end
    /// of the window: those yielded, and those that the window still holds.
    pub fn window_end(&self) -> (end: u128)
        requires
            self.wf(),
        ensures
            end == self@.emitted + records(self@.pending).len(),
    {
        proof {
            lemma_table_counts(
                self.input_buffer.disk_buffer@,
                self.input_buffer.indices@,
                self.input_buffer.count as int,
                self.input_buffer.index as int,
            );
        }
        self.input_buffer.end
    }
}

} // verus!
