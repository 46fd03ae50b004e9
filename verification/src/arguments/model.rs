//! The stream of arguments as mathematics: what it has yet to yield, and what
//! each pull and each read does to that.
//!
//! The stream's memory is a window of `BUFFER_SIZE` bytes. Its model forgets
//! where in the window the bytes lie and keeps the bytes that were read and
//! not yet yielded, in file order.

use crate::arguments::disk_buffer::BUFFER_SIZE;
use crate::arguments::records::{after_head, has_record, head};
use vstd::prelude::*;

verus! {

/// The state of a stream.
#[verifier::ext_equal]
pub struct StreamModel {
    /// The number of records that the caller asked for.
    pub total: nat,
    /// The number of records yielded so far.
    pub emitted: nat,
    /// The bytes read from the file and not yet yielded.
    pub pending: Seq<u8>,
    /// Whether a read has come back empty: the file has ended.
    pub ended: bool,
    /// Whether the stream has reported an error. It yields nothing after.
    pub failed: bool,
}

/// What a pull on the stream gives.
pub enum Pulled {
    /// The next record, as the bytes between two delimiters.
    Record(Seq<u8>),
    /// Nothing more: every record asked for was yielded, the file ended, or
    /// the stream failed before.
    Done,
    /// No complete record is in the window: read up to this many bytes of the
    /// file, hand them over, and pull again.
    Refill(nat),
    /// The window is full and holds no delimiter.
    TooLong,
}

/// The stream before anything was read: `total` records to yield, none in
/// sight.
pub open spec fn opening(total: nat) -> StreamModel {
    StreamModel { total, emitted: 0, pending: Seq::empty(), ended: false, failed: false }
}

/// The number of bytes that the window has room for beyond the pending ones.
pub open spec fn room(m: StreamModel) -> nat {
    if m.pending.len() <= BUFFER_SIZE {
        (BUFFER_SIZE - m.pending.len()) as nat
    } else {
        0
    }
}

/// A read that gave `chunk`. The bytes join the pending ones. An empty chunk
/// where there was room says that the file has ended. A failed stream takes
/// nothing in.
pub open spec fn feed(m: StreamModel, chunk: Seq<u8>) -> StreamModel {
    if m.failed {
        m
    } else {
        StreamModel {
            pending: m.pending + chunk,
            ended: m.ended || (chunk.len() == 0 && room(m) > 0),
            ..m
        }
    }
}

/// A read that failed. The stream fails with it.
pub open spec fn fail(m: StreamModel) -> StreamModel {
    StreamModel { failed: true, ..m }
}

/// A pull: the state after it, and what it gives.
///
/// A stream that failed, or that has yielded all that was asked for, is done.
/// Otherwise the first pending record is yielded, where a delimiter ends one.
/// Where none does: at the end of the file the pending bytes are the last
/// record, if there are any; a full window holds a record too long for it,
/// which a pull finds only in the window that the stream was opened with,
/// since a read that fills a later one reports it; and else more of the file
/// is wanted.
pub open spec fn pull(m: StreamModel) -> (StreamModel, Pulled) {
    if m.failed || m.emitted >= m.total {
        (m, Pulled::Done)
    } else if has_record(m.pending) {
        (
            StreamModel { emitted: m.emitted + 1, pending: after_head(m.pending), ..m },
            Pulled::Record(head(m.pending)),
        )
    } else if m.ended {
        if m.pending.len() > 0 {
            (
                StreamModel { emitted: m.emitted + 1, pending: Seq::empty(), ..m },
                Pulled::Record(m.pending),
            )
        } else {
            (m, Pulled::Done)
        }
    } else if m.pending.len() >= BUFFER_SIZE {
        (fail(m), Pulled::TooLong)
    } else {
        (m, Pulled::Refill(room(m)))
    }
}

/// A read that gave `chunk`, as the stream takes it in: the state after it,
/// and whether the read showed a record too long for the window.
///
/// The bytes are fed. Where the window is then full and holds no delimiter,
/// so that the next pull could only find the record too long, the stream
/// fails at once.
pub open spec fn refill(m: StreamModel, chunk: Seq<u8>) -> (StreamModel, bool) {
    let fed = feed(m, chunk);
    if pull(fed).1 is TooLong {
        (fail(fed), true)
    } else {
        (fed, false)
    }
}

/// The cursor after a pull on a stream in state `m` whose cursor was
/// `cursor`: it moves on by one where the pull yields a record that a
/// delimiter ends, and stays where it was otherwise.
pub open spec fn cursor_after_pull(m: StreamModel, cursor: nat) -> nat {
    if pull(m).1 is Record && has_record(m.pending) {
        cursor + 1
    } else {
        cursor
    }
}

/// The window after a pull on a stream in state `m` whose window was
/// `window`: it loses its last record where the pull yields that record and
/// no delimiter ends it, and stays as it was otherwise.
pub open spec fn window_after_pull(m: StreamModel, window: Seq<u8>) -> Seq<u8> {
    if pull(m).1 is Record && !has_record(m.pending) {
        window.take(window.len() - m.pending.len())
    } else {
        window
    }
}

} // verus!
