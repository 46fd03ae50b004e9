//! Reading a whole file through the stream.
//!
//! The driver of a stream pulls until the stream is done or fails, and reads
//! whenever the stream wants more. Here that loop is written as mathematics,
//! with a reader that may cut the file into reads as it likes, and what the
//! loop yields is proved to be the records of the file.

use crate::arguments::disk_buffer::BUFFER_SIZE;
use crate::arguments::model::{feed, opening, pull, refill, room, Pulled, StreamModel};
use crate::arguments::records::{
    after_head, all_records, first_delimiter, has_record, head, is_record, join,
    lemma_first_delimiter, lemma_first_delimiter_concat, lemma_first_delimiter_is,
    lemma_record_then, records, remainder, DELIMITER,
};
use vstd::prelude::*;

verus! {

/// What reading through a stream gave: the records that it yielded, in order,
/// and whether it stopped on a record too long for its window.
#[verifier::ext_equal]
pub struct Reading {
    pub records: Seq<Seq<u8>>,
    pub too_long: bool,
}

/// The number of bytes that a read gives when `want` bytes are asked for,
/// `left` bytes are left of the file, and the reader would like to give
/// `wish`: at least one byte and at most what is asked for and left; none
/// only where none is asked for or left.
pub open spec fn read_len(want: nat, left: nat, wish: nat) -> nat {
    let most = if want <= left {
        want
    } else {
        left
    };
    if most == 0 {
        0
    } else if wish < 1 {
        1
    } else if wish > most {
        most
    } else {
        wish
    }
}

/// The number of records that a stream in state `m` will yield of a file of
/// which `rest` is yet to be read: as many as are still asked for, or all that
/// there are.
pub open spec fn wanted(m: StreamModel, rest: Seq<u8>) -> int {
    let asked = m.total - m.emitted;
    let there = all_records(m.pending + rest).len() as int;
    if asked <= there {
        asked
    } else {
        there
    }
}

/// What the stream in state `m` yields from now on, where `rest` is what is
/// yet to be read of its file, and the reader would like to give `reader(n)`
/// bytes at its `n`-th read; this is read number `turn`.
pub open spec fn read_on(
    m: StreamModel,
    rest: Seq<u8>,
    reader: spec_fn(nat) -> nat,
    turn: nat,
) -> Reading
    decreases m.total - m.emitted, rest.len(), (if m.ended {
        0nat
    } else {
        1nat
    }),
{
    match pull(m).1 {
        Pulled::Record(record) => {
            let later = read_on(pull(m).0, rest, reader, turn);
            Reading { records: seq![record] + later.records, too_long: later.too_long }
        },
        Pulled::Done => Reading { records: Seq::empty(), too_long: false },
        Pulled::TooLong => Reading { records: Seq::empty(), too_long: true },
        Pulled::Refill(want) => {
            let given = read_len(want, rest.len(), reader(turn));
            let taken = refill(m, rest.take(given as int));
            if taken.1 {
                Reading { records: Seq::empty(), too_long: true }
            } else {
                read_on(taken.0, rest.skip(given as int), reader, turn + 1)
            }
        },
    }
}

/// What a stream opened on `file` for `total` records yields, with a reader
/// that would like to give `reader(n)` bytes at its `n`-th read. The first
/// read is made when the stream is opened.
pub open spec fn read_through(file: Seq<u8>, total: nat, reader: spec_fn(nat) -> nat) -> Reading {
    let given = read_len(BUFFER_SIZE as nat, file.len(), reader(0));
    read_on(feed(opening(total), file.take(given as int)), file.skip(given as int), reader, 1)
}

/// The records of bytes that begin with a complete record are that record
/// and the records of what follows it.
pub proof fn lemma_all_records_unfold(s: Seq<u8>)
    requires
        has_record(s),
    ensures
        all_records(s) == seq![head(s)] + all_records(after_head(s)),
        all_records(s).len() == 1 + all_records(after_head(s)).len(),
{
    assert(all_records(s) =~= seq![head(s)] + all_records(after_head(s)));
}

/// The first of the records of bytes is at least as long as any prefix of the
/// bytes that holds no delimiter.
proof fn lemma_first_record_covers(pending: Seq<u8>, rest: Seq<u8>)
    requires
        !has_record(pending),
        all_records(pending + rest).len() > 0,
    ensures
        all_records(pending + rest)[0].len() >= pending.len(),
{
    let s = pending + rest;
    lemma_first_delimiter(pending);
    lemma_first_delimiter(rest);
    lemma_first_delimiter(s);
    lemma_first_delimiter_concat(pending, rest);
    if has_record(s) {
        lemma_all_records_unfold(s);
    } else {
        assert(records(s) =~= Seq::<Seq<u8>>::empty());
        assert(remainder(s) == s);
    }
}

/// Bytes without a delimiter have no complete record, and are their own
/// remainder.
proof fn lemma_all_records_of_record(r: Seq<u8>)
    requires
        is_record(r),
    ensures
        !has_record(r),
        all_records(r) == if r.len() > 0 {
            seq![r]
        } else {
            Seq::<Seq<u8>>::empty()
        },
{
    lemma_first_delimiter_is(r, r.len() as int);
    assert(records(r) =~= Seq::<Seq<u8>>::empty());
    assert(all_records(r) =~= if r.len() > 0 {
        seq![r]
    } else {
        Seq::<Seq<u8>>::empty()
    });
}

/// Whatever way the reader cuts the file into reads, a stream yields the
/// records of what it has yet to see of the file, in file order: as many as
/// are still asked for, or all of them where the file has fewer; provided
/// that each of those is shorter than the window. It does not fail.
pub proof fn lemma_read_on(m: StreamModel, rest: Seq<u8>, reader: spec_fn(nat) -> nat, turn: nat)
    requires
        !m.failed,
        m.emitted <= m.total,
        m.ended ==> rest.len() == 0,
        forall|j: int|
            0 <= j < wanted(m, rest) ==> (#[trigger] all_records(m.pending + rest)[j]).len()
                < BUFFER_SIZE,
    ensures
        read_on(m, rest, reader, turn) == (Reading {
            records: all_records(m.pending + rest).take(wanted(m, rest)),
            too_long: false,
        }),
    decreases m.total - m.emitted, rest.len(), (if m.ended {
        0nat
    } else {
        1nat
    }),
{
    let s = m.pending + rest;
    let all = all_records(s);
    let n = wanted(m, rest);
    lemma_first_delimiter(m.pending);
    lemma_first_delimiter(s);
    lemma_first_delimiter_concat(m.pending, rest);
    if m.emitted >= m.total {
        assert(all.take(n) =~= Seq::<Seq<u8>>::empty());
    } else if has_record(m.pending) {
        let after = pull(m).0;
        assert(head(s) =~= head(m.pending));
        assert(after_head(s) =~= after.pending + rest);
        lemma_all_records_unfold(s);
        let later = all_records(after.pending + rest);
        assert(wanted(after, rest) == n - 1);
        assert forall|j: int| 0 <= j < wanted(after, rest) implies (#[trigger] later[j]).len()
            < BUFFER_SIZE by {
            assert(later[j] == all[j + 1]);
        }
        lemma_read_on(after, rest, reader, turn);
        assert(all.take(n) =~= seq![head(m.pending)] + later.take(n - 1));
    } else if m.ended {
        assert(s =~= m.pending);
        assert(records(s) =~= Seq::<Seq<u8>>::empty());
        assert(remainder(s) == s);
        if m.pending.len() > 0 {
            let after = pull(m).0;
            assert(after.pending + rest =~= Seq::<u8>::empty());
            assert(!has_record(Seq::<u8>::empty()));
            assert(records(Seq::<u8>::empty()) =~= Seq::<Seq<u8>>::empty());
            assert(wanted(after, rest) == 0);
            lemma_read_on(after, rest, reader, turn);
            assert(all =~= seq![m.pending]);
            assert(all.take(n) =~= seq![m.pending] + all_records(after.pending + rest).take(0));
        } else {
            assert(all.take(n) =~= Seq::<Seq<u8>>::empty());
        }
    } else {
        if all.len() > 0 {
            lemma_first_record_covers(m.pending, rest);
            assert(all[0].len() < BUFFER_SIZE);
        } else {
            assert(remainder(s) == s);
        }
        assert(m.pending.len() < BUFFER_SIZE);
        let given = read_len(room(m), rest.len(), reader(turn));
        let fed = feed(m, rest.take(given as int));
        let left = rest.skip(given as int);
        assert(fed.pending + left =~= s);
        if !has_record(fed.pending) {
            if all.len() > 0 {
                lemma_first_record_covers(fed.pending, left);
            }
            assert(fed.pending.len() < BUFFER_SIZE);
        }
        assert(!refill(m, rest.take(given as int)).1);
        lemma_read_on(fed, left, reader, turn + 1);
    }
}

/// The records `rs`, written out with a delimiter between each two, read
/// back as `rs`; provided that none of them holds a delimiter and the last is
/// not empty.
pub proof fn lemma_all_records_of_join(rs: Seq<Seq<u8>>)
    requires
        forall|i: int| 0 <= i < rs.len() ==> is_record(#[trigger] rs[i]),
        rs.len() > 0 ==> rs.last().len() > 0,
    ensures
        all_records(join(rs)) == rs,
    decreases rs.len(),
{
    if rs.len() == 0 {
        lemma_all_records_of_record(Seq::<u8>::empty());
        assert(all_records(join(rs)) =~= rs);
    } else if rs.len() == 1 {
        lemma_all_records_of_record(rs[0]);
        assert(all_records(join(rs)) =~= rs);
    } else {
        let tail = rs.drop_first();
        assert forall|i: int| 0 <= i < tail.len() implies is_record(#[trigger] tail[i]) by {
            assert(tail[i] == rs[i + 1]);
        }
        assert(tail.last() == rs.last());
        lemma_all_records_of_join(tail);
        lemma_record_then(rs[0], join(tail));
        lemma_all_records_unfold(join(rs));
        assert(all_records(join(rs)) =~= rs);
    }
}

/// Of a file of records that each end with a delimiter, a stream opened for
/// `total` of them yields exactly the first `total`, in file order, and is
/// then done; whatever way the reader cuts the file into reads, and provided
/// that each of those records is shorter than the window.
pub proof fn theorem_yields_what_was_asked(
    file: Seq<u8>,
    total: nat,
    reader: spec_fn(nat) -> nat,
)
    requires
        remainder(file).len() == 0,
        total <= records(file).len(),
        forall|j: int| 0 <= j < total ==> (#[trigger] records(file)[j]).len() < BUFFER_SIZE,
    ensures
        read_through(file, total, reader) == (Reading {
            records: records(file).take(total as int),
            too_long: false,
        }),
{
    let given = read_len(BUFFER_SIZE as nat, file.len(), reader(0));
    let m = feed(opening(total), file.take(given as int));
    let rest = file.skip(given as int);
    assert(m.pending + rest =~= file);
    assert(all_records(file) == records(file));
    lemma_read_on(m, rest, reader, 1);
}

/// Records written to a file with a delimiter between each two come back
/// from a stream opened for all of them exactly as they were written;
/// whatever way the reader cuts the file into reads, and provided that none
/// of the records holds a delimiter, each is shorter than the window, and the
/// last is not empty.
pub proof fn theorem_reads_back_what_was_written(rs: Seq<Seq<u8>>, reader: spec_fn(nat) -> nat)
    requires
        forall|i: int| 0 <= i < rs.len() ==> is_record(#[trigger] rs[i]),
        forall|i: int| 0 <= i < rs.len() ==> (#[trigger] rs[i]).len() < BUFFER_SIZE,
        rs.len() > 0 ==> rs.last().len() > 0,
    ensures
        read_through(join(rs), rs.len(), reader) == (Reading { records: rs, too_long: false }),
{
    let file = join(rs);
    let given = read_len(BUFFER_SIZE as nat, file.len(), reader(0));
    let m = feed(opening(rs.len()), file.take(given as int));
    let rest = file.skip(given as int);
    assert(m.pending + rest =~= file);
    lemma_all_records_of_join(rs);
    lemma_read_on(m, rest, reader, 1);
    assert(rs.take(rs.len() as int) =~= rs);
}

/// A record that two reads split is yielded whole: where the pending bytes
/// `m.pending` hold no delimiter and a read brings `more`, a delimiter, and
/// `next`, the pull that follows yields the pending bytes and `more` as one
/// record.
pub proof fn theorem_split_record_is_yielded_whole(
    m: StreamModel,
    more: Seq<u8>,
    next: Seq<u8>,
)
    requires
        !m.failed,
        m.emitted < m.total,
        is_record(m.pending),
        is_record(more),
    ensures
        pull(feed(m, more + seq![DELIMITER] + next)).1 == Pulled::Record(m.pending + more),
        pull(feed(m, more + seq![DELIMITER] + next)).0.pending == next,
{
    let fed = feed(m, more + seq![DELIMITER] + next);
    assert(fed.pending =~= (m.pending + more) + seq![DELIMITER] + next);
    lemma_record_then(m.pending + more, next);
    assert(first_delimiter(fed.pending) == m.pending.len() + more.len());
}

} // verus!
