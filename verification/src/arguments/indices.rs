//! The table of delimiter positions that the stream keeps of its window.
//!
//! Entry 0 of the table is 0 and stands for a delimiter before the window.
//! Entry `k`, from 1 to the number of delimiters, is the position of the
//! window's `k`-th delimiter. Record `k` of the window, counted from 1, lies
//! between the delimiters `k - 1` and `k`.

use crate::arguments::records::{after_head, first_delimiter, has_record, head, lemma_first_delimiter_is, records, DELIMITER};
use vstd::prelude::*;

verus! {

/// Whether the first `count` entries of `table` behind entry 0 are the
/// positions of all the delimiters of `window`, in increasing order.
pub open spec fn is_delimiter_table(window: Seq<u8>, table: Seq<usize>, count: int) -> bool {
    &&& 0 <= count < table.len()
    &&& table[0] == 0
    &&& forall|k: int|
        1 <= k <= count ==> #[trigger] table[k] < window.len() && window[table[k] as int]
            == DELIMITER
    &&& forall|j: int, k: int| 1 <= j < k <= count ==> #[trigger] table[j] < #[trigger] table[k]
    &&& forall|i: int|
        0 <= i < window.len() && #[trigger] window[i] == DELIMITER ==> exists|k: int|
            1 <= k <= count && #[trigger] table[k] == i
}

/// The position at which the record behind the first `cursor` records of the
/// window begins.
pub open spec fn record_start(table: Seq<usize>, cursor: int) -> int {
    if cursor == 0 {
        table[0] as int
    } else {
        table[cursor] + 1
    }
}

/// Behind the first `cursor` records of a window, the next record ends at the
/// delimiter that entry `cursor + 1` names.
pub proof fn lemma_table_record(window: Seq<u8>, table: Seq<usize>, count: int, cursor: int)
    requires
        is_delimiter_table(window, table, count),
        0 <= cursor < count,
    ensures
        0 <= record_start(table, cursor) <= table[cursor + 1] < window.len(),
        has_record(window.skip(record_start(table, cursor))),
        first_delimiter(window.skip(record_start(table, cursor))) == table[cursor + 1]
            - record_start(table, cursor),
        head(window.skip(record_start(table, cursor))) == window.subrange(
            record_start(table, cursor),
            table[cursor + 1] as int,
        ),
        after_head(window.skip(record_start(table, cursor))) == window.skip(
            record_start(table, cursor + 1),
        ),
{
    let from = record_start(table, cursor);
    let to = table[cursor + 1] as int;
    if cursor > 0 {
        assert(table[cursor] < table[cursor + 1]);
    }
    let rest = window.skip(from);
    assert forall|i: int| 0 <= i < to - from implies rest[i] != DELIMITER by {
        if window[from + i] == DELIMITER {
            let k = choose|k: int| 1 <= k <= count && #[trigger] table[k] == from + i;
            if k <= cursor {
                if k < cursor {
                    assert(table[k] < table[cursor]);
                }
            } else if k > cursor + 1 {
                assert(table[cursor + 1] < table[k]);
            }
        }
    }
    assert(rest[to - from] == window[to]);
    lemma_first_delimiter_is(rest, to - from);
    assert(head(rest) =~= window.subrange(from, to));
    assert(after_head(rest) =~= window.skip(record_start(table, cursor + 1)));
}

/// Behind all the records of a window no delimiter is left.
pub proof fn lemma_table_tail(window: Seq<u8>, table: Seq<usize>, count: int)
    requires
        is_delimiter_table(window, table, count),
    ensures
        0 <= record_start(table, count) <= window.len(),
        !has_record(window.skip(record_start(table, count))),
        first_delimiter(window.skip(record_start(table, count))) == window.len() - record_start(
            table,
            count,
        ),
{
    let from = record_start(table, count);
    let rest = window.skip(from);
    assert forall|i: int| 0 <= i < rest.len() implies rest[i] != DELIMITER by {
        if window[from + i] == DELIMITER {
            let k = choose|k: int| 1 <= k <= count && #[trigger] table[k] == from + i;
            if k < count {
                assert(table[k] < table[count]);
            }
        }
    }
    lemma_first_delimiter_is(rest, rest.len() as int);
}

/// Behind the first `cursor` records of a window lie as many complete
/// records as the table has entries left.
pub proof fn lemma_table_counts(window: Seq<u8>, table: Seq<usize>, count: int, cursor: int)
    requires
        is_delimiter_table(window, table, count),
        0 <= cursor <= count,
    ensures
        records(window.skip(record_start(table, cursor))).len() == count - cursor,
    decreases count - cursor,
{
    if cursor < count {
        lemma_table_record(window, table, count, cursor);
        lemma_table_counts(window, table, count, cursor + 1);
    } else {
        lemma_table_tail(window, table, count);
    }
}

/// Two tables of one window agree on every entry that both have.
proof fn lemma_tables_agree(window: Seq<u8>, a: Seq<usize>, b: Seq<usize>, k: int)
    requires
        is_delimiter_table(window, a, a.len() - 1),
        is_delimiter_table(window, b, b.len() - 1),
        0 <= k < a.len(),
        k < b.len(),
    ensures
        a[k] == b[k],
    decreases k,
{
    if k > 0 {
        let p = a[k] as int;
        let q = b[k] as int;
        assert(window[p] == DELIMITER);
        assert(window[q] == DELIMITER);
        let kb = choose|kb: int| 1 <= kb <= b.len() - 1 && #[trigger] b[kb] == p;
        let ka = choose|ka: int| 1 <= ka <= a.len() - 1 && #[trigger] a[ka] == q;
        if kb < k {
            lemma_tables_agree(window, a, b, kb);
            assert(a[kb] < a[k]);
        } else if kb > k {
            assert(b[k] < b[kb]);
            if ka < k {
                lemma_tables_agree(window, a, b, ka);
                assert(b[ka] < b[k]);
            } else if ka > k {
                assert(a[k] < a[ka]);
            }
        }
    }
}

/// A window has one delimiter table: two sequences that each list all its
/// delimiters in increasing order behind a leading 0 are the same sequence.
pub proof fn lemma_table_is_unique(window: Seq<u8>, a: Seq<usize>, b: Seq<usize>)
    requires
        is_delimiter_table(window, a, a.len() - 1),
        is_delimiter_table(window, b, b.len() - 1),
    ensures
        a == b,
{
    if a.len() < b.len() {
        let p = b[a.len() as int] as int;
        assert(window[p] == DELIMITER);
        let ka = choose|ka: int| 1 <= ka <= a.len() - 1 && #[trigger] a[ka] == p;
        lemma_tables_agree(window, a, b, ka);
        assert(b[ka] < b[a.len() as int]);
    } else if b.len() < a.len() {
        let p = a[b.len() as int] as int;
        assert(window[p] == DELIMITER);
        let kb = choose|kb: int| 1 <= kb <= b.len() - 1 && #[trigger] b[kb] == p;
        lemma_tables_agree(window, a, b, kb);
        assert(a[kb] < a[b.len() as int]);
    }
    assert forall|k: int| 0 <= k < a.len() implies a[k] == b[k] by {
        lemma_tables_agree(window, a, b, k);
    }
    assert(a =~= b);
}

} // verus!
