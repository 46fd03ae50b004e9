//! The record format: a byte sequence cut into records by line feeds.
//!
//! A record is a maximal run of bytes other than the delimiter. Every record
//! but the last is followed by one delimiter; the last may end with the bytes.
//! Nothing is framed or escaped, and an empty record is a record.

use vstd::prelude::*;

verus! {

/// The byte that ends a record: a line feed.
pub const DELIMITER: u8 = 10;

/// The index of the first delimiter of `s`, or `s.len()` where `s` holds none.
pub open spec fn first_delimiter(s: Seq<u8>) -> int
    decreases s.len(),
{
    if s.len() == 0 || s[0] == DELIMITER {
        0
    } else {
        1 + first_delimiter(s.drop_first())
    }
}

/// Whether `s` begins with a complete record: whether it holds a delimiter.
pub open spec fn has_record(s: Seq<u8>) -> bool {
    0 <= first_delimiter(s) < s.len()
}

/// The bytes of `s` before its first delimiter: its first record where it
/// has one, else all of `s`.
pub open spec fn head(s: Seq<u8>) -> Seq<u8> {
    s.subrange(0, first_delimiter(s))
}

/// The bytes of `s` after its first delimiter.
pub open spec fn after_head(s: Seq<u8>) -> Seq<u8>
    recommends
        has_record(s),
{
    s.subrange(first_delimiter(s) + 1, s.len() as int)
}

/// The complete records of `s`, in order: each run of bytes that a delimiter
/// ends, without the delimiter.
pub open spec fn records(s: Seq<u8>) -> Seq<Seq<u8>>
    decreases s.len(),
{
    if has_record(s) {
        seq![head(s)] + records(after_head(s))
    } else {
        Seq::empty()
    }
}

/// What follows the last delimiter of `s`: the record that no delimiter ends.
pub open spec fn remainder(s: Seq<u8>) -> Seq<u8>
    decreases s.len(),
{
    if has_record(s) {
        remainder(after_head(s))
    } else {
        s
    }
}

/// All the records of a file that holds `s`: the complete ones, and then the
/// remainder where it is not empty.
pub open spec fn all_records(s: Seq<u8>) -> Seq<Seq<u8>> {
    if remainder(s).len() > 0 {
        records(s).push(remainder(s))
    } else {
        records(s)
    }
}

/// Whether `r` can be a record: whether it holds no delimiter.
pub open spec fn is_record(r: Seq<u8>) -> bool {
    forall|i: int| 0 <= i < r.len() ==> r[i] != DELIMITER
}

/// The records `rs` written out with a delimiter between each two.
pub open spec fn join(rs: Seq<Seq<u8>>) -> Seq<u8>
    decreases rs.len(),
{
    if rs.len() == 0 {
        Seq::empty()
    } else if rs.len() == 1 {
        rs[0]
    } else {
        rs[0] + seq![DELIMITER] + join(rs.drop_first())
    }
}

/// `first_delimiter` is the least index that holds a delimiter.
pub proof fn lemma_first_delimiter(s: Seq<u8>)
    ensures
        0 <= first_delimiter(s) <= s.len(),
        forall|i: int| 0 <= i < first_delimiter(s) ==> s[i] != DELIMITER,
        first_delimiter(s) < s.len() ==> s[first_delimiter(s)] == DELIMITER,
    decreases s.len(),
{
    if s.len() != 0 && s[0] != DELIMITER {
        let t = s.drop_first();
        lemma_first_delimiter(t);
        assert forall|i: int| 0 <= i < first_delimiter(s) implies s[i] != DELIMITER by {
            if i > 0 {
                assert(s[i] == t[i - 1]);
            }
        }
        assert(first_delimiter(s) < s.len() ==> s[first_delimiter(s)] == t[first_delimiter(t)]);
    }
}

/// An index that holds a delimiter, or the length, with no delimiter before
/// it, is `first_delimiter`.
pub proof fn lemma_first_delimiter_is(s: Seq<u8>, p: int)
    requires
        0 <= p <= s.len(),
        forall|i: int| 0 <= i < p ==> s[i] != DELIMITER,
        p < s.len() ==> s[p] == DELIMITER,
    ensures
        first_delimiter(s) == p,
{
    lemma_first_delimiter(s);
    let q = first_delimiter(s);
    if q < p {
        assert(s[q] != DELIMITER);
    } else if p < q {
        assert(s[p] != DELIMITER);
    }
}

/// The first delimiter of `a + b` is that of `a` where `a` has one, else that
/// of `b`, moved by the length of `a`.
pub proof fn lemma_first_delimiter_concat(a: Seq<u8>, b: Seq<u8>)
    ensures
        first_delimiter(a + b) == if has_record(a) {
            first_delimiter(a)
        } else {
            a.len() + first_delimiter(b)
        },
{
    lemma_first_delimiter(a);
    lemma_first_delimiter(b);
    let s = a + b;
    let p = if has_record(a) {
        first_delimiter(a)
    } else {
        a.len() + first_delimiter(b)
    };
    assert forall|i: int| 0 <= i < p implies s[i] != DELIMITER by {
        if i >= a.len() {
            assert(s[i] == b[i - a.len()]);
        } else {
            assert(s[i] == a[i]);
        }
    }
    if p < s.len() {
        if has_record(a) {
            assert(s[p] == a[p]);
        } else {
            assert(s[p] == b[p - a.len()]);
        }
    }
    lemma_first_delimiter_is(s, p);
}

/// A record followed by a delimiter and `t` splits into that record and `t`.
pub proof fn lemma_record_then(r: Seq<u8>, t: Seq<u8>)
    requires
        is_record(r),
    ensures
        has_record(r + seq![DELIMITER] + t),
        head(r + seq![DELIMITER] + t) == r,
        after_head(r + seq![DELIMITER] + t) == t,
{
    let s = r + seq![DELIMITER] + t;
    assert forall|i: int| 0 <= i < r.len() implies s[i] != DELIMITER by {
        assert(s[i] == r[i]);
    }
    assert(s[r.len() as int] == DELIMITER);
    lemma_first_delimiter_is(s, r.len() as int);
    assert(head(s) =~= r);
    assert(after_head(s) =~= t);
}

} // verus!
