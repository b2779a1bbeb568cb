//! The benchmark's query files: one file per query, its statements parted by semicolons.

use vstd::prelude::*;

use crate::compute::scalar_at::copy_range;

verus! {

/// The number of queries of the benchmark.
pub const QUERY_COUNT: usize = 22;

/// Whether a byte is ASCII white space.
pub open spec fn is_space(b: u8) -> bool {
    b == 0x20 || b == 0x09 || b == 0x0a || b == 0x0b || b == 0x0c || b == 0x0d
}

/// The text without the white space at its ends.
pub open spec fn trimmed(s: Seq<u8>) -> Seq<u8>
    decreases s.len(),
{
    if s.len() == 0 {
        s
    } else if is_space(s[0]) {
        trimmed(s.subrange(1, s.len() as int))
    } else if is_space(s[s.len() - 1]) {
        trimmed(s.subrange(0, s.len() - 1))
    } else {
        s
    }
}

/// The position of the first semicolon at or after `from`, or the length of the text.
pub open spec fn next_semicolon(s: Seq<u8>, from: int) -> int
    decreases s.len() - from,
{
    if from < 0 || from >= s.len() {
        s.len() as int
    } else if s[from] == 0x3b {
        from
    } else {
        next_semicolon(s, from + 1)
    }
}

/// The statements of a text: the pieces between its semicolons, each without the white
/// space at its ends, those that are empty left out.
pub open spec fn statements(s: Seq<u8>) -> Seq<Seq<u8>>
    decreases s.len(),
{
    let k = next_semicolon(s, 0);
    let first = trimmed(s.subrange(0, k));
    let head = if first.len() > 0 {
        seq![first]
    } else {
        Seq::empty()
    };
    if 0 <= k < s.len() {
        head + statements(s.subrange(k + 1, s.len() as int))
    } else {
        head
    }
}

/// The views of byte strings.
pub open spec fn texts(v: Seq<Vec<u8>>) -> Seq<Seq<u8>> {
    Seq::new(v.len(), |i: int| v[i]@)
}

/// The first semicolon lies where it is found, given that none lies before.
pub proof fn lemma_next_semicolon(s: Seq<u8>, from: int, at: int)
    requires
        0 <= from <= at <= s.len(),
        forall|j: int| from <= j < at ==> s[j] != 0x3b,
        at < s.len() ==> s[at] == 0x3b,
    ensures
        next_semicolon(s, from) == at,
    decreases at - from,
{
    if from < at {
        lemma_next_semicolon(s, from + 1, at);
    }
}

/// Whether a byte is ASCII white space.
pub fn is_whitespace(b: u8) -> (r: bool)
    ensures
        r == is_space(b),
{
    b == 0x20 || b == 0x09 || b == 0x0a || b == 0x0b || b == 0x0c || b == 0x0d
}

/// The piece `start..stop` of a text without the white space at its ends.
pub fn trim(text: &Vec<u8>, start: usize, stop: usize) -> (r: Vec<u8>)
    requires
        start <= stop <= text@.len(),
    ensures
        r@ == trimmed(text@.subrange(start as int, stop as int)),
{
    let mut lo = start;
    let mut hi = stop;
    while lo < hi && is_whitespace(text[lo])
        invariant
            start <= lo <= hi,
            hi == stop,
            stop <= text@.len(),
            trimmed(text@.subrange(start as int, stop as int)) == trimmed(
                text@.subrange(lo as int, hi as int),
            ),
        decreases hi - lo,
    {
        proof {
            let s = text@.subrange(lo as int, hi as int);
            assert(s[0] == text@[lo as int]);
            assert(s.subrange(1, s.len() as int) =~= text@.subrange(lo + 1, hi as int));
        }
        lo += 1;
    }
    while hi > lo && is_whitespace(text[hi - 1])
        invariant
            start <= lo <= hi <= stop,
            stop <= text@.len(),
            lo < hi ==> !is_space(text@[lo as int]),
            trimmed(text@.subrange(start as int, stop as int)) == trimmed(
                text@.subrange(lo as int, hi as int),
            ),
        decreases hi - lo,
    {
        proof {
            let s = text@.subrange(lo as int, hi as int);
            assert(s[0] == text@[lo as int]);
            assert(s[s.len() - 1] == text@[hi - 1]);
            assert(s.subrange(0, s.len() - 1) =~= text@.subrange(lo as int, hi - 1));
        }
        hi -= 1;
    }
    proof {
        let s = text@.subrange(lo as int, hi as int);
        if lo < hi {
            assert(s[0] == text@[lo as int]);
            assert(s[s.len() - 1] == text@[hi - 1]);
        }
    }
    copy_range(text, lo, hi)
}

/// The statements of a query file: the pieces between semicolons, trimmed, the empty ones
/// left out.
pub fn tpch_query(text: &Vec<u8>) -> (r: Vec<Vec<u8>>)
    ensures
        texts(r@) == statements(text@),
{
    let n = text.len();
    let mut out: Vec<Vec<u8>> = Vec::new();
    let mut start: usize = 0;
    let mut i: usize = 0;
    proof {
        assert(text@.subrange(0, n as int) =~= text@);
        assert(texts(out@) + statements(text@) =~= statements(text@));
    }
    while i < n
        invariant
            n == text@.len(),
            start <= i <= n,
            forall|j: int| start <= j < i ==> text@[j] != 0x3b,
            statements(text@) == texts(out@) + statements(text@.subrange(start as int, n as int)),
        decreases n - i,
    {
        if text[i] == 0x3b {
            let ghost rest = text@.subrange(start as int, n as int);
            let ghost before = out@;
            proof {
                assert forall|j: int| 0 <= j < i - start implies rest[j] != 0x3b by {
                    assert(rest[j] == text@[start + j]);
                }
                assert(rest[i - start] == text@[i as int]);
                lemma_next_semicolon(rest, 0, i - start);
                assert(rest.subrange(0, i - start) =~= text@.subrange(start as int, i as int));
                assert(rest.subrange(i - start + 1, rest.len() as int) =~= text@.subrange(i + 1, n as int));
            }
            let piece = trim(text, start, i);
            if piece.len() > 0 {
                out.push(piece);
                proof {
                    assert(texts(out@) =~= texts(before) + seq![piece@]);
                    assert(texts(before) + (seq![piece@] + statements(text@.subrange(i + 1, n as int)))
                        =~= (texts(before) + seq![piece@]) + statements(text@.subrange(i + 1, n as int)));
                }
            } else {
                proof {
                    assert(Seq::<Seq<u8>>::empty() + statements(text@.subrange(i + 1, n as int))
                        =~= statements(text@.subrange(i + 1, n as int)));
                }
            }
            start = i + 1;
        }
        i += 1;
    }
    let ghost rest = text@.subrange(start as int, n as int);
    let ghost before = out@;
    proof {
        assert forall|j: int| 0 <= j < n - start implies rest[j] != 0x3b by {
            assert(rest[j] == text@[start + j]);
        }
        lemma_next_semicolon(rest, 0, n - start);
        assert(rest.subrange(0, n - start) =~= rest);
    }
    let piece = trim(text, start, n);
    if piece.len() > 0 {
        out.push(piece);
        proof {
            assert(texts(out@) =~= texts(before) + seq![piece@]);
        }
    } else {
        proof {
            assert(texts(before) + Seq::<Seq<u8>>::empty() =~= texts(before));
        }
    }
    out
}

/// The statements of each of the benchmark's queries, with the number of the query, given
/// the text of each query's file in order.
pub fn tpch_queries(files: &Vec<Vec<u8>>) -> (r: Vec<(usize, Vec<Vec<u8>>)>)
    ensures
        r@.len() == files@.len(),
        forall|q: int| 0 <= q < files@.len() ==> (#[trigger] r@[q]).0 == q + 1 && texts(r@[q].1@)
            == statements(files@[q]@),
{
    let mut out: Vec<(usize, Vec<Vec<u8>>)> = Vec::new();
    let mut q: usize = 0;
    while q < files.len()
        invariant
            q <= files@.len(),
            out@.len() == q,
            forall|j: int| 0 <= j < q ==> (#[trigger] out@[j]).0 == j + 1 && texts(out@[j].1@)
                == statements(files@[j]@),
        decreases files@.len() - q,
    {
        out.push((q + 1, tpch_query(&files[q])));
        q += 1;
    }
    out
}

} // verus!
