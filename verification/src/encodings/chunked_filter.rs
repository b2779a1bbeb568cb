//! Filtering a chunked array, chunk by chunk.

use vstd::prelude::*;

use crate::array::{
    concat_elements, lemma_concat_len_monotone, ArrayData, ChunkedArray,
};
use crate::bits::{builder_append_n, builder_bits, builder_finish, builder_new};
use crate::compute::filter::filter;
use crate::compute::mask::{
    count_true, filter_seq, in_slices, lemma_filter_all, lemma_filter_concat,
    lemma_filter_is_take, lemma_filter_len, lemma_filter_none, lemma_set_indices, runs_apart,
    runs_ordered, slices_bits, slices_ordered, FilterMask,
};
use crate::compute::slice::{lemma_concat_chunk_range, lemma_concat_push};
use crate::encodings::chunked::{ends_sorted, find_chunk_idx};
use crate::error::VortexError;

verus! {

/// The filter to apply to one chunk: keep it whole, skip it, or keep the given ranges of it.
#[derive(Debug)]
pub enum ChunkFilter {
    All,
    Skip,
    Slices(Vec<(usize, usize)>),
}

impl ChunkFilter {
    /// Whether the filter keeps position `j` of its chunk.
    pub open spec fn selects(self, j: int) -> bool {
        match self {
            ChunkFilter::All => true,
            ChunkFilter::Skip => false,
            ChunkFilter::Slices(v) => in_slices(v@, j),
        }
    }

    /// What holds of the filter of the chunk `begin..end` once the runs in `runs` are
    /// accounted for, the last of which ends at `bound`: it keeps exactly the chunk's
    /// positions that lie in a run, its ranges are runs in order that end by `bound`, and
    /// the chunk is kept whole exactly when it lies strictly inside a run.
    pub open spec fn accounts_for(
        self,
        begin: int,
        end: int,
        bound: int,
        runs: Seq<(usize, usize)>,
    ) -> bool {
        &&& match self {
            ChunkFilter::All => end <= bound,
            ChunkFilter::Skip => true,
            ChunkFilter::Slices(v) => v@.len() > 0 && runs_ordered(v@, end - begin) && forall|k: int|
                0 <= k < v@.len() ==> begin + (#[trigger] v@[k]).1 <= bound,
        }
        &&& forall|j: int| 0 <= j < end - begin ==> #[trigger] self.selects(j) == in_slices(runs, begin + j)
        &&& (self is All) == inside_run(runs, begin, end)
    }
}

/// Whether the chunk `begin..end` lies strictly inside one of the runs.
pub open spec fn inside_run(runs: Seq<(usize, usize)>, begin: int, end: int) -> bool {
    exists|k: int| 0 <= k < runs.len() && (#[trigger] runs[k]).0 < begin && end < runs[k].1
}

/// Whether every position from the one before `begin` to `end` itself is set.
pub open spec fn amid_set(bits: Seq<bool>, begin: int, end: int) -> bool {
    0 < begin && end < bits.len() && forall|i: int| begin - 1 <= i <= end ==> #[trigger] bits[i]
}

/// One more run adds the chunks strictly inside it.
pub proof fn lemma_inside_run_push(runs: Seq<(usize, usize)>, s: (usize, usize), begin: int, end: int)
    ensures
        inside_run(runs.push(s), begin, end) == (inside_run(runs, begin, end) || (s.0 < begin && end
            < s.1)),
{
    let p = runs.push(s);
    if inside_run(runs, begin, end) {
        let k = choose|k: int| 0 <= k < runs.len() && (#[trigger] runs[k]).0 < begin && end < runs[k].1;
        assert(p[k] == runs[k]);
    }
    if s.0 < begin && end < s.1 {
        assert(p[runs.len() as int] == s);
    }
    if inside_run(p, begin, end) {
        let k = choose|k: int| 0 <= k < p.len() && (#[trigger] p[k]).0 < begin && end < p[k].1;
        if k < runs.len() {
            assert(p[k] == runs[k]);
        }
    }
}

/// A chunk amid set positions lies strictly inside one of the maximal runs of the set
/// positions.
pub proof fn lemma_amid_run(runs: Seq<(usize, usize)>, bits: Seq<bool>, begin: int, end: int)
    requires
        runs_ordered(runs, bits.len() as int),
        runs_apart(runs),
        forall|i: int| 0 <= i < bits.len() ==> bits[i] == in_slices(runs, i),
        begin <= end,
        amid_set(bits, begin, end),
    ensures
        inside_run(runs, begin, end),
{
    assert(bits[begin - 1]);
    let a = choose|a: int| 0 <= a < runs.len() && (#[trigger] runs[a]).0 <= begin - 1 < runs[a].1;
    if runs[a].1 <= end {
        let p = runs[a].1 as int;
        assert(bits[p]);
        let c = choose|c: int| 0 <= c < runs.len() && (#[trigger] runs[c]).0 <= p < runs[c].1;
        if c > a {
            assert(runs[a].1 < runs[c].0);
        } else if c < a {
            assert(runs[c].1 <= runs[a].0);
        }
        assert(false);
    }
}

/// A selection with a set position has a positive count.
pub proof fn lemma_count_positive(bits: Seq<bool>, j: int)
    requires
        0 <= j < bits.len(),
        bits[j],
    ensures
        count_true(bits) > 0,
    decreases bits.len(),
{
    if j < bits.len() - 1 {
        lemma_count_positive(bits.drop_last(), j);
    }
}

/// One more range adds its positions.
pub proof fn lemma_in_slices_push(slices: Seq<(usize, usize)>, s: (usize, usize), i: int)
    ensures
        in_slices(slices.push(s), i) == (in_slices(slices, i) || s.0 <= i < s.1),
{
    let p = slices.push(s);
    if in_slices(slices, i) {
        let k = choose|k: int| 0 <= k < slices.len() && (#[trigger] slices[k]).0 <= i < slices[k].1;
        assert(p[k] == slices[k]);
    }
    if s.0 <= i < s.1 {
        assert(p[slices.len() as int] == s);
    }
    if in_slices(p, i) {
        let k = choose|k: int| 0 <= k < p.len() && (#[trigger] p[k]).0 <= i < p[k].1;
        if k < slices.len() {
            assert(p[k] == slices[k]);
        }
    }
}

/// A run that does not touch a chunk leaves its filter as it was.
pub proof fn lemma_untouched(
    f: ChunkFilter,
    begin: int,
    end: int,
    bound: int,
    runs: Seq<(usize, usize)>,
    run: (usize, usize),
)
    requires
        f.accounts_for(begin, end, bound, runs),
        begin <= end,
        run.1 <= begin || run.0 >= end,
        bound <= run.1,
    ensures
        f.accounts_for(begin, end, run.1 as int, runs.push(run)),
{
    lemma_inside_run_push(runs, run, begin, end);
    assert forall|j: int| 0 <= j < end - begin implies #[trigger] f.selects(j) == in_slices(runs.push(run), begin + j) by {
        lemma_in_slices_push(runs, run, begin + j);
    }
}

/// A run that a chunk lies strictly inside makes the chunk's filter `All`.
pub proof fn lemma_covered(
    begin: int,
    end: int,
    runs: Seq<(usize, usize)>,
    run: (usize, usize),
)
    requires
        run.0 < begin,
        end < run.1,
    ensures
        ChunkFilter::All.accounts_for(begin, end, run.1 as int, runs.push(run)),
{
    lemma_inside_run_push(runs, run, begin, end);
    assert forall|j: int| 0 <= j < end - begin implies #[trigger] ChunkFilter::All.selects(j) == in_slices(runs.push(run), begin + j) by {
        lemma_in_slices_push(runs, run, begin + j);
    }
}

/// A run that begins after the runs before it and meets a chunk adds the part of it that
/// lies in the chunk to the chunk's filter.
pub proof fn lemma_added(
    old_f: ChunkFilter,
    new_f: ChunkFilter,
    begin: int,
    end: int,
    bound: int,
    runs: Seq<(usize, usize)>,
    run: (usize, usize),
    s: (usize, usize),
)
    requires
        old_f.accounts_for(begin, end, bound, runs),
        begin < end,
        bound <= run.0 < run.1,
        run.0 < end,
        begin < run.1,
        begin <= run.0 || run.1 <= end,
        s.0 == (if run.0 <= begin { 0 } else { run.0 - begin }),
        s.1 == (if run.1 >= end { end - begin } else { run.1 - begin }),
        new_f is Slices,
        new_f->Slices_0@ == (match old_f {
            ChunkFilter::Slices(v) => v@.push(s),
            _ => seq![s],
        }),
    ensures
        !(old_f is All),
        new_f.accounts_for(begin, end, run.1 as int, runs.push(run)),
{
    let nv = new_f->Slices_0@;
    let ov = match old_f {
        ChunkFilter::Slices(v) => v@,
        _ => Seq::<(usize, usize)>::empty(),
    };
    assert(nv =~= ov.push(s));
    lemma_inside_run_push(runs, run, begin, end);
    assert forall|k: int| 0 <= k < nv.len() implies (#[trigger] nv[k]).0 < nv[k].1 <= end - begin && begin + nv[k].1 <= run.1 by {
        if k < ov.len() {
            assert(nv[k] == ov[k]);
        }
    }
    assert forall|j: int, k: int| 0 <= j < k < nv.len() implies (#[trigger] nv[j]).1 <= (#[trigger] nv[k]).0 by {
        assert(nv[j] == ov[j]);
        if k < ov.len() {
            assert(nv[k] == ov[k]);
        }
    }
    assert forall|j: int| 0 <= j < end - begin implies #[trigger] new_f.selects(j) == in_slices(runs.push(run), begin + j) by {
        lemma_in_slices_push(runs, run, begin + j);
        lemma_in_slices_push(ov, s, j);
        assert(old_f.selects(j) == in_slices(runs, begin + j));
        if old_f is Skip {
            assert(!in_slices(ov, j));
        }
    }
}

/// Adds a range to the filter of chunk `c`: to its ranges if it has some, else as its
/// only range.
fn add_slice(filters: &mut Vec<ChunkFilter>, c: usize, s: (usize, usize))
    requires
        c < old(filters)@.len(),
    ensures
        final(filters)@.len() == old(filters)@.len(),
        forall|d: int| 0 <= d < old(filters)@.len() && d != c ==> final(filters)@[d] == old(filters)@[d],
        final(filters)@[c as int] is Slices,
        final(filters)@[c as int]->Slices_0@ == (match old(filters)@[c as int] {
            ChunkFilter::Slices(v) => v@.push(s),
            _ => seq![s],
        }),
{
    match &mut filters[c] {
        ChunkFilter::Slices(slices) => {
            slices.push(s);
        },
        f => {
            *f = ChunkFilter::Slices(vec![s]);
        },
    }
}

/// The number of positions that the ranges hold.
pub open spec fn slices_total(slices: Seq<(usize, usize)>) -> int
    decreases slices.len(),
{
    if slices.len() == 0 {
        0
    } else {
        slices_total(slices.drop_last()) + (slices.last().1 - slices.last().0)
    }
}

/// Of two selections laid end to end, as many flags are set as in both.
pub proof fn lemma_count_concat(a: Seq<bool>, b: Seq<bool>)
    ensures
        count_true(a + b) == count_true(a) + count_true(b),
{
    lemma_filter_len(a + b, a + b);
    lemma_filter_concat(a, a, b, b);
    lemma_filter_len(a, a);
    lemma_filter_len(b, b);
}

/// The selection of ordered ranges has as many set flags as the ranges hold positions.
pub proof fn law_slices_count(slices: Seq<(usize, usize)>, len: int)
    requires
        slices_ordered(slices, len),
        0 <= len,
    ensures
        count_true(slices_bits(slices, len)) == slices_total(slices),
    decreases slices.len(),
{
    let bits = slices_bits(slices, len);
    if slices.len() == 0 {
        lemma_filter_none(bits, bits);
        lemma_filter_len(bits, bits);
    } else {
        let rest = slices.drop_last();
        let last = slices.last();
        let s = last.0 as int;
        let e = last.1 as int;
        assert(slices =~= rest.push(last));
        assert forall|k: int| 0 <= k < rest.len() implies (#[trigger] rest[k]).0 <= rest[k].1 <= s by {
            assert(rest[k] == slices[k]);
            assert(slices[k].1 <= slices[slices.len() - 1].0);
        }
        assert forall|j: int, k: int| 0 <= j < k < rest.len() implies (#[trigger] rest[j]).1 <= (
        #[trigger] rest[k]).0 by {
            assert(rest[j] == slices[j]);
            assert(rest[k] == slices[k]);
        }
        law_slices_count(rest, s);
        let a = slices_bits(rest, s);
        let b = Seq::new((e - s) as nat, |i: int| true);
        let c = Seq::new((len - e) as nat, |i: int| false);
        assert forall|i: int| 0 <= i < len implies bits[i] == (a + b + c)[i] by {
            lemma_in_slices_push(rest, last, i);
            if i >= s && in_slices(rest, i) {
                let k = choose|k: int| 0 <= k < rest.len() && (#[trigger] rest[k]).0 <= i < rest[k].1;
                assert(rest[k].1 <= s);
            }
        }
        assert(bits =~= a + b + c);
        lemma_count_concat(a + b, c);
        lemma_count_concat(a, b);
        lemma_filter_all(b, b);
        lemma_filter_len(b, b);
        lemma_filter_none(c, c);
        lemma_filter_len(c, c);
    }
}

/// Given ranges of set positions, the selection of length `len` that holds exactly those
/// positions, as many as the ranges hold.
#[verifier::rlimit(40)]
pub fn slices_to_mask(slices: &Vec<(usize, usize)>, len: usize) -> (r: FilterMask)
    requires
        slices_ordered(slices@, len as int),
    ensures
        r.wf(),
        r@ == slices_bits(slices@, len as int),
        count_true(r@) == slices_total(slices@),
{
    proof {
        law_slices_count(slices@, len as int);
    }
    let mut buffer = builder_new(len);
    let mut pos: usize = 0;
    let mut k: usize = 0;
    assert(builder_bits(buffer) =~= slices_bits(slices@.subrange(0, 0), 0));
    while k < slices.len()
        invariant
            slices_ordered(slices@, len as int),
            k <= slices@.len(),
            pos <= len,
            k == 0 ==> pos == 0,
            k > 0 ==> pos == slices@[k - 1].1,
            builder_bits(buffer) == slices_bits(slices@.subrange(0, k as int), pos as int),
        decreases slices@.len() - k,
    {
        let (slice_start, slice_end) = slices[k];
        proof {
            if k > 0 {
                assert(slices@[k - 1].1 <= slices@[k as int].0);
            }
        }
        let n_leading_false = slice_start - pos;
        let ghost before = builder_bits(buffer);
        builder_append_n(&mut buffer, n_leading_false, false);
        builder_append_n(&mut buffer, slice_end - slice_start, true);
        proof {
            let prev = slices@.subrange(0, k as int);
            let next = slices@.subrange(0, k + 1);
            assert(next =~= prev.push(slices@[k as int]));
            let want = slices_bits(next, slice_end as int);
            let got = builder_bits(buffer);
            assert forall|i: int| 0 <= i < slice_end implies got[i] == want[i] by {
                lemma_in_slices_push(prev, slices@[k as int], i);
                if i >= pos {
                    if in_slices(prev, i) {
                        let q = choose|q: int| 0 <= q < prev.len() && (#[trigger] prev[q]).0 <= i < prev[q].1;
                        assert(prev[q] == slices@[q]);
                        if q < k - 1 {
                            assert(slices@[q].1 <= slices@[k - 1].0);
                        }
                    }
                } else {
                    assert(got[i] == before[i]);
                }
            }
            assert(got =~= want);
        }
        pos = slice_end;
        k += 1;
    }
    let n_trailing_false = len - pos;
    let ghost before = builder_bits(buffer);
    builder_append_n(&mut buffer, n_trailing_false, false);
    let bits = builder_finish(&mut buffer);
    proof {
        assert(slices@.subrange(0, slices@.len() as int) =~= slices@);
        let want = slices_bits(slices@, len as int);
        assert forall|i: int| 0 <= i < len implies bits@[i] == want[i] by {
            if i >= pos {
                if in_slices(slices@, i) {
                    let q = choose|q: int| 0 <= q < slices@.len() && (#[trigger] slices@[q]).0 <= i < slices@[q].1;
                    if q < slices@.len() - 1 {
                        assert(slices@[q].1 <= slices@[slices@.len() - 1].0);
                    }
                }
            } else {
                assert(bits@[i] == before[i]);
            }
        }
        assert(bits@ =~= want);
    }
    FilterMask::from_bools(bits)
}

/// Rewrites runs of set positions into one filter per chunk. A run within one chunk adds a
/// range to that chunk; a run over several chunks adds a range to the first and to the
/// last, and keeps the chunks between whole. Chunks that no run meets are skipped.
#[verifier::rlimit(40)]
pub fn chunk_filters(chunk_ends: &Vec<u64>, runs: &Vec<(usize, usize)>) -> (r: Vec<ChunkFilter>)
    requires
        chunk_ends@.len() >= 1,
        ends_sorted(chunk_ends@),
        chunk_ends@[0] == 0,
        chunk_ends@[chunk_ends@.len() - 1] <= usize::MAX,
        runs_ordered(runs@, chunk_ends@[chunk_ends@.len() - 1] as int),
    ensures
        r@.len() == chunk_ends@.len() - 1,
        forall|c: int| 0 <= c < r@.len() ==> (#[trigger] r@[c]).accounts_for(
            chunk_ends@[c] as int,
            chunk_ends@[c + 1] as int,
            chunk_ends@[chunk_ends@.len() - 1] as int,
            runs@,
        ),
{
    let nchunks = chunk_ends.len() - 1;
    let ghost total = chunk_ends@[nchunks as int] as int;
    let mut filters: Vec<ChunkFilter> = Vec::new();
    let mut c: usize = 0;
    while c < nchunks
        invariant
            c <= nchunks,
            nchunks == chunk_ends@.len() - 1,
            filters@.len() == c,
            forall|d: int| 0 <= d < c ==> (#[trigger] filters@[d]) is Skip,
        decreases nchunks - c,
    {
        filters.push(ChunkFilter::Skip);
        c += 1;
    }
    let mut t: usize = 0;
    proof {
        assert forall|d: int| 0 <= d < filters@.len() implies (#[trigger] filters@[d]).accounts_for(
            chunk_ends@[d] as int,
            chunk_ends@[d + 1] as int,
            0,
            runs@.subrange(0, 0),
        ) by {
            assert forall|j: int| 0 <= j < chunk_ends@[d + 1] - chunk_ends@[d] implies #[trigger] filters@[d].selects(j) == in_slices(runs@.subrange(0, 0), chunk_ends@[d] + j) by {}
        }
    }
    while t < runs.len()
        invariant
            nchunks == chunk_ends@.len() - 1,
            total == chunk_ends@[nchunks as int],
            total <= usize::MAX,
            ends_sorted(chunk_ends@),
            chunk_ends@[0] == 0,
            runs_ordered(runs@, total),
            t <= runs@.len(),
            filters@.len() == nchunks,
            forall|d: int| 0 <= d < nchunks ==> (#[trigger] filters@[d]).accounts_for(
                chunk_ends@[d] as int,
                chunk_ends@[d + 1] as int,
                if t == 0 { 0 } else { runs@[t - 1].1 as int },
                runs@.subrange(0, t as int),
            ),
        decreases runs@.len() - t,
    {
        let (slice_start, slice_end) = runs[t];
        let ghost run = runs@[t as int];
        let ghost bound = if t == 0 { 0 } else { runs@[t - 1].1 as int };
        let ghost prev = runs@.subrange(0, t as int);
        let ghost old_filters = filters@;
        proof {
            assert(runs@.subrange(0, t + 1) =~= prev.push(run));
            if t > 0 {
                assert(runs@[t - 1].1 <= runs@[t as int].0);
            }
        }
        let (start_chunk, start_idx) = find_chunk_idx(slice_start, chunk_ends);
        let (end_chunk, end_idx) = find_chunk_idx(slice_end - 1, chunk_ends);
        let end_idx = end_idx + 1;
        proof {
            if start_chunk > end_chunk {
                assert(chunk_ends@[end_chunk + 1] <= chunk_ends@[start_chunk as int]);
            }
        }
        if start_chunk == end_chunk {
            add_slice(&mut filters, start_chunk, (start_idx, end_idx));
            proof {
                assert forall|d: int| 0 <= d < nchunks implies (#[trigger] filters@[d]).accounts_for(
                    chunk_ends@[d] as int,
                    chunk_ends@[d + 1] as int,
                    run.1 as int,
                    prev.push(run),
                ) by {
                    if d == start_chunk {
                        lemma_added(old_filters[d], filters@[d], chunk_ends@[d] as int, chunk_ends@[d + 1] as int, bound, prev, run, (start_idx, end_idx));
                    } else {
                        assert(filters@[d] == old_filters[d]);
                        if d < start_chunk {
                            assert(chunk_ends@[d + 1] <= chunk_ends@[start_chunk as int]);
                        } else {
                            assert(chunk_ends@[start_chunk + 1] <= chunk_ends@[d]);
                        }
                        lemma_untouched(old_filters[d], chunk_ends@[d] as int, chunk_ends@[d + 1] as int, bound, prev, run);
                    }
                }
            }
        } else {
            let start_chunk_len = (chunk_ends[start_chunk + 1] - chunk_ends[start_chunk]) as usize;
            add_slice(&mut filters, start_chunk, (start_idx, start_chunk_len));
            let ghost mid_filters = filters@;
            add_slice(&mut filters, end_chunk, (0, end_idx));
            let ghost edge_filters = filters@;
            let mut m: usize = start_chunk + 1;
            while m < end_chunk
                invariant
                    start_chunk < m <= end_chunk < nchunks,
                    filters@.len() == nchunks,
                    forall|d: int| 0 <= d < nchunks && !(start_chunk < d < m) ==> #[trigger] filters@[d] == edge_filters[d],
                    forall|d: int| start_chunk < d < m ==> (#[trigger] filters@[d]) is All,
                decreases end_chunk - m,
            {
                filters.set(m, ChunkFilter::All);
                m += 1;
            }
            proof {
                assert forall|d: int| 0 <= d < nchunks implies (#[trigger] filters@[d]).accounts_for(
                    chunk_ends@[d] as int,
                    chunk_ends@[d + 1] as int,
                    run.1 as int,
                    prev.push(run),
                ) by {
                    if d == start_chunk {
                        assert(filters@[d] == mid_filters[d]);
                        assert(chunk_ends@[start_chunk + 1] <= chunk_ends@[end_chunk as int]);
                        lemma_added(old_filters[d], filters@[d], chunk_ends@[d] as int, chunk_ends@[d + 1] as int, bound, prev, run, (start_idx, start_chunk_len));
                    } else if d == end_chunk {
                        assert(mid_filters[d] == old_filters[d]);
                        assert(chunk_ends@[start_chunk + 1] <= chunk_ends@[end_chunk as int]);
                        lemma_added(old_filters[d], filters@[d], chunk_ends@[d] as int, chunk_ends@[d + 1] as int, bound, prev, run, (0, end_idx));
                    } else if start_chunk < d < end_chunk {
                        assert(chunk_ends@[start_chunk + 1] <= chunk_ends@[d]);
                        assert(chunk_ends@[d + 1] <= chunk_ends@[end_chunk as int]);
                        lemma_covered(chunk_ends@[d] as int, chunk_ends@[d + 1] as int, prev, run);
                    } else {
                        assert(filters@[d] == old_filters[d]);
                        if d < start_chunk {
                            assert(chunk_ends@[d + 1] <= chunk_ends@[start_chunk as int]);
                        } else {
                            assert(chunk_ends@[end_chunk + 1] <= chunk_ends@[d]);
                        }
                        lemma_untouched(old_filters[d], chunk_ends@[d] as int, chunk_ends@[d + 1] as int, bound, prev, run);
                    }
                }
            }
        }
        t += 1;
    }
    proof {
        assert(runs@.subrange(0, runs@.len() as int) =~= runs@);
        assert forall|d: int| 0 <= d < filters@.len() implies (#[trigger] filters@[d]).accounts_for(
            chunk_ends@[d] as int,
            chunk_ends@[d + 1] as int,
            total,
            runs@,
        ) by {
            let f = filters@[d];
            let b = if t == 0 { 0 } else { runs@[t - 1].1 as int };
            assert(f.accounts_for(chunk_ends@[d] as int, chunk_ends@[d + 1] as int, b, runs@));
            assert(b <= total);
            assert(chunk_ends@[d + 1] <= chunk_ends@[nchunks as int]);
        }
    }
    filters
}

/// What holds of the array that filtering leaves of chunk `c`: it holds the chunk's
/// selected elements; it is not empty unless the chunk is; and where every position of
/// the chunk, the one before it and the one after it are set, it is the chunk as it was.
pub open spec fn left_of_chunk(kept: ArrayData, array: ChunkedArray, c: int, bits: Seq<bool>) -> bool {
    let begin = array.chunk_ends@[c] as int;
    let end = array.chunk_ends@[c + 1] as int;
    let chunk = array.chunks@[c];
    &&& kept.elements() == filter_seq(chunk.elements(), bits.subrange(begin, end))
    &&& kept.elements().len() > 0 || chunk.elements().len() == 0
    &&& amid_set(bits, begin, end) ==> kept@ == chunk@ && kept.spec_encoding() == chunk.spec_encoding()
}

/// What holds of the arrays that filtering chunk by chunk leaves, where `from[k]` is the
/// chunk that array `k` is left of: the chunks are taken in their order, each at most
/// once, and a chunk that leaves no array has no selected position.
pub open spec fn left_of_chunks(
    from: Seq<int>,
    kept: Seq<ArrayData>,
    array: ChunkedArray,
    bits: Seq<bool>,
) -> bool {
    &&& from.len() == kept.len()
    &&& forall|k: int| 0 <= k < from.len() ==> 0 <= #[trigger] from[k] < array.chunks@.len()
    &&& forall|j: int, k: int| 0 <= j < k < from.len() ==> #[trigger] from[j] < #[trigger] from[k]
    &&& forall|k: int| 0 <= k < from.len() ==> left_of_chunk(#[trigger] kept[k], array, from[k], bits)
    &&& forall|c: int|
        0 <= c < array.chunks@.len() && !from.contains(c) ==> #[trigger] none_selected(array, c, bits)
}

/// Whether no position of chunk `c` is set.
pub open spec fn none_selected(array: ChunkedArray, c: int, bits: Seq<bool>) -> bool {
    forall|i: int| array.chunk_ends@[c] <= i < array.chunk_ends@[c + 1] ==> !#[trigger] bits[i]
}

/// Filters the chunks by ranges: the set positions are taken as runs, and each chunk keeps
/// the parts of the runs that fall into it. A chunk that lies strictly inside a run is
/// kept as it is; a chunk that no run meets leaves no array; any other leaves an array of
/// its selected elements. So there are at most as many arrays as chunks, and none is empty
/// but an empty chunk kept as it is.
#[verifier::rlimit(60)]
pub fn filter_slices(array: &ChunkedArray, mask: &FilterMask) -> (r: Vec<ArrayData>)
    requires
        array.wf(),
        mask.wf(),
        mask@.len() == array.elements().len(),
    ensures
        forall|j: int| 0 <= j < r@.len() ==> (#[trigger] r@[j]).wf(),
        forall|j: int| 0 <= j < r@.len() ==> (#[trigger] r@[j]).dtype_spec() == array.dtype@,
        concat_elements(r@, r@.len() as int) == filter_seq(array.elements(), mask@),
        r@.len() <= array.chunks@.len(),
        exists|from: Seq<int>| left_of_chunks(from, r@, *array, mask@),
    decreases array, 1int,
{
    let n = array.nchunks();
    let mut result: Vec<ArrayData> = Vec::new();
    let ghost mut from: Seq<int> = Seq::empty();
    let chunk_ends = array.chunk_offsets();
    let runs = mask.iter_slices();
    proof {
        array.lemma_ends_sorted();
        assert(chunk_ends@[n as int] == concat_elements(array.chunks@, n as int).len());
    }
    let filters = chunk_filters(chunk_ends, &runs);
    let ghost whole = array.elements();
    let mut c: usize = 0;
    proof {
        assert(mask@.subrange(0, 0) =~= Seq::<bool>::empty());
    }
    while c < n
        invariant
            array.wf(),
            n == array.chunks@.len(),
            *chunk_ends == array.chunk_ends,
            whole == concat_elements(array.chunks@, n as int),
            mask@.len() == whole.len(),
            filters@.len() == n,
            forall|d: int| 0 <= d < n ==> (#[trigger] filters@[d]).accounts_for(
                chunk_ends@[d] as int,
                chunk_ends@[d + 1] as int,
                chunk_ends@[n as int] as int,
                runs@,
            ),
            forall|i: int| 0 <= i < mask@.len() ==> mask@[i] == in_slices(runs@, i),
            runs_ordered(runs@, mask@.len() as int),
            runs_apart(runs@),
            c <= n,
            result@.len() <= c,
            from.len() == result@.len(),
            forall|k: int| 0 <= k < from.len() ==> 0 <= #[trigger] from[k] < c,
            forall|j: int, k: int| 0 <= j < k < from.len() ==> #[trigger] from[j] < #[trigger] from[k],
            forall|k: int| 0 <= k < from.len() ==> left_of_chunk(#[trigger] result@[k], *array, from[k], mask@),
            forall|d: int| 0 <= d < c && !from.contains(d) ==> #[trigger] none_selected(*array, d, mask@),
            forall|j: int| 0 <= j < result@.len() ==> (#[trigger] result@[j]).wf(),
            forall|j: int| 0 <= j < result@.len() ==> (#[trigger] result@[j]).dtype_spec() == array.dtype@,
            concat_elements(result@, result@.len() as int) == filter_seq(
                concat_elements(array.chunks@, c as int),
                mask@.subrange(0, chunk_ends@[c as int] as int),
            ),
        decreases n - c,
    {
        let ghost begin = chunk_ends@[c as int] as int;
        let ghost end = chunk_ends@[c + 1] as int;
        let ghost chunk_mask = mask@.subrange(begin, end);
        let ghost f = filters@[c as int];
        let ghost old_from = from;
        let ghost old_result = result@;
        proof {
            lemma_concat_chunk_range(array.chunks@, n as int, c as int);
            lemma_concat_len_monotone(array.chunks@, c as int, c + 1);
            assert(chunk_ends@[c as int] == concat_elements(array.chunks@, c as int).len());
            assert(chunk_ends@[c + 1] == concat_elements(array.chunks@, c + 1).len());
            assert(chunk_ends@[n as int] == whole.len());
            assert(array.chunks@[c as int].wf());
            assert(f.accounts_for(begin, end, chunk_ends@[n as int] as int, runs@));
            assert forall|j: int| 0 <= j < end - begin implies chunk_mask[j] == f.selects(j) by {
                assert(f.selects(j) == in_slices(runs@, begin + j));
            }
            lemma_filter_concat(
                concat_elements(array.chunks@, c as int),
                mask@.subrange(0, begin),
                array.chunks@[c as int].elements(),
                chunk_mask,
            );
            assert(mask@.subrange(0, begin) + chunk_mask =~= mask@.subrange(0, end));
            vstd::std_specs::vec::axiom_vec_index_decreases(array.chunks, c as int);
            assert(decreases_to!(*array => array.chunks));
            if amid_set(mask@, begin, end) {
                lemma_amid_run(runs@, mask@, begin, end);
            }
            assert(amid_set(mask@, begin, end) ==> f is All);
        }
        let chunk = &array.chunks[c];
        match &filters[c] {
            ChunkFilter::All => {
                let kept = chunk.clone();
                proof {
                    lemma_filter_all(chunk.elements(), chunk_mask);
                    lemma_concat_push(result@, kept);
                    from = from.push(c as int);
                    assert(left_of_chunk(kept, *array, c as int, mask@));
                }
                result.push(kept);
            },
            ChunkFilter::Skip => {
                proof {
                    lemma_filter_none(chunk.elements(), chunk_mask);
                    assert(concat_elements(result@, result@.len() as int) + Seq::<crate::scalar::Datum>::empty()
                        =~= concat_elements(result@, result@.len() as int));
                    assert forall|i: int| begin <= i < end implies !#[trigger] mask@[i] by {
                        assert(chunk_mask[i - begin] == f.selects(i - begin));
                    }
                }
            },
            ChunkFilter::Slices(slices) => {
                let chunk_len = chunk.len();
                let m = slices_to_mask(slices, chunk_len);
                proof {
                    assert(m@ =~= chunk_mask);
                }
                let filtered = filter(chunk, &m);
                match filtered {
                    Ok(kept) => {
                        proof {
                            lemma_concat_push(result@, kept);
                            from = from.push(c as int);
                            let first = slices@[0].0 as int;
                            assert(in_slices(slices@, first));
                            assert(chunk_mask[first] == f.selects(first));
                            lemma_count_positive(chunk_mask, first);
                            lemma_filter_len(chunk.elements(), chunk_mask);
                            assert(left_of_chunk(kept, *array, c as int, mask@));
                        }
                        result.push(kept);
                    },
                    Err(_) => {
                        assert(false);
                    },
                }
            },
        }
        proof {
            assert forall|k: int| 0 <= k < from.len() implies 0 <= #[trigger] from[k] < c + 1
                && left_of_chunk(result@[k], *array, from[k], mask@) by {
                if k < old_from.len() {
                    assert(from[k] == old_from[k]);
                    assert(result@[k] == old_result[k]);
                }
            }
            assert forall|j: int, k: int| 0 <= j < k < from.len() implies #[trigger] from[j] < #[trigger] from[k] by {
                assert(from[j] == old_from[j]);
                if k < old_from.len() {
                    assert(from[k] == old_from[k]);
                }
            }
            assert forall|d: int| 0 <= d < c + 1 && !from.contains(d) implies #[trigger] none_selected(
                *array,
                d,
                mask@,
            ) by {
                if d < c {
                    if old_from.contains(d) {
                        let k = choose|k: int| 0 <= k < old_from.len() && old_from[k] == d;
                        assert(from[k] == d);
                    }
                } else {
                    if from.len() > old_from.len() {
                        assert(from[old_from.len() as int] == c);
                    }
                }
            }
        }
        c += 1;
    }
    proof {
        assert(mask@.subrange(0, mask@.len() as int) =~= mask@);
        assert(left_of_chunks(from, result@, *array, mask@));
    }
    result
}

/// Filters the chunks by indices: the set positions are gathered chunk by chunk, the
/// positions within one chunk taken from that chunk. There are at most as many arrays as
/// chunks, and none is empty.
pub fn filter_indices(array: &ChunkedArray, mask: &FilterMask) -> (r: Vec<ArrayData>)
    requires
        array.wf(),
        mask.wf(),
        mask@.len() == array.elements().len(),
    ensures
        forall|j: int| 0 <= j < r@.len() ==> (#[trigger] r@[j]).wf(),
        forall|j: int| 0 <= j < r@.len() ==> (#[trigger] r@[j]).dtype_spec() == array.dtype@,
        concat_elements(r@, r@.len() as int) == filter_seq(array.elements(), mask@),
        r@.len() <= array.chunks@.len(),
        forall|j: int| 0 <= j < r@.len() ==> (#[trigger] r@[j]).elements().len() > 0,
    decreases array, 3int,
{
    let n = mask.len();
    let set = mask.iter_indices();
    proof {
        lemma_set_indices(mask@);
        lemma_filter_is_take(array.elements(), mask@);
        assert(crate::array::strictly_increasing(set@));
    }
    array.take_chunks(&set)
}

/// Whether more than four fifths of the positions are selected: the selectivity above
/// which a filter goes by ranges and not by indices.
pub open spec fn is_selective(selected: nat, len: nat) -> bool {
    5 * selected > 4 * len
}

impl ChunkedArray {
    /// The elements whose flag is set, as a chunked array. A highly selective mask, one
    /// that keeps more than four fifths of the positions, is applied by ranges, and the
    /// chunks of the result are then what [`filter_slices`] leaves of the chunks; any other
    /// mask is applied by indices, and no chunk of the result is then empty. Either way
    /// the result has at most as many chunks as the array. A mask of another length than
    /// the array is refused with `InvalidArgument`.
    pub fn filter(&self, mask: &FilterMask) -> (r: Result<ArrayData, VortexError>)
        requires
            self.wf(),
            mask.wf(),
        ensures
            mask@.len() == self.elements().len() ==> r is Ok && r->Ok_0.wf() && r->Ok_0 is Chunked
                && r->Ok_0.dtype_spec() == self.dtype@ && r->Ok_0.elements() == filter_seq(
                self.elements(),
                mask@,
            ),
            mask@.len() == self.elements().len() ==> r->Ok_0->Chunked_0.chunks@.len()
                <= self.chunks@.len(),
            mask@.len() == self.elements().len() && is_selective(count_true(mask@), mask@.len())
                ==> exists|from: Seq<int>|
                left_of_chunks(from, r->Ok_0->Chunked_0.chunks@, *self, mask@),
            mask@.len() == self.elements().len() && !is_selective(count_true(mask@), mask@.len())
                ==> forall|j: int|
                0 <= j < r->Ok_0->Chunked_0.chunks@.len() ==> (
                #[trigger] r->Ok_0->Chunked_0.chunks@[j]).elements().len() > 0,
            mask@.len() != self.elements().len() ==> r == Err::<ArrayData, VortexError>(
                VortexError::InvalidArgument,
            ),
        decreases self, 4int,
    {
        let n = self.nchunks();
        assert(self.chunk_ends@[n as int] == concat_elements(self.chunks@, n as int).len());
        let len = self.chunk_ends[n] as usize;
        if mask.len() != len {
            return Err(VortexError::InvalidArgument);
        }
        let selected = mask.true_count();
        let chunks = if uses_slices(selected, len) {
            filter_slices(self, mask)
        } else {
            filter_indices(self, mask)
        };
        proof {
            lemma_filter_len(self.elements(), mask@);
            lemma_count_bound(mask@);
        }
        Ok(ArrayData::Chunked(ChunkedArray::from_chunks(chunks, self.dtype.clone())))
    }
}

/// No more flags are set than there are.
pub proof fn lemma_count_bound(bits: Seq<bool>)
    ensures count_true(bits) <= bits.len(),
    decreases bits.len(),
{
    if bits.len() > 0 {
        lemma_count_bound(bits.drop_last());
    }
}

/// Whether a mask that selects `selected` of `len` positions is applied by ranges.
pub fn uses_slices(selected: usize, len: usize) -> (r: bool)
    ensures r == is_selective(selected as nat, len as nat),
{
    (selected as u128) * 5 > (len as u128) * 4
}

} // verus!
