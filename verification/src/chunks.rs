//! Block ranges and the chunks in which they are copied.

use vstd::prelude::*;
use vstd::arithmetic::div_mod::*;
use vstd::arithmetic::mul::*;

verus! {

/// The alignment that direct I/O asks of offsets and lengths.
pub const DIRECT_IO_ALIGN: u64 = 4096;

/// The chunk size of a full copy.
pub const FULL_COPY_CHUNK_SIZE: u64 = 2097152;

/// The chunk size that a block copy aims for.
pub const BLOCKS_COPY_TARGET_CHUNK: u64 = 262144;

/// The number of rings that a copy is spread over at most.
pub const RING_COUNT: usize = 4;

/// A range of blocks: `len` blocks from block `start` on.
#[derive(Debug, Clone, Copy, PartialEq, Eq, Structural)]
pub struct BlockRange {
    pub start: u64,
    pub len: u64,
}

/// A stretch of bytes that is copied in one piece.
#[derive(Debug, Clone, Copy, PartialEq, Eq, Structural)]
pub struct CopyChunk {
    pub offset: u64,
    pub len: u64,
}

// ---------------------------------------------------------------------------
// Ranges
// ---------------------------------------------------------------------------

/// Whether `block` lies in the range.
pub open spec fn range_has(r: BlockRange, block: int) -> bool {
    r.start <= block < r.start + r.len
}

/// Whether `block` lies in one of the ranges.
pub open spec fn blocks_cover(ranges: Seq<BlockRange>, block: int) -> bool {
    exists|i: int| 0 <= i < ranges.len() && range_has(#[trigger] ranges[i], block)
}

/// The number of blocks in all ranges together, overlaps counted as often as
/// they occur.
pub open spec fn block_count(ranges: Seq<BlockRange>) -> nat
    decreases ranges.len(),
{
    if ranges.len() == 0 {
        0
    } else {
        block_count(ranges.drop_last()) + ranges.last().len as nat
    }
}

/// Whether every range ends at a byte offset that a `u64` can hold.
pub open spec fn ends_fit(ranges: Seq<BlockRange>, granularity: int) -> bool {
    forall|i: int|
        0 <= i < ranges.len() ==> ((#[trigger] ranges[i]).start + ranges[i].len) * granularity
            <= u64::MAX
}

/// `s` with `r` put in behind the ranges that start no later.
pub open spec fn inserted(s: Seq<BlockRange>, r: BlockRange) -> Seq<BlockRange>
    decreases s.len(),
{
    if s.len() == 0 || s.last().start <= r.start {
        s.push(r)
    } else {
        inserted(s.drop_last(), r).push(s.last())
    }
}

/// The ranges ordered by their start, those with one start in the order given.
pub open spec fn sorted_by_start(s: Seq<BlockRange>) -> Seq<BlockRange>
    decreases s.len(),
{
    if s.len() == 0 {
        s
    } else {
        inserted(sorted_by_start(s.drop_last()), s.last())
    }
}

/// Two lists merged from their ends; of two ranges with one start, that of `b`
/// comes later.
spec fn merged_lists(a: Seq<BlockRange>, b: Seq<BlockRange>) -> Seq<BlockRange>
    decreases a.len() + b.len(),
{
    if a.len() == 0 {
        b
    } else if b.len() == 0 {
        a
    } else if a.last().start > b.last().start {
        merged_lists(a.drop_last(), b).push(a.last())
    } else {
        merged_lists(a, b.drop_last()).push(b.last())
    }
}

proof fn lemma_merge_insert(a: Seq<BlockRange>, b: Seq<BlockRange>, x: BlockRange)
    ensures
        merged_lists(a, inserted(b, x)) == inserted(merged_lists(a, b), x),
    decreases a.len() + b.len(),
{
    let m = merged_lists(a, b);
    let bx = inserted(b, x);
    if b.len() == 0 || b.last().start <= x.start {
        assert(bx == b.push(x));
        assert(bx.drop_last() =~= b);
        if a.len() > 0 {
            if a.last().start > x.start {
                lemma_merge_insert(a.drop_last(), b, x);
                assert(m.drop_last() =~= merged_lists(a.drop_last(), b));
            } else {
                assert(merged_lists(a, bx) == m.push(x));
            }
        }
    } else {
        assert(bx.last() == b.last());
        assert(bx.drop_last() =~= inserted(b.drop_last(), x));
        if a.len() > 0 {
            if a.last().start > b.last().start {
                lemma_merge_insert(a.drop_last(), b, x);
                assert(m.drop_last() =~= merged_lists(a.drop_last(), b));
            } else {
                lemma_merge_insert(a, b.drop_last(), x);
                assert(m.drop_last() =~= merged_lists(a, b.drop_last()));
            }
        }
    }
}

proof fn lemma_merge_sorts(a: Seq<BlockRange>, b: Seq<BlockRange>)
    ensures
        merged_lists(sorted_by_start(a), sorted_by_start(b)) == sorted_by_start(a + b),
    decreases b.len(),
{
    if b.len() == 0 {
        assert(a + b =~= a);
    } else {
        lemma_merge_sorts(a, b.drop_last());
        lemma_merge_insert(sorted_by_start(a), sorted_by_start(b.drop_last()), b.last());
        assert((a + b).drop_last() =~= a + b.drop_last());
    }
}

fn merge_lists(a: &Vec<BlockRange>, b: &Vec<BlockRange>) -> (out: Vec<BlockRange>)
    ensures
        out@ == merged_lists(a@, b@),
{
    let mut tail: Vec<BlockRange> = Vec::new();
    let mut i: usize = a.len();
    let mut j: usize = b.len();
    assert(a@.take(i as int) =~= a@ && b@.take(j as int) =~= b@);
    assert(merged_lists(a@, b@) + tail@.reverse() =~= merged_lists(a@, b@));
    while i > 0 && j > 0
        invariant
            i <= a@.len(),
            j <= b@.len(),
            merged_lists(a@.take(i as int), b@.take(j as int)) + tail@.reverse() == merged_lists(
                a@,
                b@,
            ),
        decreases i + j,
    {
        let ghost x = a@.take(i as int);
        let ghost y = b@.take(j as int);
        assert(x.drop_last() =~= a@.take(i - 1));
        assert(y.drop_last() =~= b@.take(j - 1));
        let ghost rest = tail@.reverse();
        let last;
        if a[i - 1].start > b[j - 1].start {
            last = a[i - 1];
            i = i - 1;
        } else {
            last = b[j - 1];
            j = j - 1;
        }
        tail.push(last);
        proof {
            assert(tail@.reverse() =~= seq![last] + rest);
            let m = merged_lists(a@.take(i as int), b@.take(j as int));
            assert(m.push(last) + rest =~= m + tail@.reverse());
        }
    }
    let mut out: Vec<BlockRange> = Vec::new();
    let ghost head = if i > 0 {
        a@.take(i as int)
    } else {
        b@.take(j as int)
    };
    assert(merged_lists(a@.take(i as int), b@.take(j as int)) =~= head);
    let mut k: usize = 0;
    while k < i
        invariant
            k <= i <= a@.len(),
            out@ == a@.take(k as int),
        decreases i - k,
    {
        out.push(a[k]);
        k = k + 1;
        assert(out@ =~= a@.take(k as int));
    }
    if i == 0 {
        k = 0;
        while k < j
            invariant
                k <= j <= b@.len(),
                out@ == b@.take(k as int),
            decreases j - k,
        {
            out.push(b[k]);
            k = k + 1;
            assert(out@ =~= b@.take(k as int));
        }
    }
    assert(out@ == head);
    k = tail.len();
    while k > 0
        invariant
            k <= tail@.len(),
            out@ == head + tail@.reverse().take(tail@.len() - k),
        decreases k,
    {
        k = k - 1;
        out.push(tail[k]);
        assert(out@ =~= head + tail@.reverse().take(tail@.len() - k));
    }
    assert(tail@.reverse().take(tail@.len() as int) =~= tail@.reverse());
    out
}

fn sort_part(v: &Vec<BlockRange>, from: usize, to: usize) -> (out: Vec<BlockRange>)
    requires
        from <= to <= v@.len(),
    ensures
        out@ == sorted_by_start(v@.subrange(from as int, to as int)),
    decreases to - from,
{
    let ghost part = v@.subrange(from as int, to as int);
    if to - from < 2 {
        let mut out: Vec<BlockRange> = Vec::new();
        if from < to {
            out.push(v[from]);
            assert(part.drop_last() =~= Seq::<BlockRange>::empty());
            assert(sorted_by_start(part.drop_last()) =~= Seq::<BlockRange>::empty());
        }
        assert(out@ =~= sorted_by_start(part));
        return out;
    }
    let mid: usize = from + (to - from) / 2;
    let a = sort_part(v, from, mid);
    let b = sort_part(v, mid, to);
    proof {
        lemma_merge_sorts(
            v@.subrange(from as int, mid as int),
            v@.subrange(mid as int, to as int),
        );
        assert(v@.subrange(from as int, mid as int) + v@.subrange(mid as int, to as int) =~= part);
    }
    merge_lists(&a, &b)
}

/// The ranges ordered by their start.
pub fn sort_by_start(v: &Vec<BlockRange>) -> (out: Vec<BlockRange>)
    ensures
        out@ == sorted_by_start(v@),
{
    assert(v@.subrange(0, v@.len() as int) =~= v@);
    sort_part(v, 0, v.len())
}

/// Ordering keeps every range, and only those.
pub proof fn lemma_sorted_members(s: Seq<BlockRange>, r: BlockRange)
    ensures
        sorted_by_start(s).contains(r) <==> s.contains(r),
    decreases s.len(),
{
    if s.len() > 0 {
        lemma_sorted_members(s.drop_last(), r);
        lemma_inserted_members(sorted_by_start(s.drop_last()), s.last(), r);
        assert(s =~= s.drop_last().push(s.last()));
        if s.contains(r) && r != s.last() {
            let i = choose|i: int| 0 <= i < s.len() && s[i] == r;
            assert(s.drop_last()[i] == r);
        }
        if s.drop_last().contains(r) {
            let i = choose|i: int| 0 <= i < s.drop_last().len() && s.drop_last()[i] == r;
            assert(s[i] == r);
        }
        assert(s[s.len() - 1] == s.last());
    }
}

proof fn lemma_inserted_members(s: Seq<BlockRange>, x: BlockRange, r: BlockRange)
    ensures
        inserted(s, x).contains(r) <==> s.contains(r) || r == x,
    decreases s.len(),
{
    if s.len() == 0 || s.last().start <= x.start {
        let t = s.push(x);
        assert(t[s.len() as int] == x);
        if s.contains(r) {
            let i = choose|i: int| 0 <= i < s.len() && s[i] == r;
            assert(t[i] == r);
        }
    } else {
        let d = s.drop_last();
        lemma_inserted_members(d, x, r);
        let t = inserted(d, x);
        let u = t.push(s.last());
        assert(u[t.len() as int] == s.last());
        if t.contains(r) {
            let i = choose|i: int| 0 <= i < t.len() && t[i] == r;
            assert(u[i] == r);
        }
        if s.contains(r) && r != s.last() {
            let i = choose|i: int| 0 <= i < s.len() && s[i] == r;
            assert(d[i] == r);
        }
        if d.contains(r) {
            let i = choose|i: int| 0 <= i < d.len() && d[i] == r;
            assert(s[i] == r);
        }
    }
}

/// Ordering keeps the number of blocks.
pub proof fn lemma_sorted_count(s: Seq<BlockRange>)
    ensures
        block_count(sorted_by_start(s)) == block_count(s),
    decreases s.len(),
{
    if s.len() > 0 {
        lemma_sorted_count(s.drop_last());
        lemma_inserted_count(sorted_by_start(s.drop_last()), s.last());
    }
}

proof fn lemma_inserted_count(s: Seq<BlockRange>, x: BlockRange)
    ensures
        block_count(inserted(s, x)) == block_count(s) + x.len,
    decreases s.len(),
{
    if s.len() == 0 || s.last().start <= x.start {
        assert(s.push(x).drop_last() =~= s);
    } else {
        lemma_inserted_count(s.drop_last(), x);
        assert(inserted(s, x).drop_last() =~= inserted(s.drop_last(), x));
    }
}

/// The result is ordered.
pub proof fn lemma_sorted_ascends(s: Seq<BlockRange>)
    ensures
        forall|i: int, j: int|
            0 <= i <= j < sorted_by_start(s).len() ==> sorted_by_start(s)[i].start
                <= sorted_by_start(s)[j].start,
    decreases s.len(),
{
    if s.len() > 0 {
        lemma_sorted_ascends(s.drop_last());
        lemma_inserted_ascends(sorted_by_start(s.drop_last()), s.last());
    }
}

proof fn lemma_inserted_ascends(s: Seq<BlockRange>, x: BlockRange)
    requires
        forall|i: int, j: int| 0 <= i <= j < s.len() ==> s[i].start <= s[j].start,
    ensures
        forall|i: int, j: int|
            0 <= i <= j < inserted(s, x).len() ==> inserted(s, x)[i].start <= inserted(
                s,
                x,
            )[j].start,
    decreases s.len(),
{
    if s.len() > 0 && s.last().start > x.start {
        let d = s.drop_last();
        lemma_inserted_ascends(d, x);
        let t = inserted(d, x);
        assert forall|i: int| 0 <= i < t.len() implies t[i].start <= s.last().start by {
            lemma_inserted_members(d, x, t[i]);
            assert(t.contains(t[i]));
            if d.contains(t[i]) {
                let k = choose|k: int| 0 <= k < d.len() && d[k] == t[i];
                assert(s[k] == t[i] && s[s.len() - 1] == s.last());
            }
        }
    }
}

// ---------------------------------------------------------------------------
// Merging
// ---------------------------------------------------------------------------

/// `s` with `r` added: joined to the last range where it starts at its end.
pub open spec fn extended(s: Seq<BlockRange>, r: BlockRange) -> Seq<BlockRange> {
    if s.len() > 0 && s.last().start + s.last().len == r.start {
        s.drop_last().push(
            BlockRange { start: s.last().start, len: (s.last().len + r.len) as u64 },
        )
    } else {
        s.push(r)
    }
}

/// The ranges with each one joined to its predecessor where it starts exactly
/// at that one's end.
pub open spec fn merged(s: Seq<BlockRange>) -> Seq<BlockRange>
    decreases s.len(),
{
    if s.len() == 0 {
        s
    } else {
        extended(merged(s.drop_last()), s.last())
    }
}

/// Merging keeps the covered blocks and their number, and keeps the ends in
/// bounds.
pub proof fn lemma_merged(s: Seq<BlockRange>, granularity: int)
    requires
        granularity > 0,
        ends_fit(s, granularity),
    ensures
        forall|b: int| blocks_cover(merged(s), b) <==> blocks_cover(s, b),
        block_count(merged(s)) == block_count(s),
        ends_fit(merged(s), granularity),
    decreases s.len(),
{
    if s.len() > 0 {
        let d = s.drop_last();
        let r = s.last();
        assert forall|i: int| 0 <= i < d.len() implies ((#[trigger] d[i]).start + d[i].len)
            * granularity <= u64::MAX by {
            assert(d[i] == s[i]);
        }
        lemma_merged(d, granularity);
        let m = merged(d);
        let e = extended(m, r);
        assert(s[s.len() - 1] == r);
        assert((r.start + r.len) * granularity <= u64::MAX);
        let joins = m.len() > 0 && m.last().start + m.last().len == r.start;
        if joins {
            let last = m.last();
            assert(last.start + last.len + r.len <= u64::MAX) by (nonlinear_arith)
                requires
                    (r.start + r.len) * granularity <= u64::MAX,
                    granularity > 0,
                    last.start + last.len == r.start,
            ;
            assert(e.drop_last() =~= m.drop_last());
            assert forall|i: int| 0 <= i < e.len() implies ((#[trigger] e[i]).start + e[i].len)
                * granularity <= u64::MAX by {
                if i < m.len() - 1 {
                    assert(e[i] == m[i]);
                } else {
                    assert(e[i].start + e[i].len == r.start + r.len);
                }
            }
        } else {
            assert(e.drop_last() =~= m);
            assert forall|i: int| 0 <= i < e.len() implies ((#[trigger] e[i]).start + e[i].len)
                * granularity <= u64::MAX by {
                if i < m.len() {
                    assert(e[i] == m[i]);
                }
            }
        }
        assert forall|b: int| blocks_cover(e, b) <==> blocks_cover(s, b) by {
            if blocks_cover(e, b) {
                let i = choose|i: int| 0 <= i < e.len() && range_has(#[trigger] e[i], b);
                if joins && i == m.len() - 1 {
                    if range_has(m.last(), b) {
                        assert(range_has(m[m.len() - 1], b));
                        assert(blocks_cover(m, b));
                    } else {
                        assert(range_has(s[s.len() - 1], b));
                    }
                } else if i < m.len() {
                    assert(range_has(m[i], b));
                    assert(blocks_cover(m, b));
                } else {
                    assert(range_has(s[s.len() - 1], b));
                }
                if blocks_cover(d, b) {
                    let k = choose|k: int| 0 <= k < d.len() && range_has(#[trigger] d[k], b);
                    assert(range_has(s[k], b));
                }
            }
            if blocks_cover(s, b) {
                let i = choose|i: int| 0 <= i < s.len() && range_has(#[trigger] s[i], b);
                if i < d.len() {
                    assert(range_has(d[i], b));
                    assert(blocks_cover(d, b));
                    assert(blocks_cover(m, b));
                    let k = choose|k: int| 0 <= k < m.len() && range_has(#[trigger] m[k], b);
                    assert(range_has(e[k], b));
                } else {
                    assert(range_has(e[e.len() - 1], b));
                }
            }
        }
    }
}

fn merge_ranges(s: &Vec<BlockRange>, granularity: u64) -> (out: Vec<BlockRange>)
    requires
        granularity > 0,
        ends_fit(s@, granularity as int),
    ensures
        out@ == merged(s@),
{
    let mut out: Vec<BlockRange> = Vec::new();
    let mut i: usize = 0;
    assert(s@.take(0) =~= Seq::<BlockRange>::empty());
    assert(out@ =~= merged(s@.take(0)));
    while i < s.len()
        invariant
            granularity > 0,
            ends_fit(s@, granularity as int),
            i <= s@.len(),
            out@ == merged(s@.take(i as int)),
        decreases s@.len() - i,
    {
        let r = s[i];
        let ghost taken = s@.take(i + 1);
        proof {
            assert(taken.drop_last() =~= s@.take(i as int));
            assert(ends_fit(s@.take(i as int), granularity as int));
            lemma_merged(s@.take(i as int), granularity as int);
            assert(s@[i as int] == r);
        }
        let n: usize = out.len();
        if n > 0 {
            let last = out[n - 1];
            proof {
                assert(out@[n - 1] == last);
                lemma_fits(last, granularity as int);
                lemma_fits(r, granularity as int);
            }
            if last.start + last.len == r.start {
                out.set(n - 1, BlockRange { start: last.start, len: last.len + r.len });
                assert(out@ =~= merged(taken));
                i = i + 1;
                continue ;
            }
        }
        out.push(r);
        i = i + 1;
    }
    assert(s@.take(s@.len() as int) =~= s@);
    out
}

proof fn lemma_fits(r: BlockRange, granularity: int)
    by (nonlinear_arith)
    requires
        granularity > 0,
        (r.start + r.len) * granularity <= u64::MAX,
    ensures
        r.start + r.len <= u64::MAX,
        r.start * granularity + r.len * granularity <= u64::MAX,
        0 <= r.start * granularity,
        0 <= r.len * granularity,
{
}

// ---------------------------------------------------------------------------
// Chunks
// ---------------------------------------------------------------------------

/// Whether the byte at `offset` lies in the chunk.
pub open spec fn chunk_has(c: CopyChunk, offset: int) -> bool {
    c.offset <= offset < c.offset + c.len
}

/// Whether the byte at `offset` lies in one of the chunks.
pub open spec fn chunks_cover(chunks: Seq<CopyChunk>, offset: int) -> bool {
    exists|i: int| 0 <= i < chunks.len() && chunk_has(#[trigger] chunks[i], offset)
}

/// The number of bytes in all chunks together.
pub open spec fn byte_count(chunks: Seq<CopyChunk>) -> nat
    decreases chunks.len(),
{
    if chunks.len() == 0 {
        0
    } else {
        byte_count(chunks.drop_last()) + chunks.last().len as nat
    }
}

/// Whether every chunk is non-empty, at most `max` bytes long, and ends at an
/// offset that a `u64` can hold.
pub open spec fn chunks_bounded(chunks: Seq<CopyChunk>, max: int) -> bool {
    forall|i: int|
        0 <= i < chunks.len() ==> {
            &&& 0 < (#[trigger] chunks[i]).len <= max
            &&& chunks[i].offset + chunks[i].len <= u64::MAX
        }
}

/// Whether every chunk is at most `max` bytes long.
pub open spec fn chunks_within(chunks: Seq<CopyChunk>, max: int) -> bool {
    forall|i: int| 0 <= i < chunks.len() ==> (#[trigger] chunks[i]).len <= max
}

/// The least number of pieces of `unit` bytes that hold `bytes` bytes.
pub open spec fn pieces_needed(bytes: nat, unit: nat) -> nat {
    ((bytes + unit - 1) / unit as int) as nat
}

/// Piece number `i` of `bytes` bytes from `base` on, cut every `unit` bytes.
pub open spec fn slice_at(base: nat, bytes: nat, unit: nat, i: int) -> CopyChunk {
    CopyChunk {
        offset: (base + i * unit) as u64,
        len: (if bytes - i * unit < unit {
            bytes - i * unit
        } else {
            unit as int
        }) as u64,
    }
}

/// `bytes` bytes from `base` on, cut every `unit` bytes.
pub open spec fn slices(base: nat, bytes: nat, unit: nat) -> Seq<CopyChunk> {
    Seq::new(pieces_needed(bytes, unit), |i: int| slice_at(base, bytes, unit, i))
}

proof fn lemma_pieces(bytes: nat, unit: nat, i: int)
    requires
        unit > 0,
        0 <= i,
    ensures
        i < pieces_needed(bytes, unit) <==> i * unit < bytes,
{
    let q = (bytes + unit - 1) / unit as int;
    lemma_fundamental_div_mod(bytes + unit - 1, unit as int);
    let rem = (bytes + unit - 1) % (unit as int);
    assert(0 <= rem < unit);
    assert(bytes + unit - 1 == unit * q + rem);
    assert(i < q <==> i * unit < bytes) by (nonlinear_arith)
        requires
            unit > 0,
            0 <= i,
            0 <= rem < unit,
            bytes + unit - 1 == unit * q + rem,
    ;
    assert(q >= 0) by (nonlinear_arith)
        requires
            unit > 0,
            0 <= rem < unit,
            bytes + unit - 1 == unit * q + rem,
            bytes >= 0,
    ;
}

/// What the pieces are: they are bounded, they cover exactly the bytes that
/// were cut up, and they hold that many bytes.
pub proof fn lemma_slices(base: nat, bytes: nat, unit: nat)
    requires
        unit > 0,
        base + bytes <= u64::MAX,
    ensures
        chunks_bounded(slices(base, bytes, unit), unit as int),
        forall|o: int|
            chunks_cover(slices(base, bytes, unit), o) <==> base <= o < base + bytes,
        byte_count(slices(base, bytes, unit)) == bytes,
{
    let s = slices(base, bytes, unit);
    assert forall|i: int| 0 <= i < s.len() implies {
        &&& 0 < (#[trigger] s[i]).len <= unit
        &&& s[i].offset + s[i].len <= base + bytes
        &&& s[i].offset == base + i * unit
        &&& s[i].len == (if bytes - i * unit < unit {
            bytes - i * unit
        } else {
            unit as int
        })
    } by {
        lemma_pieces(bytes, unit, i);
        assert(0 <= i * unit) by (nonlinear_arith)
            requires
                0 <= i,
                unit > 0,
        ;
    }
    assert forall|o: int| chunks_cover(s, o) <==> base <= o < base + bytes by {
        if base <= o < base + bytes {
            let i = (o - base) / unit as int;
            lemma_fundamental_div_mod(o - base, unit as int);
            let rem = (o - base) % (unit as int);
            assert(0 <= i && i * unit <= o - base < i * unit + unit) by (nonlinear_arith)
                requires
                    unit > 0,
                    o - base >= 0,
                    o - base == unit * i + rem,
                    0 <= rem < unit,
            ;
            lemma_pieces(bytes, unit, i);
            assert(chunk_has(s[i], o));
        }
        if chunks_cover(s, o) {
            let i = choose|i: int| 0 <= i < s.len() && chunk_has(#[trigger] s[i], o);
            assert(0 <= i * unit) by (nonlinear_arith)
                requires
                    0 <= i,
                    unit > 0,
            ;
        }
    }
    lemma_slices_count(base, bytes, unit, s.len());
    assert(s.take(s.len() as int) =~= s);
    lemma_pieces(bytes, unit, s.len() as int);
    if bytes > 0 {
        lemma_pieces(bytes, unit, 0);
        lemma_pieces(bytes, unit, s.len() - 1);
    } else {
        lemma_pieces(bytes, unit, 0);
    }
}

proof fn lemma_slices_count(base: nat, bytes: nat, unit: nat, n: nat)
    requires
        unit > 0,
        base + bytes <= u64::MAX,
        n <= slices(base, bytes, unit).len(),
    ensures
        byte_count(slices(base, bytes, unit).take(n as int)) == (if n * unit < bytes {
            n * unit
        } else {
            bytes
        }),
    decreases n,
{
    let s = slices(base, bytes, unit);
    if n > 0 {
        let m = (n - 1) as nat;
        lemma_slices_count(base, bytes, unit, m);
        assert(s.take(n as int).drop_last() =~= s.take(m as int));
        lemma_pieces(bytes, unit, m as int);
        assert(n * unit == m * unit + unit) by (nonlinear_arith)
            requires
                n == m + 1,
        ;
        assert(0 <= m * unit) by (nonlinear_arith);
        assert(s[m as int].len == (if bytes - m * unit < unit {
            bytes - m * unit
        } else {
            unit as int
        }));
    } else {
        assert(n * unit == 0) by (nonlinear_arith)
            requires
                n == 0,
        ;
    }
}

fn push_slices(out: &mut Vec<CopyChunk>, base: u64, bytes: u64, unit: u64)
    requires
        unit > 0,
        base + bytes <= u64::MAX,
    ensures
        final(out)@ == old(out)@ + slices(base as nat, bytes as nat, unit as nat),
{
    let ghost before = out@;
    let ghost all = slices(base as nat, bytes as nat, unit as nat);
    let ghost mut n: int = 0;
    let mut done: u64 = 0;
    assert(all.take(0) =~= Seq::<CopyChunk>::empty());
    assert(before + all.take(0) =~= before);
    while done < bytes
        invariant
            unit > 0,
            base + bytes <= u64::MAX,
            done <= bytes,
            0 <= n <= all.len(),
            all == slices(base as nat, bytes as nat, unit as nat),
            done == (if n * unit < bytes {
                n * unit
            } else {
                bytes as int
            }),
            out@ == before + all.take(n),
        decreases bytes - done,
    {
        let remaining: u64 = bytes - done;
        let len: u64 = if remaining < unit {
            remaining
        } else {
            unit
        };
        let chunk = CopyChunk { offset: base + done, len };
        proof {
            lemma_pieces(bytes as nat, unit as nat, n);
            assert(chunk == slice_at(base as nat, bytes as nat, unit as nat, n));
            assert(all.take(n + 1) =~= all.take(n).push(chunk));
            assert((n + 1) * unit == n * unit + unit) by (nonlinear_arith);
        }
        out.push(chunk);
        done = done + len;
        proof {
            n = n + 1;
        }
        assert(out@ =~= before + all.take(n));
    }
    proof {
        lemma_pieces(bytes as nat, unit as nat, n);
        assert(n * unit >= bytes);
        assert(n == all.len());
        assert(all.take(n) =~= all);
    }
}

/// `n` rounded up to a multiple of the alignment of direct I/O.
pub open spec fn aligned_up(n: nat) -> nat {
    ((n + 4095) / 4096) * 4096
}

/// Cuts a whole device into chunks of `chunk_size` bytes; the size is first
/// rounded up to the alignment of direct I/O.
pub fn sequential_chunks(size: u64, chunk_size: u64) -> (chunks: Vec<CopyChunk>)
    requires
        size <= u64::MAX - 4095,
        chunk_size > 0,
    ensures
        chunks@ == slices(0, aligned_up(size as nat), chunk_size as nat),
{
    let aligned: u64 = (size + 4095) / 4096 * 4096;
    let mut chunks: Vec<CopyChunk> = Vec::new();
    push_slices(&mut chunks, 0, aligned, chunk_size);
    assert(chunks@ =~= slices(0, aligned_up(size as nat), chunk_size as nat));
    chunks
}

/// The number of bytes after which a range is cut: as many whole blocks as fit
/// in the target, or one block where that is larger than the target.
pub open spec fn chunk_unit(granularity: nat) -> nat {
    if granularity <= BLOCKS_COPY_TARGET_CHUNK {
        (BLOCKS_COPY_TARGET_CHUNK as nat / granularity) * granularity
    } else {
        granularity
    }
}

/// The unit is a whole number of blocks, at least one, and no more than the
/// larger of the target and one block.
pub proof fn lemma_chunk_unit(granularity: nat)
    requires
        granularity > 0,
    ensures
        granularity <= chunk_unit(granularity),
        chunk_unit(granularity) % granularity == 0,
        granularity <= BLOCKS_COPY_TARGET_CHUNK ==> chunk_unit(granularity)
            <= BLOCKS_COPY_TARGET_CHUNK,
        granularity > BLOCKS_COPY_TARGET_CHUNK ==> chunk_unit(granularity) == granularity,
{
    if granularity <= BLOCKS_COPY_TARGET_CHUNK {
        let t = BLOCKS_COPY_TARGET_CHUNK as int;
        let q = t / granularity as int;
        lemma_fundamental_div_mod(t, granularity as int);
        let rem = t % granularity as int;
        assert(q >= 1 && q * granularity <= t && granularity <= q * granularity)
            by (nonlinear_arith)
            requires
                granularity > 0,
                granularity <= t,
                t == granularity * q + rem,
                0 <= rem < granularity,
        ;
        lemma_mod_multiples_basic(q, granularity as int);
    } else {
        lemma_mod_self_0(granularity as int);
    }
}

/// The chunks of one range.
pub open spec fn range_chunks(r: BlockRange, granularity: nat) -> Seq<CopyChunk> {
    slices(r.start as nat * granularity, r.len as nat * granularity, chunk_unit(granularity))
}

/// The chunks of a list of ranges, in order.
pub open spec fn list_chunks(s: Seq<BlockRange>, granularity: nat) -> Seq<CopyChunk>
    decreases s.len(),
{
    if s.len() == 0 {
        Seq::empty()
    } else {
        list_chunks(s.drop_last(), granularity) + range_chunks(s.last(), granularity)
    }
}

/// The chunks in which a list of changed ranges is copied: the ranges ordered,
/// joined where one starts at the end of another, and cut into whole blocks.
pub open spec fn prepared(blocks: Seq<BlockRange>, granularity: nat) -> Seq<CopyChunk> {
    list_chunks(merged(sorted_by_start(blocks)), granularity)
}

proof fn lemma_sorted_fits(s: Seq<BlockRange>, granularity: int)
    requires
        ends_fit(s, granularity),
    ensures
        ends_fit(sorted_by_start(s), granularity),
        forall|b: int| blocks_cover(sorted_by_start(s), b) <==> blocks_cover(s, b),
{
    let t = sorted_by_start(s);
    assert forall|i: int| 0 <= i < t.len() implies ((#[trigger] t[i]).start + t[i].len)
        * granularity <= u64::MAX by {
        lemma_sorted_members(s, t[i]);
        assert(t.contains(t[i]));
        let k = choose|k: int| 0 <= k < s.len() && s[k] == t[i];
        assert((s[k].start + s[k].len) * granularity <= u64::MAX);
    }
    assert forall|b: int| blocks_cover(t, b) <==> blocks_cover(s, b) by {
        if blocks_cover(t, b) {
            let i = choose|i: int| 0 <= i < t.len() && range_has(#[trigger] t[i], b);
            lemma_sorted_members(s, t[i]);
            assert(t.contains(t[i]));
            let k = choose|k: int| 0 <= k < s.len() && s[k] == t[i];
            assert(range_has(s[k], b));
        }
        if blocks_cover(s, b) {
            let i = choose|i: int| 0 <= i < s.len() && range_has(#[trigger] s[i], b);
            lemma_sorted_members(s, s[i]);
            assert(s.contains(s[i]));
            let k = choose|k: int| 0 <= k < t.len() && t[k] == s[i];
            assert(range_has(t[k], b));
        }
    }
}

/// Prepares the chunks in which changed ranges are copied.
pub fn prepare_chunks(blocks: &Vec<BlockRange>, granularity: u64) -> (chunks: Vec<CopyChunk>)
    requires
        granularity > 0,
        ends_fit(blocks@, granularity as int),
    ensures
        chunks@ == prepared(blocks@, granularity as nat),
{
    let sorted = sort_by_start(blocks);
    proof {
        lemma_sorted_fits(blocks@, granularity as int);
        lemma_merged(sorted@, granularity as int);
        lemma_chunk_unit(granularity as nat);
    }
    let joined = merge_ranges(&sorted, granularity);
    let unit: u64 = if granularity <= BLOCKS_COPY_TARGET_CHUNK {
        assert((BLOCKS_COPY_TARGET_CHUNK as nat / granularity as nat) * (granularity as nat)
            <= BLOCKS_COPY_TARGET_CHUNK);
        BLOCKS_COPY_TARGET_CHUNK / granularity * granularity
    } else {
        granularity
    };
    let mut chunks: Vec<CopyChunk> = Vec::new();
    let mut i: usize = 0;
    assert(joined@.take(0) =~= Seq::<BlockRange>::empty());
    assert(chunks@ =~= list_chunks(joined@.take(0), granularity as nat));
    while i < joined.len()
        invariant
            granularity > 0,
            unit > 0,
            unit == chunk_unit(granularity as nat),
            ends_fit(joined@, granularity as int),
            i <= joined@.len(),
            chunks@ == list_chunks(joined@.take(i as int), granularity as nat),
        decreases joined@.len() - i,
    {
        let r = joined[i];
        proof {
            assert(joined@[i as int] == r);
            lemma_fits(r, granularity as int);
            assert(joined@.take(i + 1).drop_last() =~= joined@.take(i as int));
        }
        push_slices(&mut chunks, r.start * granularity, r.len * granularity, unit);
        i = i + 1;
    }
    assert(joined@.take(joined@.len() as int) =~= joined@);
    chunks
}

/// Byte `offset` lies in the blocks of `r` exactly where its block does.
proof fn lemma_byte_block(r: BlockRange, granularity: int, offset: int)
    requires
        granularity > 0,
        offset >= 0,
    ensures
        range_has(r, offset / granularity) <==> r.start * granularity <= offset < r.start
            * granularity + r.len * granularity,
{
    let q = offset / granularity;
    let rem = offset % granularity;
    lemma_fundamental_div_mod(offset, granularity);
    let a = r.start as int;
    let b = r.start + r.len;
    assert(b * granularity == r.start * granularity + r.len * granularity) by (nonlinear_arith)
        requires
            b == r.start + r.len,
    ;
    assert((a <= q <==> a * granularity <= offset) && (q < b <==> offset < b * granularity))
        by (nonlinear_arith)
        requires
            granularity > 0,
            offset == granularity * q + rem,
            0 <= rem < granularity,
    ;
}

proof fn lemma_cover_concat(a: Seq<CopyChunk>, b: Seq<CopyChunk>, o: int)
    ensures
        chunks_cover(a + b, o) <==> chunks_cover(a, o) || chunks_cover(b, o),
{
    let s = a + b;
    if chunks_cover(s, o) {
        let i = choose|i: int| 0 <= i < s.len() && chunk_has(#[trigger] s[i], o);
        if i < a.len() {
            assert(chunk_has(a[i], o));
        } else {
            assert(chunk_has(b[i - a.len()], o));
        }
    }
    if chunks_cover(a, o) {
        let i = choose|i: int| 0 <= i < a.len() && chunk_has(#[trigger] a[i], o);
        assert(chunk_has(s[i], o));
    }
    if chunks_cover(b, o) {
        let i = choose|i: int| 0 <= i < b.len() && chunk_has(#[trigger] b[i], o);
        assert(chunk_has(s[a.len() + i], o));
    }
}

/// The bytes of two lists of chunks add up.
pub proof fn lemma_count_concat(a: Seq<CopyChunk>, b: Seq<CopyChunk>)
    ensures
        byte_count(a + b) == byte_count(a) + byte_count(b),
    decreases b.len(),
{
    if b.len() == 0 {
        assert(a + b =~= a);
    } else {
        lemma_count_concat(a, b.drop_last());
        assert((a + b).drop_last() =~= a + b.drop_last());
    }
}

proof fn lemma_list_chunks(s: Seq<BlockRange>, granularity: nat)
    requires
        granularity > 0,
        ends_fit(s, granularity as int),
    ensures
        chunks_bounded(list_chunks(s, granularity), chunk_unit(granularity) as int),
        forall|o: int|
            o >= 0 ==> (chunks_cover(list_chunks(s, granularity), o) <==> blocks_cover(
                s,
                o / granularity as int,
            )),
        byte_count(list_chunks(s, granularity)) == block_count(s) * granularity,
    decreases s.len(),
{
    let g = granularity as int;
    if s.len() == 0 {
        assert(block_count(s) * granularity == 0) by (nonlinear_arith)
            requires
                block_count(s) == 0,
        ;
    } else {
        let d = s.drop_last();
        let r = s.last();
        assert forall|i: int| 0 <= i < d.len() implies ((#[trigger] d[i]).start + d[i].len) * g
            <= u64::MAX by {
            assert(d[i] == s[i]);
        }
        assert(s[s.len() - 1] == r);
        lemma_list_chunks(d, granularity);
        lemma_fits(r, g);
        lemma_chunk_unit(granularity);
        let a = list_chunks(d, granularity);
        let b = range_chunks(r, granularity);
        lemma_slices(r.start as nat * granularity, r.len as nat * granularity, chunk_unit(granularity));
        let whole = list_chunks(s, granularity);
        assert(whole == a + b);
        assert forall|i: int| 0 <= i < whole.len() implies {
            &&& 0 < (#[trigger] whole[i]).len <= chunk_unit(granularity)
            &&& whole[i].offset + whole[i].len <= u64::MAX
        } by {
            if i < a.len() {
                assert(whole[i] == a[i]);
            } else {
                assert(whole[i] == b[i - a.len()]);
            }
        }
        lemma_count_concat(a, b);
        assert(block_count(s) * granularity == block_count(d) * granularity + r.len as nat
            * granularity) by (nonlinear_arith)
            requires
                block_count(s) == block_count(d) + r.len as nat,
        ;
        assert forall|o: int| o >= 0 implies (chunks_cover(whole, o) <==> blocks_cover(s, o / g)) by {
            lemma_cover_concat(a, b, o);
            lemma_byte_block(r, g, o);
            let blk = o / g;
            if blocks_cover(s, blk) {
                let i = choose|i: int| 0 <= i < s.len() && range_has(#[trigger] s[i], blk);
                if i < d.len() {
                    assert(range_has(d[i], blk));
                }
            }
            if blocks_cover(d, blk) {
                let i = choose|i: int| 0 <= i < d.len() && range_has(#[trigger] d[i], blk);
                assert(range_has(s[i], blk));
            }
            if range_has(r, blk) {
                assert(range_has(s[s.len() - 1], blk));
            }
        }
    }
}

/// The prepared chunks are exactly the changed blocks: a byte lies in a chunk
/// if and only if its block lies in a range. No chunk is empty or longer than
/// the unit in which ranges are cut, and together they hold as many bytes as
/// the ranges do.
pub proof fn law_prepared_chunks_are_the_blocks(blocks: Seq<BlockRange>, granularity: nat)
    requires
        granularity > 0,
        ends_fit(blocks, granularity as int),
    ensures
        forall|o: int|
            o >= 0 ==> (chunks_cover(prepared(blocks, granularity), o) <==> blocks_cover(
                blocks,
                o / granularity as int,
            )),
        chunks_bounded(prepared(blocks, granularity), chunk_unit(granularity) as int),
        byte_count(prepared(blocks, granularity)) == block_count(blocks) * granularity,
{
    lemma_sorted_fits(blocks, granularity as int);
    lemma_sorted_count(blocks);
    lemma_merged(sorted_by_start(blocks), granularity as int);
    lemma_list_chunks(merged(sorted_by_start(blocks)), granularity);
}

/// Whether no block lies in both ranges.
pub open spec fn apart(a: BlockRange, b: BlockRange) -> bool {
    forall|block: int| !(#[trigger] range_has(a, block) && range_has(b, block))
}

/// Whether no block lies in two of the ranges.
pub open spec fn disjoint(ranges: Seq<BlockRange>) -> bool {
    forall|i: int, j: int|
        0 <= i < j < ranges.len() ==> #[trigger] apart(ranges[i], ranges[j])
}

/// Whether `a` ends where `b` begins or before, if neither is empty.
spec fn before(a: BlockRange, b: BlockRange) -> bool {
    a.len == 0 || b.len == 0 || a.start + a.len <= b.start
}

spec fn ranges_ascend(ranges: Seq<BlockRange>) -> bool {
    forall|i: int, j: int| 0 <= i < j < ranges.len() ==> #[trigger] before(ranges[i], ranges[j])
}

/// Whether each chunk ends where the next begins or before.
pub open spec fn chunks_ascend(chunks: Seq<CopyChunk>) -> bool {
    forall|i: int, j: int|
        0 <= i < j < chunks.len() ==> (#[trigger] chunks[i]).offset + chunks[i].len <= (
        #[trigger] chunks[j]).offset
}

proof fn lemma_apart_before(a: BlockRange, b: BlockRange)
    requires
        apart(a, b),
        a.start <= b.start,
    ensures
        before(a, b),
{
    if a.len > 0 && b.len > 0 && a.start + a.len > b.start {
        assert(range_has(a, b.start as int));
        assert(range_has(b, b.start as int));
    }
}

proof fn lemma_apart_swap(a: BlockRange, b: BlockRange)
    requires
        apart(a, b),
    ensures
        apart(b, a),
{
    assert forall|block: int| !(#[trigger] range_has(b, block) && range_has(a, block)) by {
        assert(!(range_has(a, block) && range_has(b, block)));
    }
}

proof fn lemma_inserted_disjoint(s: Seq<BlockRange>, x: BlockRange)
    requires
        disjoint(s),
        forall|i: int| 0 <= i < s.len() ==> apart(#[trigger] s[i], x),
    ensures
        disjoint(inserted(s, x)),
    decreases s.len(),
{
    let t = inserted(s, x);
    if s.len() > 0 && s.last().start > x.start {
        let d = s.drop_last();
        assert forall|i: int, j: int| 0 <= i < j < d.len() implies #[trigger] apart(d[i], d[j]) by {
            assert(apart(s[i], s[j]));
        }
        assert forall|i: int| 0 <= i < d.len() implies apart(#[trigger] d[i], x) by {
            assert(apart(s[i], x));
        }
        lemma_inserted_disjoint(d, x);
        let u = inserted(d, x);
        assert forall|i: int, j: int| 0 <= i < j < t.len() implies #[trigger] apart(t[i], t[j]) by {
            if j < u.len() {
                assert(apart(u[i], u[j]));
            } else {
                assert(t[i] == u[i]);
                assert(u.contains(u[i]));
                lemma_inserted_members(d, x, u[i]);
                if u[i] == x {
                    assert(apart(s[s.len() - 1], x));
                    lemma_apart_swap(s.last(), x);
                } else {
                    let k = choose|k: int| 0 <= k < d.len() && d[k] == u[i];
                    assert(apart(s[k], s[s.len() - 1]));
                }
            }
        }
    } else {
        assert forall|i: int, j: int| 0 <= i < j < t.len() implies #[trigger] apart(t[i], t[j]) by {
            if j < s.len() {
                assert(apart(s[i], s[j]));
            } else {
                assert(apart(s[i], x));
            }
        }
    }
}

proof fn lemma_sorted_disjoint(s: Seq<BlockRange>)
    requires
        disjoint(s),
    ensures
        disjoint(sorted_by_start(s)),
        ranges_ascend(sorted_by_start(s)),
    decreases s.len(),
{
    let t = sorted_by_start(s);
    if s.len() > 0 {
        let d = s.drop_last();
        let u = sorted_by_start(d);
        assert forall|i: int, j: int| 0 <= i < j < d.len() implies #[trigger] apart(d[i], d[j]) by {
            assert(apart(s[i], s[j]));
        }
        lemma_sorted_disjoint(d);
        assert forall|i: int| 0 <= i < u.len() implies apart(#[trigger] u[i], s.last()) by {
            assert(u.contains(u[i]));
            lemma_sorted_members(d, u[i]);
            let k = choose|k: int| 0 <= k < d.len() && d[k] == u[i];
            assert(apart(s[k], s[s.len() - 1]));
        }
        lemma_inserted_disjoint(u, s.last());
    }
    lemma_sorted_ascends(s);
    assert forall|i: int, j: int| 0 <= i < j < t.len() implies #[trigger] before(t[i], t[j]) by {
        assert(apart(t[i], t[j]));
        lemma_apart_before(t[i], t[j]);
    }
}

spec fn end_by(r: BlockRange, bound: int) -> bool {
    r.len == 0 || r.start + r.len <= bound
}

proof fn lemma_merged_ascend(s: Seq<BlockRange>, granularity: int, bound: int)
    requires
        granularity > 0,
        ends_fit(s, granularity),
        ranges_ascend(s),
        forall|i: int| 0 <= i < s.len() ==> end_by(#[trigger] s[i], bound),
    ensures
        ranges_ascend(merged(s)),
        forall|i: int| 0 <= i < merged(s).len() ==> end_by(#[trigger] merged(s)[i], bound),
    decreases s.len(),
{
    if s.len() > 0 {
        let d = s.drop_last();
        let r = s.last();
        let m = merged(d);
        let t = merged(s);
        let n = s.len() - 1;
        assert(s[n] == r);
        lemma_fits(r, granularity);
        assert forall|i: int| 0 <= i < d.len() implies ((#[trigger] d[i]).start + d[i].len)
            * granularity <= u64::MAX by {
            assert(d[i] == s[i]);
        }
        assert forall|i: int, j: int| 0 <= i < j < d.len() implies #[trigger] before(d[i], d[j]) by {
            assert(before(s[i], s[j]));
        }
        assert forall|i: int| 0 <= i < d.len() implies end_by(#[trigger] d[i], bound) by {
            assert(end_by(s[i], bound));
        }
        lemma_merged_ascend(d, granularity, bound);
        if r.len > 0 {
            assert forall|i: int| 0 <= i < d.len() implies end_by(#[trigger] d[i], r.start as int) by {
                assert(before(s[i], s[n]));
            }
            lemma_merged_ascend(d, granularity, r.start as int);
        }
        assert forall|i: int, j: int| 0 <= i < j < t.len() implies #[trigger] before(t[i], t[j]) by {
            if j < m.len() {
                assert(before(m[i], m[j]));
            }
            if i < m.len() && r.len > 0 {
                assert(end_by(m[i], r.start as int));
            }
        }
        assert forall|i: int| 0 <= i < t.len() implies end_by(#[trigger] t[i], bound) by {
            if i < m.len() {
                assert(end_by(m[i], bound));
            }
            assert(end_by(s[n], bound));
        }
    }
}

proof fn lemma_slices_ascend(base: nat, bytes: nat, unit: nat)
    requires
        unit > 0,
        base + bytes <= u64::MAX,
    ensures
        chunks_ascend(slices(base, bytes, unit)),
        forall|i: int|
            0 <= i < slices(base, bytes, unit).len() ==> {
                let c = #[trigger] slices(base, bytes, unit)[i];
                base <= c.offset && c.offset + c.len <= base + bytes
            },
{
    let s = slices(base, bytes, unit);
    assert forall|i: int| 0 <= i < s.len() implies {
        &&& base <= (#[trigger] s[i]).offset
        &&& s[i].offset == base + i * unit
        &&& s[i].offset + s[i].len <= base + bytes
        &&& s[i].len <= unit
    } by {
        lemma_pieces(bytes, unit, i);
        assert(0 <= i * unit) by (nonlinear_arith)
            requires
                0 <= i,
                unit > 0,
        ;
    }
    assert forall|i: int, j: int| 0 <= i < j < s.len() implies (#[trigger] s[i]).offset + s[i].len
        <= (#[trigger] s[j]).offset by {
        assert(i * unit + unit <= j * unit) by (nonlinear_arith)
            requires
                i < j,
                unit > 0,
        ;
    }
}

proof fn lemma_list_ascends(s: Seq<BlockRange>, granularity: nat, bound: int)
    requires
        granularity > 0,
        ends_fit(s, granularity as int),
        ranges_ascend(s),
        forall|i: int| 0 <= i < s.len() ==> end_by(#[trigger] s[i], bound),
    ensures
        chunks_ascend(list_chunks(s, granularity)),
        forall|i: int|
            0 <= i < list_chunks(s, granularity).len() ==> {
                let c = #[trigger] list_chunks(s, granularity)[i];
                c.offset + c.len <= bound * granularity
            },
    decreases s.len(),
{
    if s.len() > 0 {
        let g = granularity as int;
        let d = s.drop_last();
        let r = s.last();
        let n = s.len() - 1;
        assert(s[n] == r);
        lemma_fits(r, g);
        lemma_chunk_unit(granularity);
        assert forall|i: int| 0 <= i < d.len() implies ((#[trigger] d[i]).start + d[i].len) * g
            <= u64::MAX by {
            assert(d[i] == s[i]);
        }
        assert forall|i: int, j: int| 0 <= i < j < d.len() implies #[trigger] before(d[i], d[j]) by {
            assert(before(s[i], s[j]));
        }
        assert forall|i: int| 0 <= i < d.len() implies end_by(#[trigger] d[i], bound) by {
            assert(end_by(s[i], bound));
        }
        lemma_list_ascends(d, granularity, bound);
        let base = r.start as nat * granularity;
        let bytes = r.len as nat * granularity;
        let unit = chunk_unit(granularity);
        lemma_slices_ascend(base, bytes, unit);
        let a = list_chunks(d, granularity);
        let b = range_chunks(r, granularity);
        let whole = list_chunks(s, granularity);
        assert(whole == a + b);
        if r.len > 0 {
            assert forall|i: int| 0 <= i < d.len() implies end_by(#[trigger] d[i], r.start as int) by {
                assert(before(s[i], s[n]));
            }
            lemma_list_ascends(d, granularity, r.start as int);
            assert(end_by(s[n], bound));
            assert(base + bytes <= bound * granularity) by (nonlinear_arith)
                requires
                    base == r.start as nat * granularity,
                    bytes == r.len as nat * granularity,
                    r.start + r.len <= bound,
                    granularity > 0,
            ;
        } else {
            assert(bytes == 0) by (nonlinear_arith)
                requires
                    bytes == r.len as nat * granularity,
                    r.len == 0,
            ;
            lemma_pieces(bytes, unit, 0);
            assert(b.len() == 0);
        }
        assert forall|i: int| 0 <= i < whole.len() implies (#[trigger] whole[i]).offset
            + whole[i].len <= bound * granularity by {
            if i < a.len() {
                assert(whole[i] == a[i]);
            } else {
                assert(whole[i] == b[i - a.len()]);
            }
        }
        assert forall|i: int, j: int| 0 <= i < j < whole.len() implies (
        #[trigger] whole[i]).offset + whole[i].len <= (#[trigger] whole[j]).offset by {
            if j < a.len() {
                assert(whole[i] == a[i] && whole[j] == a[j]);
            } else if i >= a.len() {
                assert(whole[i] == b[i - a.len()] && whole[j] == b[j - a.len()]);
            } else {
                assert(whole[i] == a[i] && whole[j] == b[j - a.len()]);
            }
        }
    }
}

/// Where no block lies in two of the ranges, the prepared chunks lie in ascending order
/// and none of them overlaps another.
pub proof fn law_prepared_chunks_ascend(blocks: Seq<BlockRange>, granularity: nat)
    requires
        granularity > 0,
        ends_fit(blocks, granularity as int),
        disjoint(blocks),
    ensures
        chunks_ascend(prepared(blocks, granularity)),
{
    let g = granularity as int;
    let sorted = sorted_by_start(blocks);
    lemma_sorted_fits(blocks, g);
    lemma_sorted_disjoint(blocks);
    lemma_merged(sorted, g);
    let bound = 2 * u64::MAX as int;
    lemma_merged_ascend(sorted, g, bound);
    lemma_list_ascends(merged(sorted), granularity, bound);
}

/// The chunks of a full copy cover exactly the bytes of the device, rounded up
/// to the alignment of direct I/O, each of them once, in ascending order.
pub proof fn law_sequential_chunks_cover_the_device(size: nat, chunk_size: nat)
    requires
        size <= u64::MAX - 4095,
        chunk_size > 0,
    ensures
        forall|o: int|
            chunks_cover(slices(0, aligned_up(size), chunk_size), o) <==> 0 <= o < aligned_up(size),
        byte_count(slices(0, aligned_up(size), chunk_size)) == aligned_up(size),
        chunks_bounded(slices(0, aligned_up(size), chunk_size), chunk_size as int),
        chunks_ascend(slices(0, aligned_up(size), chunk_size)),
{
    lemma_slices_ascend(0, aligned_up(size), chunk_size);
    lemma_slices(0, aligned_up(size), chunk_size);
}

/// Rounding up goes to the next multiple of 4096 and no further.
pub proof fn law_rounding_up_goes_to_the_next_page(n: nat)
    ensures
        n <= aligned_up(n) < n + 4096,
        aligned_up(n) % 4096 == 0,
{
}

/// A block copy is cut into as many whole blocks as fit in 256 KiB, and into single blocks
/// where none fits.
pub proof fn law_chunks_are_whole_blocks(granularity: nat)
    requires
        granularity > 0,
    ensures
        chunk_unit(granularity) % granularity == 0,
        granularity <= 262144 ==> chunk_unit(granularity) <= 262144 < chunk_unit(granularity)
            + granularity,
        granularity > 262144 ==> chunk_unit(granularity) == granularity,
{
    lemma_chunk_unit(granularity);
    if granularity <= 262144 {
        let q = 262144nat / granularity;
        lemma_fundamental_div_mod(262144, granularity as int);
        lemma_mul_is_commutative(granularity as int, q as int);
    }
}

/// The number of blocks is the sum of the lengths of the ranges.
pub proof fn law_blocks_are_counted_range_by_range(ranges: Seq<BlockRange>, more: BlockRange)
    ensures
        block_count(Seq::empty()) == 0,
        block_count(ranges + seq![more]) == block_count(ranges) + more.len,
{
    assert((ranges + seq![more]).drop_last() =~= ranges);
}

/// A stretch is cut from its beginning on into pieces of one length, of which only the last
/// may be shorter.
pub proof fn law_pieces_follow_one_another(base: nat, bytes: nat, unit: nat, i: int)
    requires
        unit > 0,
        base + bytes <= u64::MAX,
        0 <= i < slices(base, bytes, unit).len(),
    ensures
        slices(base, bytes, unit)[i].offset == base + i * unit,
        i + 1 < slices(base, bytes, unit).len() ==> slices(base, bytes, unit)[i].len == unit,
        i + 1 == slices(base, bytes, unit).len() ==> i * unit + slices(base, bytes, unit)[i].len
            == bytes,
{
    lemma_pieces(bytes, unit, i);
    lemma_pieces(bytes, unit, i + 1);
    assert(0 <= i * unit) by (nonlinear_arith)
        requires
            0 <= i,
            unit > 0,
    ;
    assert((i + 1) * unit == i * unit + unit) by (nonlinear_arith);
}

} // verus!
