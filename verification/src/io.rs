//! Device sizes, zeroing, and the plan of a copy.

use vstd::prelude::*;
use vstd::string::*;
use crate::chunks::{
    BLOCKS_COPY_TARGET_CHUNK, CopyChunk, DIRECT_IO_ALIGN, FULL_COPY_CHUNK_SIZE, RING_COUNT,
    aligned_up, block_count, byte_count, chunk_has, chunks_bounded, chunks_cover, chunks_within,
    ends_fit, prepare_chunks, prepared, sequential_chunks, slices,
};
use crate::copy::{
    CopyEvent, CopyState, carries, copied_by, law_progress_only_grows, planned_for,
};
use crate::ring::{Ring, RingView, fresh_ring};
use crate::text::{decimal, decimal_text, joined};

pub use crate::chunks::BlockRange;
pub use crate::reset::{ResetMethod, reset_to_zero};

verus! {

/// The number of bytes at the start of a device that identify its contents.
pub const SUPERBLOCK_SIZE: usize = 4096;

/// The number of zero bytes written at a time.
pub const BUFFER_SIZE: u64 = 1048576;

/// The number of queue entries of each ring of a full copy.
pub const FULL_COPY_SQ_DEPTH: u32 = 256;

/// The number of buffers of each ring of a full copy.
pub const FULL_COPY_SLOTS_PER_RING: usize = 64;

/// The number of queue entries of each ring of a block copy.
pub const BLOCKS_COPY_SQ_DEPTH: u32 = 512;

/// The number of buffers of each ring of a block copy.
pub const BLOCKS_COPY_SLOTS_PER_RING: usize = 128;

/// The largest granularity whose blocks one operation can transfer.
pub const MAX_GRANULARITY: u64 = 0x7fff_f000;

// ---------------------------------------------------------------------------
// Sizes and zeroing
// ---------------------------------------------------------------------------

/// The size of a device: the length that its metadata gives, or where that is
/// missing or zero, the position of its end.
pub open spec fn size_of_device(metadata_len: Option<u64>, end: Option<u64>) -> Option<u64> {
    match metadata_len {
        Some(len) if len > 0 => Some(len),
        _ => end,
    }
}

/// Decides the size of a device; `end` is the position of its end, which block
/// devices are asked for because their metadata gives no length.
pub fn get_size(metadata_len: Option<u64>, end: Option<u64>) -> (size: Option<u64>)
    ensures
        size == size_of_device(metadata_len, end),
{
    match metadata_len {
        Some(len) => if len > 0 {
            Some(len)
        } else {
            end
        },
        None => end,
    }
}

/// The superblock in what was read from the start of a device, if that is long
/// enough.
pub fn read_superblock(head: &Vec<u8>) -> (superblock: Option<Vec<u8>>)
    ensures
        match superblock {
            Some(bytes) => head@.len() >= SUPERBLOCK_SIZE && bytes@ == head@.take(
                SUPERBLOCK_SIZE as int,
            ),
            None => head@.len() < SUPERBLOCK_SIZE,
        },
        superblock matches Some(bytes) ==> bytes@.len() == 4096,
        superblock is Some <==> head@.len() >= 4096,
{
    if head.len() < SUPERBLOCK_SIZE {
        return None;
    }
    let mut bytes: Vec<u8> = Vec::new();
    let mut i: usize = 0;
    while i < SUPERBLOCK_SIZE
        invariant
            i <= SUPERBLOCK_SIZE <= head@.len(),
            bytes@ == head@.take(i as int),
        decreases SUPERBLOCK_SIZE - i,
    {
        bytes.push(head[i]);
        i = i + 1;
        assert(bytes@ =~= head@.take(i as int));
    }
    Some(bytes)
}

/// The next write when `written` of `size` bytes have been zeroed: its length, or
/// `None` where nothing is left.
pub fn zero(size: u64, written: u64) -> (len: Option<u64>)
    requires
        written <= size,
    ensures
        len is None <==> written == size,
        len matches Some(n) ==> n == (if size - written < BUFFER_SIZE {
            size - written
        } else {
            BUFFER_SIZE as int
        }),
{
    if written == size {
        None
    } else if size - written < BUFFER_SIZE {
        Some(size - written)
    } else {
        Some(BUFFER_SIZE)
    }
}

/// The number of bytes that are zeroed after `n` writes of which each is the
/// next one.
pub open spec fn zeroed_after(size: nat, n: nat) -> nat
    decreases n,
{
    if n == 0 {
        0
    } else {
        let before = zeroed_after(size, (n - 1) as nat);
        if size - before < BUFFER_SIZE {
            size
        } else {
            before + BUFFER_SIZE as nat
        }
    }
}

/// Zeroing reaches the end of the device, and never writes beyond it.
pub proof fn law_zeroing_ends_at_the_size(size: nat, n: nat)
    ensures
        zeroed_after(size, n) <= size,
        n >= size ==> zeroed_after(size, n) == size,
        zeroed_after(size, n) < size ==> zeroed_after(size, n) == n * BUFFER_SIZE,
    decreases n,
{
    if n > 0 {
        law_zeroing_ends_at_the_size(size, (n - 1) as nat);
    }
}

// ---------------------------------------------------------------------------
// The plan of a copy
// ---------------------------------------------------------------------------

/// How a copy is carried out: the chunks of each ring, and the sizes of the rings
/// and their buffers.
#[derive(Debug)]
pub struct CopyPlan {
    pub rings: Vec<Vec<CopyChunk>>,
    pub sq_depth: u32,
    pub slots_per_ring: usize,
    pub slot_size: usize,
    pub total_bytes: u64,
}

/// The number of rings for `n` chunks.
pub open spec fn rings_for(n: nat) -> nat {
    if n < 1 {
        1
    } else if n > RING_COUNT {
        RING_COUNT as nat
    } else {
        n
    }
}

/// The number of chunks of each ring but the last ones.
pub open spec fn per_ring(n: nat) -> nat {
    ((n + rings_for(n) - 1) / rings_for(n) as int) as nat
}

/// The first chunk of ring `k`.
pub open spec fn ring_start(n: nat, k: int) -> int {
    if k * per_ring(n) < n {
        k * per_ring(n)
    } else {
        n as int
    }
}

/// The chunks of ring `k`.
pub open spec fn ring_part(chunks: Seq<CopyChunk>, k: int) -> Seq<CopyChunk> {
    chunks.subrange(ring_start(chunks.len(), k), ring_start(chunks.len(), k + 1))
}

/// Whether `rings` are the chunks spread over the rings in consecutive runs of
/// one length.
pub open spec fn is_partition(rings: Seq<Vec<CopyChunk>>, chunks: Seq<CopyChunk>) -> bool {
    &&& rings.len() == rings_for(chunks.len())
    &&& forall|k: int| 0 <= k < rings.len() ==> (#[trigger] rings[k])@ == ring_part(chunks, k)
}

proof fn lemma_ring_starts(n: nat)
    ensures
        ring_start(n, 0) == 0,
        ring_start(n, rings_for(n) as int) == n,
        forall|k: int| 0 <= k ==> 0 <= ring_start(n, k) <= #[trigger] ring_start(n, k + 1) <= n,
{
    let per = per_ring(n) as int;
    assert forall|k: int| 0 <= k implies 0 <= ring_start(n, k) <= #[trigger] ring_start(n, k + 1)
        <= n by {
        assert(0 <= k * per <= (k + 1) * per) by (nonlinear_arith)
            requires
                0 <= k,
                0 <= per,
        ;
    }
    assert(0 * per == 0);
    let rc = rings_for(n) as int;
    vstd::arithmetic::div_mod::lemma_fundamental_div_mod(n + rc - 1, rc);
    let rem = (n + rc - 1) % rc;
    assert(rc * per >= n) by (nonlinear_arith)
        requires
            n + rc - 1 == rc * per + rem,
            0 <= rem < rc,
    ;
}

fn partition(chunks: &Vec<CopyChunk>) -> (rings: Vec<Vec<CopyChunk>>)
    ensures
        is_partition(rings@, chunks@),
{
    let n: usize = chunks.len();
    let ring_count: usize = if n < 1 {
        1
    } else if n > RING_COUNT {
        RING_COUNT
    } else {
        n
    };
    let per: usize = if n % ring_count == 0 {
        n / ring_count
    } else {
        n / ring_count + 1
    };
    assert(per == per_ring(n as nat)) by {
        let rc = ring_count as int;
        let q = n as int / rc;
        let rem = n as int % rc;
        vstd::arithmetic::div_mod::lemma_fundamental_div_mod(n as int, rc);
        vstd::arithmetic::mul::lemma_mul_is_commutative(rc, q);
        if rem == 0 {
            vstd::arithmetic::div_mod::lemma_fundamental_div_mod_converse(
                n + rc - 1,
                rc,
                q,
                rc - 1,
            );
        } else {
            assert((q + 1) * rc == q * rc + rc) by (nonlinear_arith);
            vstd::arithmetic::div_mod::lemma_fundamental_div_mod_converse(
                n + rc - 1,
                rc,
                q + 1,
                rem - 1,
            );
        }
    }
    proof {
        lemma_ring_starts(n as nat);
    }
    let mut rings: Vec<Vec<CopyChunk>> = Vec::new();
    let mut at: usize = 0;
    let mut k: usize = 0;
    while k < ring_count
        invariant
            n == chunks@.len(),
            ring_count == rings_for(n as nat),
            per == per_ring(n as nat),
            k <= ring_count,
            rings@.len() == k,
            at == ring_start(n as nat, k as int),
            forall|j: int| 0 <= j < k ==> (#[trigger] rings@[j])@ == ring_part(chunks@, j),
        decreases ring_count - k,
    {
        proof {
            lemma_ring_starts(n as nat);
            assert((k + 1) * per == k * per + per) by (nonlinear_arith);
            assert(ring_start(n as nat, k + 1) <= n);
        }
        let end: usize = if n - at < per {
            n
        } else {
            at + per
        };
        assert(end == ring_start(n as nat, k + 1));
        let mut part: Vec<CopyChunk> = Vec::new();
        let mut i: usize = at;
        while i < end
            invariant
                at <= i <= end <= chunks@.len(),
                part@ == chunks@.subrange(at as int, i as int),
            decreases end - i,
        {
            part.push(chunks[i]);
            i = i + 1;
            assert(part@ =~= chunks@.subrange(at as int, i as int));
        }
        rings.push(part);
        at = end;
        k = k + 1;
    }
    rings
}

/// The rings together carry the chunks, in their order: one ring's chunks follow
/// those of the ring before, and a byte lies in a chunk of a ring exactly where it
/// lies in one of the chunks.
pub proof fn law_partition_keeps_the_chunks(rings: Seq<Vec<CopyChunk>>, chunks: Seq<CopyChunk>)
    requires
        is_partition(rings, chunks),
    ensures
        rings.map_values(|r: Vec<CopyChunk>| r@).flatten() == chunks,
        forall|o: int|
            (exists|k: int| 0 <= k < rings.len() && chunks_cover((#[trigger] rings[k])@, o))
                <==> #[trigger] chunks_cover(chunks, o),
{
    let n = chunks.len();
    lemma_ring_starts(n);
    let views = rings.map_values(|r: Vec<CopyChunk>| r@);
    lemma_partition_flattens(views, chunks, views.len());
    assert(views.take(views.len() as int) =~= views);
    assert(chunks.take(n as int) =~= chunks);
    assert forall|o: int|
        (exists|k: int| 0 <= k < rings.len() && chunks_cover((#[trigger] rings[k])@, o))
            <==> #[trigger] chunks_cover(chunks, o) by {
        if exists|k: int| 0 <= k < rings.len() && chunks_cover((#[trigger] rings[k])@, o) {
            let k = choose|k: int|
                0 <= k < rings.len() && chunks_cover((#[trigger] rings[k])@, o);
            let part = ring_part(chunks, k);
            let i = choose|i: int| 0 <= i < part.len() && chunk_has(#[trigger] part[i], o);
            assert(ring_start(n, k) <= ring_start(n, k + 1) <= n);
            assert(chunk_has(chunks[ring_start(n, k) + i], o));
        }
        if chunks_cover(chunks, o) {
            let i = choose|i: int| 0 <= i < n && chunk_has(#[trigger] chunks[i], o);
            lemma_owner(n, i, rings.len());
            let k = choose|k: int|
                0 <= k < rings.len() && ring_start(n, k) <= i < #[trigger] ring_start(n, k + 1);
            let part = ring_part(chunks, k);
            assert(part[i - ring_start(n, k)] == chunks[i]);
            assert(chunks_cover(rings[k]@, o));
        }
    }
}

proof fn lemma_owner(n: nat, i: int, upto: nat)
    requires
        0 <= i < ring_start(n, upto as int),
    ensures
        exists|k: int| 0 <= k < upto && ring_start(n, k) <= i < #[trigger] ring_start(n, k + 1),
    decreases upto,
{
    lemma_ring_starts(n);
    if upto > 0 {
        let k = upto - 1;
        if ring_start(n, k) <= i {
            assert(i < ring_start(n, k + 1));
        } else {
            lemma_owner(n, i, k as nat);
        }
    }
}

proof fn lemma_partition_flattens(views: Seq<Seq<CopyChunk>>, chunks: Seq<CopyChunk>, k: nat)
    requires
        k <= views.len(),
        forall|j: int| 0 <= j < views.len() ==> #[trigger] views[j] == ring_part(chunks, j),
    ensures
        views.take(k as int).flatten() == chunks.take(ring_start(chunks.len(), k as int)),
    decreases k,
{
    let n = chunks.len();
    lemma_ring_starts(n);
    if k == 0 {
        assert(views.take(0) =~= Seq::<Seq<CopyChunk>>::empty());
        assert(chunks.take(0) =~= Seq::<CopyChunk>::empty());
    } else {
        let j = (k - 1) as int;
        lemma_partition_flattens(views, chunks, j as nat);
        let t = views.take(k as int);
        assert(t.drop_last() =~= views.take(j));
        assert(t.last() == ring_part(chunks, j));
        t.lemma_flatten_and_flatten_alt_are_equivalent();
        t.drop_last().lemma_flatten_and_flatten_alt_are_equivalent();
        assert(ring_start(n, j) <= ring_start(n, j + 1) <= n);
        assert(chunks.take(ring_start(n, j)) + ring_part(chunks, j) =~= chunks.take(
            ring_start(n, j + 1),
        ));
    }
}

/// A chunk that direct I/O cannot transfer.
#[derive(Debug, Clone, Copy, PartialEq, Eq, Structural)]
pub struct Misaligned {
    pub offset: u64,
    pub len: u64,
}

/// Whether direct I/O can transfer the chunk.
pub open spec fn is_aligned(c: CopyChunk) -> bool {
    c.offset % DIRECT_IO_ALIGN == 0 && c.len % DIRECT_IO_ALIGN == 0
}

impl Misaligned {
    /// The text of the error.
    pub open spec fn words(self) -> Seq<char> {
        "O_DIRECT requires 4096-byte aligned offsets and lengths, got offset="@ + decimal(
            self.offset as nat,
        ) + " len="@ + decimal(self.len as nat)
    }

    /// The text of the error.
    pub fn message(&self) -> (s: String)
        ensures
            s@ == self.words(),
    {
        let mut s = "O_DIRECT requires 4096-byte aligned offsets and lengths, got offset=".to_owned();
        s.append(decimal_text(self.offset).as_str());
        s.append(" len=");
        s.append(decimal_text(self.len).as_str());
        s
    }
}

/// The first chunk of a ring that direct I/O cannot transfer.
pub open spec fn first_misaligned(chunks: Seq<CopyChunk>) -> Option<CopyChunk>
    decreases chunks.len(),
{
    if chunks.len() == 0 {
        None
    } else if !is_aligned(chunks[0]) {
        Some(chunks[0])
    } else {
        first_misaligned(chunks.skip(1))
    }
}

/// Checks that direct I/O can transfer every chunk; the error names the first that
/// it cannot.
pub fn check_alignment(chunks: &Vec<CopyChunk>) -> (checked: Result<(), Misaligned>)
    ensures
        match first_misaligned(chunks@) {
            Some(c) => checked == Err::<(), Misaligned>(
                Misaligned { offset: c.offset, len: c.len },
            ),
            None => checked is Ok,
        },
        checked is Ok <==> forall|i: int|
            0 <= i < chunks@.len() ==> is_aligned(#[trigger] chunks@[i]),
{
    let mut i: usize = 0;
    assert(chunks@.skip(0) =~= chunks@);
    while i < chunks.len()
        invariant
            i <= chunks@.len(),
            first_misaligned(chunks@) == first_misaligned(chunks@.skip(i as int)),
            forall|j: int| 0 <= j < i ==> is_aligned(#[trigger] chunks@[j]),
        decreases chunks@.len() - i,
    {
        let c = chunks[i];
        assert(chunks@.skip(i as int)[0] == c);
        assert(chunks@.skip(i as int).skip(1) =~= chunks@.skip(i + 1));
        if c.offset % DIRECT_IO_ALIGN != 0 || c.len % DIRECT_IO_ALIGN != 0 {
            assert(!is_aligned(chunks@[i as int]));
            return Err(Misaligned { offset: c.offset, len: c.len });
        }
        i = i + 1;
    }
    Ok(())
}

proof fn lemma_first_misaligned_concat(a: Seq<CopyChunk>, b: Seq<CopyChunk>)
    ensures
        first_misaligned(a + b) == (match first_misaligned(a) {
            Some(c) => Some(c),
            None => first_misaligned(b),
        }),
    decreases a.len(),
{
    if a.len() == 0 {
        assert(a + b =~= b);
    } else {
        assert((a + b)[0] == a[0]);
        assert((a + b).skip(1) =~= a.skip(1) + b);
        lemma_first_misaligned_concat(a.skip(1), b);
    }
}

/// Whether the plan carries exactly these chunks and every ring can run them.
pub open spec fn plan_carries(plan: CopyPlan, chunks: Seq<CopyChunk>) -> bool {
    &&& is_partition(plan.rings@, chunks)
    &&& chunks_bounded(chunks, plan.slot_size as int)
    &&& byte_count(chunks) <= u64::MAX
    &&& 0 < plan.slots_per_ring <= plan.sq_depth
    &&& plan.slot_size <= i32::MAX
    &&& plan.slot_size % 4096 == 0
}

impl CopyPlan {
    /// Whether every ring of the plan can be started.
    pub open spec fn runnable(self) -> bool {
        &&& 0 < self.slots_per_ring <= u32::MAX
        &&& self.slot_size <= i32::MAX
        &&& forall|k: int|
            0 <= k < self.rings@.len() ==> {
                &&& chunks_within((#[trigger] self.rings@[k])@, self.slot_size as int)
                &&& byte_count(self.rings@[k]@) <= u64::MAX
            }
    }

    /// Whether direct I/O can transfer every chunk of every ring.
    pub open spec fn aligned(self) -> bool {
        forall|k: int, i: int|
            0 <= k < self.rings@.len() && 0 <= i < self.rings@[k]@.len() ==> is_aligned(
                #[trigger] self.rings@[k]@[i],
            )
    }

    /// Whether the rings of a copy are those of the plan, none of them begun, each with a
    /// buffer for each of its slots.
    pub open spec fn begins(self, start: CopyState) -> bool {
        &&& start.rings.len() == self.rings@.len()
        &&& start.buffers.len() == self.rings@.len()
        &&& forall|r: int|
            0 <= r < start.rings.len() ==> (#[trigger] start.rings[r]) == fresh_ring(
                self.rings@[r]@,
                self.slots_per_ring as nat,
                self.slot_size as nat,
            )
        &&& forall|r: int|
            0 <= r < start.buffers.len() ==> (#[trigger] start.buffers[r]).len()
                == self.slots_per_ring
    }

    /// The chunks of all rings, ring after ring.
    pub open spec fn chunks(self) -> Seq<CopyChunk> {
        self.rings@.map_values(|r: Vec<CopyChunk>| r@).flatten()
    }

    /// Checks that direct I/O can transfer every chunk of every ring; the error names the
    /// first that it cannot.
    pub fn check_alignment(&self) -> (checked: Result<(), Misaligned>)
        ensures
            match first_misaligned(self.chunks()) {
                Some(c) => checked == Err::<(), Misaligned>(
                    Misaligned { offset: c.offset, len: c.len },
                ),
                None => checked is Ok,
            },
            checked is Ok <==> self.aligned(),
    {
        let ghost views = self.rings@.map_values(|r: Vec<CopyChunk>| r@);
        let mut k: usize = 0;
        assert(views.skip(0) =~= views);
        while k < self.rings.len()
            invariant
                k <= self.rings@.len(),
                views == self.rings@.map_values(|r: Vec<CopyChunk>| r@),
                first_misaligned(self.chunks()) == first_misaligned(
                    views.skip(k as int).flatten(),
                ),
                forall|j: int, i: int|
                    0 <= j < k && 0 <= i < self.rings@[j]@.len() ==> is_aligned(
                        #[trigger] self.rings@[j]@[i],
                    ),
            decreases self.rings@.len() - k,
        {
            proof {
                let rest = views.skip(k as int);
                assert(rest.first() == self.rings@[k as int]@);
                assert(rest.drop_first() =~= views.skip(k + 1));
                lemma_first_misaligned_concat(rest.first(), rest.drop_first().flatten());
            }
            match check_alignment(&self.rings[k]) {
                Ok(_) => {},
                Err(m) => {
                    let ghost part = self.rings@[k as int]@;
                    assert(exists|i: int| 0 <= i < part.len() && !is_aligned(#[trigger] part[i]));
                    let ghost i = choose|i: int|
                        0 <= i < part.len() && !is_aligned(#[trigger] part[i]);
                    assert(!is_aligned(self.rings@[k as int]@[i]));
                    return Err(m);
                },
            }
            k = k + 1;
        }
        Ok(())
    }

    /// Ring number `k` of the plan, before it has begun; a plan with a chunk that direct
    /// I/O cannot transfer is not begun at all.
    pub fn start_ring(&self, k: usize) -> (ring: Ring)
        requires
            self.runnable(),
            self.aligned(),
            k < self.rings@.len(),
        ensures
            ring@ == fresh_ring(
                self.rings@[k as int]@,
                self.slots_per_ring as nat,
                self.slot_size as nat,
            ),
            ring@.wf(),
    {
        let ghost chunks = self.rings@[k as int]@;
        let mut part: Vec<CopyChunk> = Vec::new();
        let mut i: usize = 0;
        while i < self.rings[k].len()
            invariant
                k < self.rings@.len(),
                chunks == self.rings@[k as int]@,
                i <= chunks.len(),
                part@ == chunks.take(i as int),
            decreases chunks.len() - i,
        {
            part.push(self.rings[k][i]);
            i = i + 1;
            assert(part@ =~= chunks.take(i as int));
        }
        assert(part@ =~= chunks);
        Ring::new(part, self.slots_per_ring, self.slot_size)
    }
}

/// The chunks of a plan are those that it was made for, so the one that keeps it from
/// being begun is the first of them that direct I/O cannot transfer.
pub proof fn law_plan_keeps_the_order(plan: CopyPlan, chunks: Seq<CopyChunk>)
    requires
        is_partition(plan.rings@, chunks),
    ensures
        plan.chunks() == chunks,
        plan.aligned() <==> forall|i: int|
            0 <= i < chunks.len() ==> is_aligned(#[trigger] chunks[i]),
{
    law_partition_keeps_the_chunks(plan.rings@, chunks);
    let n = chunks.len();
    lemma_ring_starts(n);
    if plan.aligned() {
        assert forall|i: int| 0 <= i < n implies is_aligned(#[trigger] chunks[i]) by {
            lemma_owner(n, i, plan.rings@.len());
            let k = choose|k: int|
                0 <= k < plan.rings@.len() && ring_start(n, k) <= i < #[trigger] ring_start(
                    n,
                    k + 1,
                );
            assert(plan.rings@[k]@[i - ring_start(n, k)] == chunks[i]);
        }
    }
    if forall|i: int| 0 <= i < n ==> is_aligned(#[trigger] chunks[i]) {
        assert forall|k: int, i: int|
            0 <= k < plan.rings@.len() && 0 <= i < plan.rings@[k]@.len() implies is_aligned(
            #[trigger] plan.rings@[k]@[i],
        ) by {
            assert(ring_start(n, k) <= ring_start(n, k + 1) <= n);
            assert(plan.rings@[k]@[i] == chunks[ring_start(n, k) + i]);
        }
    }
}

/// Every ring of a plan can be started.
pub proof fn lemma_plan_runs(plan: CopyPlan, chunks: Seq<CopyChunk>)
    requires
        plan_carries(plan, chunks),
    ensures
        plan.runnable(),
{
    assert forall|k: int| 0 <= k < plan.rings@.len() implies {
        &&& chunks_within((#[trigger] plan.rings@[k])@, plan.slot_size as int)
        &&& byte_count(plan.rings@[k]@) <= u64::MAX
    } by {
        lemma_ring_of_plan(plan, chunks, k);
    }
}

proof fn lemma_ring_of_plan(plan: CopyPlan, chunks: Seq<CopyChunk>, k: int)
    requires
        plan_carries(plan, chunks),
        0 <= k < plan.rings@.len(),
    ensures
        chunks_within(plan.rings@[k]@, plan.slot_size as int),
        byte_count(plan.rings@[k]@) <= u64::MAX,
{
    let n = chunks.len();
    lemma_ring_starts(n);
    let a = ring_start(n, k);
    let b = ring_start(n, k + 1);
    let part = ring_part(chunks, k);
    assert(plan.rings@[k]@ == part);
    assert(0 <= a <= b <= n);
    assert forall|i: int| 0 <= i < part.len() implies (#[trigger] part[i]).len
        <= plan.slot_size by {
        assert(part[i] == chunks[a + i]);
    }
    let head = chunks.take(a);
    let tail = chunks.skip(b);
    crate::chunks::lemma_count_concat(head, part);
    crate::chunks::lemma_count_concat(head + part, tail);
    assert(head + part + tail =~= chunks);
}

/// Plans the copy of a whole device of `size` bytes.
pub fn full_copy(size: u64) -> (plan: CopyPlan)
    requires
        size <= u64::MAX - 4095,
    ensures
        plan_carries(
            plan,
            slices(0, aligned_up(size as nat), FULL_COPY_CHUNK_SIZE as nat),
        ),
        plan.sq_depth == FULL_COPY_SQ_DEPTH,
        plan.slots_per_ring == FULL_COPY_SLOTS_PER_RING,
        plan.slot_size == FULL_COPY_CHUNK_SIZE,
        plan.total_bytes == size,
        plan.runnable(),
        plan.aligned(),
{
    let chunks = sequential_chunks(size, FULL_COPY_CHUNK_SIZE);
    proof {
        crate::chunks::law_sequential_chunks_cover_the_device(
            size as nat,
            FULL_COPY_CHUNK_SIZE as nat,
        );
    }
    let plan = CopyPlan {
        rings: partition(&chunks),
        sq_depth: FULL_COPY_SQ_DEPTH,
        slots_per_ring: FULL_COPY_SLOTS_PER_RING,
        slot_size: FULL_COPY_CHUNK_SIZE as usize,
        total_bytes: size,
    };
    proof {
        lemma_plan_runs(plan, chunks@);
        law_full_copy_is_aligned(size as nat);
        law_plan_keeps_the_order(plan, chunks@);
    }
    plan
}

/// Direct I/O can transfer every chunk of a full copy.
pub proof fn law_full_copy_is_aligned(size: nat)
    requires
        size <= u64::MAX - 4095,
    ensures
        forall|i: int|
            0 <= i < slices(0, aligned_up(size), FULL_COPY_CHUNK_SIZE as nat).len()
                ==> is_aligned(
                #[trigger] slices(0, aligned_up(size), FULL_COPY_CHUNK_SIZE as nat)[i],
            ),
{
    let s = slices(0, aligned_up(size), FULL_COPY_CHUNK_SIZE as nat);
    assert forall|i: int| 0 <= i < s.len() implies is_aligned(#[trigger] s[i]) by {
        crate::chunks::lemma_slices(0, aligned_up(size), FULL_COPY_CHUNK_SIZE as nat);
        let c = s[i];
        assert(s[i].len > 0);
        assert(i * 2097152 < aligned_up(size));
        assert(c.offset == i * 2097152);
    }
}

/// Whether the ranges can be copied in blocks of this granularity: the
/// granularity is usable, and every byte offset and the number of bytes fit.
pub open spec fn blocks_fit(blocks: Seq<BlockRange>, granularity: u64) -> bool {
    &&& 0 < granularity <= MAX_GRANULARITY
    &&& ends_fit(blocks, granularity as int)
    &&& block_count(blocks) * granularity <= u64::MAX
}

/// Tests whether the ranges can be copied in blocks of this granularity.
pub fn check_blocks_fit(blocks: &Vec<BlockRange>, granularity: u64) -> (fit: bool)
    ensures
        fit == blocks_fit(blocks@, granularity),
{
    if granularity == 0 || granularity > MAX_GRANULARITY {
        return false;
    }
    let limit: u64 = u64::MAX / granularity;
    let mut total: u64 = 0;
    let mut i: usize = 0;
    assert(blocks@.take(0) =~= Seq::<BlockRange>::empty());
    while i < blocks.len()
        invariant
            0 < granularity <= MAX_GRANULARITY,
            limit == u64::MAX / granularity,
            i <= blocks@.len(),
            total == block_count(blocks@.take(i as int)),
            total <= limit,
            forall|j: int|
                0 <= j < i ==> ((#[trigger] blocks@[j]).start + blocks@[j].len) * granularity
                    <= u64::MAX,
        decreases blocks@.len() - i,
    {
        let r = blocks[i];
        assert(blocks@[i as int] == r);
        assert(blocks@.take(i + 1).drop_last() =~= blocks@.take(i as int));
        if r.start > limit || r.len > limit - r.start {
            proof {
                lemma_limit(r.start + r.len, granularity as int);
            }
            return false;
        }
        if r.len > limit - total {
            proof {
                lemma_block_count_grows(blocks@, i + 1);
                lemma_limit(block_count(blocks@) as int, granularity as int);
            }
            return false;
        }
        proof {
            lemma_limit(r.start + r.len, granularity as int);
        }
        total = total + r.len;
        i = i + 1;
    }
    proof {
        assert(blocks@.take(blocks@.len() as int) =~= blocks@);
        lemma_limit(total as int, granularity as int);
    }
    true
}

proof fn lemma_limit(n: int, g: int)
    requires
        n >= 0,
        g > 0,
    ensures
        n * g <= u64::MAX <==> n <= u64::MAX as int / g,
{
    let q = u64::MAX as int / g;
    let rem = u64::MAX as int % g;
    vstd::arithmetic::div_mod::lemma_fundamental_div_mod(u64::MAX as int, g);
    assert(n * g <= u64::MAX <==> n <= q) by (nonlinear_arith)
        requires
            g > 0,
            u64::MAX == g * q + rem,
            0 <= rem < g,
    ;
}

proof fn lemma_block_count_grows(s: Seq<BlockRange>, i: int)
    requires
        0 <= i <= s.len(),
    ensures
        block_count(s.take(i)) <= block_count(s),
    decreases s.len(),
{
    if i == s.len() {
        assert(s.take(i) =~= s);
    } else {
        lemma_block_count_grows(s.drop_last(), i);
        assert(s.drop_last().take(i) =~= s.take(i));
    }
}

/// The number of blocks in all ranges together.
pub fn count_blocks(blocks: &Vec<BlockRange>) -> (n: u64)
    requires
        block_count(blocks@) <= u64::MAX,
    ensures
        n == block_count(blocks@),
{
    let mut total: u64 = 0;
    let mut i: usize = 0;
    assert(blocks@.take(0) =~= Seq::<BlockRange>::empty());
    while i < blocks.len()
        invariant
            i <= blocks@.len(),
            total == block_count(blocks@.take(i as int)),
            block_count(blocks@) <= u64::MAX,
        decreases blocks@.len() - i,
    {
        proof {
            assert(blocks@.take(i + 1).drop_last() =~= blocks@.take(i as int));
            lemma_block_count_grows(blocks@, i + 1);
        }
        total = total + blocks[i].len;
        i = i + 1;
    }
    assert(blocks@.take(blocks@.len() as int) =~= blocks@);
    total
}

/// Where the bytes of the ranges can be counted, so can their blocks.
pub proof fn lemma_blocks_countable(blocks: Seq<BlockRange>, granularity: u64)
    requires
        blocks_fit(blocks, granularity),
    ensures
        block_count(blocks) <= u64::MAX,
{
    lemma_limit(block_count(blocks) as int, granularity as int);
    assert(u64::MAX as int / granularity as int <= u64::MAX) by (nonlinear_arith)
        requires
            granularity > 0,
    ;
}

/// The size of a buffer for changed blocks: the larger of the target and one block,
/// rounded up to the alignment of direct I/O.
pub open spec fn blocks_slot_size(granularity: u64) -> nat {
    aligned_up(
        if granularity < BLOCKS_COPY_TARGET_CHUNK {
            BLOCKS_COPY_TARGET_CHUNK as nat
        } else {
            granularity as nat
        },
    )
}

/// Plans the copy of changed ranges; nothing is copied where there are none.
pub fn copy_blocks(blocks: &Vec<BlockRange>, granularity: u64) -> (plan: Option<CopyPlan>)
    requires
        blocks_fit(blocks@, granularity),
    ensures
        plan is None <==> blocks@.len() == 0,
        plan matches Some(p) ==> {
            &&& plan_carries(p, prepared(blocks@, granularity as nat))
            &&& p.sq_depth == BLOCKS_COPY_SQ_DEPTH
            &&& p.slots_per_ring == BLOCKS_COPY_SLOTS_PER_RING
            &&& p.slot_size == blocks_slot_size(granularity)
            &&& p.total_bytes == block_count(blocks@) * granularity
            &&& p.runnable()
        },
{
    if blocks.len() == 0 {
        return None;
    }
    proof {
        lemma_blocks_countable(blocks@, granularity);
    }
    let total_blocks: u64 = count_blocks(blocks);
    let total_bytes: u64 = total_blocks * granularity;
    let chunks = prepare_chunks(blocks, granularity);
    proof {
        crate::chunks::law_prepared_chunks_are_the_blocks(blocks@, granularity as nat);
        crate::chunks::lemma_chunk_unit(granularity as nat);
    }
    let base: u64 = if granularity < BLOCKS_COPY_TARGET_CHUNK {
        BLOCKS_COPY_TARGET_CHUNK
    } else {
        granularity
    };
    let slot_size: u64 = (base + 4095) / 4096 * 4096;
    let plan = CopyPlan {
        rings: partition(&chunks),
        sq_depth: BLOCKS_COPY_SQ_DEPTH,
        slots_per_ring: BLOCKS_COPY_SLOTS_PER_RING,
        slot_size: slot_size as usize,
        total_bytes,
    };
    proof {
        lemma_plan_runs(plan, chunks@);
    }
    Some(plan)
}

/// A copy whose rings are those of a plan, each with a buffer for each of its slots, has
/// not begun and carries the chunks of the plan.
pub proof fn law_plan_runs_its_chunks(
    start: CopyState,
    plan: CopyPlan,
    chunks: Seq<CopyChunk>,
)
    requires
        plan_carries(plan, chunks),
        plan.begins(start),
    ensures
        start.fresh(),
        carries(start, chunks),
        planned_for(start.rings) == byte_count(chunks),
{
    lemma_plan_runs(plan, chunks);
    lemma_planned(start.rings, plan.rings@, chunks, plan.rings@.len());
    assert(start.rings.take(plan.rings@.len() as int) =~= start.rings);
    lemma_ring_starts(chunks.len());
    assert(chunks.take(chunks.len() as int) =~= chunks);
    assert forall|r: int| 0 <= r < start.rings.len() implies {
        let ring = #[trigger] start.rings[r];
        &&& ring.wf()
        &&& start.buffers[r].len() == ring.slots.len()
    } by {
        crate::ring::lemma_fresh_ring(
            plan.rings@[r]@,
            plan.slots_per_ring as nat,
            plan.slot_size as nat,
        );
    }
    law_partition_keeps_the_chunks(plan.rings@, chunks);
    assert forall|o: int| #[trigger] start.covers(o) <==> chunks_cover(chunks, o) by {
        if start.covers(o) {
            let r = choose|r: int|
                0 <= r < start.rings.len() && chunks_cover((#[trigger] start.rings[r]).chunks, o);
            assert(chunks_cover(plan.rings@[r]@, o));
        }
        if chunks_cover(chunks, o) {
            let r = choose|r: int|
                0 <= r < plan.rings@.len() && chunks_cover((#[trigger] plan.rings@[r])@, o);
            assert(chunks_cover(start.rings[r].chunks, o));
        }
    }
}

proof fn lemma_planned(
    rings: Seq<RingView>,
    parts: Seq<Vec<CopyChunk>>,
    chunks: Seq<CopyChunk>,
    k: nat,
)
    requires
        k <= parts.len(),
        rings.len() == parts.len(),
        is_partition(parts, chunks),
        forall|r: int| 0 <= r < rings.len() ==> (#[trigger] rings[r]).chunks == parts[r]@,
    ensures
        planned_for(rings.take(k as int)) == byte_count(
            chunks.take(ring_start(chunks.len(), k as int)),
        ),
    decreases k,
{
    let n = chunks.len();
    lemma_ring_starts(n);
    if k == 0 {
        assert(rings.take(0) =~= Seq::<RingView>::empty());
        assert(chunks.take(0) =~= Seq::<CopyChunk>::empty());
    } else {
        let j = k - 1;
        lemma_planned(rings, parts, chunks, j as nat);
        assert(rings.take(k as int).drop_last() =~= rings.take(j));
        assert(rings.take(k as int).last().chunks == parts[j]@);
        assert(parts[j]@ == ring_part(chunks, j));
        assert(ring_start(n, j) <= ring_start(n, j + 1) <= n);
        assert(chunks.take(ring_start(n, j)) + ring_part(chunks, j) =~= chunks.take(
            ring_start(n, j + 1),
        ));
        crate::chunks::lemma_count_concat(chunks.take(ring_start(n, j)), ring_part(chunks, j));
    }
}

/// The progress of a copy of changed blocks never falls and never passes the total that
/// the plan gives; once every ring has succeeded it has reached it. `i` is how many of
/// the events have happened at some earlier moment.
pub proof fn law_block_copy_progress(
    start: CopyState,
    plan: CopyPlan,
    blocks: Seq<BlockRange>,
    granularity: nat,
    events: Seq<CopyEvent>,
    i: int,
)
    requires
        granularity > 0,
        ends_fit(blocks, granularity as int),
        plan_carries(plan, prepared(blocks, granularity)),
        plan.total_bytes == block_count(blocks) * granularity,
        plan.begins(start),
        start.can_run(events),
        0 <= i <= events.len(),
    ensures
        ({
            let earlier = copied_by(start.run(events.take(i)).rings);
            let now = copied_by(start.run(events).rings);
            &&& earlier <= now <= plan.total_bytes
            &&& start.run(events).succeeded() ==> now == plan.total_bytes
        }),
{
    law_plan_runs_its_chunks(start, plan, prepared(blocks, granularity));
    crate::chunks::law_prepared_chunks_are_the_blocks(blocks, granularity);
    law_progress_only_grows(start, events, i);
}

/// The progress of a full copy never falls and never passes the size of the device rounded
/// up to the alignment of direct I/O; once every ring has succeeded it has reached that.
pub proof fn law_full_copy_progress(
    start: CopyState,
    plan: CopyPlan,
    size: nat,
    events: Seq<CopyEvent>,
    i: int,
)
    requires
        size <= u64::MAX - 4095,
        plan_carries(plan, slices(0, aligned_up(size), FULL_COPY_CHUNK_SIZE as nat)),
        plan.begins(start),
        start.can_run(events),
        0 <= i <= events.len(),
    ensures
        ({
            let earlier = copied_by(start.run(events.take(i)).rings);
            let now = copied_by(start.run(events).rings);
            &&& earlier <= now <= aligned_up(size)
            &&& start.run(events).succeeded() ==> now == aligned_up(size)
        }),
{
    let chunks = slices(0, aligned_up(size), FULL_COPY_CHUNK_SIZE as nat);
    law_plan_runs_its_chunks(start, plan, chunks);
    crate::chunks::law_sequential_chunks_cover_the_device(size, FULL_COPY_CHUNK_SIZE as nat);
    law_progress_only_grows(start, events, i);
}

/// The percentage that `done` is of `total`; a copy of nothing is complete.
pub open spec fn percent_of(done: u64, total: u64) -> u64 {
    if total == 0 {
        100
    } else {
        (if done * 100 > u64::MAX {
            u64::MAX / total
        } else {
            (done * 100) as u64 / total
        })
    }
}

/// The percentage that `done` is of `total`.
pub fn progress_percent(done: u64, total: u64) -> (percent: u64)
    ensures
        percent == percent_of(done, total),
{
    if total == 0 {
        return 100;
    }
    let scaled: u64 = if done > u64::MAX / 100 {
        u64::MAX
    } else {
        done * 100
    };
    scaled / total
}

/// What the caller of a copy does after looking at its progress.
#[derive(Debug, Clone, Copy, PartialEq, Eq, Structural)]
pub enum Poll {
    /// Everything was copied.
    Finished,
    /// Every ring has stopped: look at the progress once more.
    Stopped,
    /// Look again later.
    Wait,
}

/// Decides how to go on when `copied` of `total` bytes were copied.
pub fn poll_copy(copied: u64, total: u64, all_stopped: bool) -> (poll: Poll)
    ensures
        poll == (if copied >= total {
            Poll::Finished
        } else if all_stopped {
            Poll::Stopped
        } else {
            Poll::Wait
        }),
{
    if copied >= total {
        Poll::Finished
    } else if all_stopped {
        Poll::Stopped
    } else {
        Poll::Wait
    }
}

/// The error number of a device that something else uses.
pub const EBUSY: i32 = 16;

/// The text for a device that could not be opened; a copy opens its destination
/// exclusively, which fails where the device is mounted.
pub fn open_failed(path: &str, errno: i32) -> (s: String)
    ensures
        s@ == (if errno == EBUSY {
            "Cannot open "@ + path@ + ": device is in use"@
        } else {
            "Cannot open "@ + path@
        }),
{
    let mut s = joined("Cannot open ", path);
    if errno == EBUSY {
        s.append(": device is in use");
    }
    s
}

/// The first ring that failed, if one did: its error is that of the copy.
pub fn first_failure(failed: &Vec<bool>) -> (first: Option<usize>)
    ensures
        match first {
            Some(i) => i < failed@.len() && failed@[i as int] && forall|j: int|
                0 <= j < i ==> !failed@[j],
            None => forall|j: int| 0 <= j < failed@.len() ==> !failed@[j],
        },
{
    let mut i: usize = 0;
    while i < failed.len()
        invariant
            i <= failed@.len(),
            forall|j: int| 0 <= j < i ==> !failed@[j],
        decreases failed@.len() - i,
    {
        if failed[i] {
            return Some(i);
        }
        i = i + 1;
    }
    None
}

/// The number of bytes of the buffers of a ring, if that fits.
pub fn buffer_pool_size(slot_size: usize, slot_count: usize) -> (size: Option<usize>)
    ensures
        match size {
            Some(n) => n == slot_size * slot_count,
            None => slot_size * slot_count > usize::MAX,
        },
{
    slot_size.checked_mul(slot_count)
}

/// Where the buffer of a slot begins.
pub fn slot_offset(slot: usize, slot_size: usize, slot_count: usize) -> (offset: usize)
    requires
        slot < slot_count,
        slot_size * slot_count <= usize::MAX,
    ensures
        offset == slot * slot_size,
        offset + slot_size <= slot_size * slot_count,
{
    assert(slot * slot_size + slot_size <= slot_size * slot_count) by (nonlinear_arith)
        requires
            slot < slot_count,
    ;
    slot * slot_size
}

/// The buffers of two slots do not overlap.
pub proof fn law_buffers_are_disjoint(a: nat, b: nat, slot_size: nat)
    requires
        a < b,
    ensures
        a * slot_size + slot_size <= b * slot_size,
{
    assert(a * slot_size + slot_size <= b * slot_size) by (nonlinear_arith)
        requires
            a < b,
    ;
}

/// Ranges can be copied exactly where a block is not empty and one operation can transfer it,
/// every range ends at an offset of 64 bits, and so many bytes can be counted in 64 bits.
pub proof fn law_which_ranges_can_be_copied(blocks: Seq<BlockRange>, granularity: u64)
    ensures
        blocks_fit(blocks, granularity) <==> {
            &&& 0 < granularity <= 0x7fff_f000
            &&& forall|i: int|
                0 <= i < blocks.len() ==> ((#[trigger] blocks[i]).start + blocks[i].len)
                    * granularity <= 0xffff_ffff_ffff_ffff
            &&& block_count(blocks) * granularity <= 0xffff_ffff_ffff_ffff
        },
{
}

/// The percentage is rounded down, of a total of nothing it is 100, and it saturates where a
/// hundred times what was copied does not fit in 64 bits.
pub proof fn law_percentages_round_down(done: u64, total: u64)
    ensures
        total == 0 ==> percent_of(done, total) == 100,
        total > 0 && done * 100 <= u64::MAX ==> percent_of(done, total) * total <= done * 100
            < percent_of(done, total) * total + total,
        total > 0 && done * 100 > u64::MAX ==> percent_of(done, total) * total <= u64::MAX
            < percent_of(done, total) * total + total,
{
    if total > 0 {
        let scaled: int = if done * 100 > u64::MAX {
            u64::MAX as int
        } else {
            done * 100
        };
        let q = percent_of(done, total) as int;
        assert(q == scaled / total as int);
        vstd::arithmetic::div_mod::lemma_fundamental_div_mod(scaled, total as int);
        vstd::arithmetic::mul::lemma_mul_is_commutative(q, total as int);
    }
}

/// A device has the length that its metadata gives, if that is not zero, and else ends where
/// its end was found.
pub proof fn law_where_the_size_comes_from(metadata_len: Option<u64>, end: Option<u64>)
    ensures
        metadata_len matches Some(len) ==> len > 0 ==> size_of_device(metadata_len, end) == Some(
            len,
        ),
        metadata_len is None || metadata_len == Some(0u64) ==> size_of_device(metadata_len, end)
            == end,
{
}

/// The buffers of a block copy hold a block and the target size, are aligned for direct I/O,
/// and are no larger than that takes.
pub proof fn law_buffers_hold_a_chunk(granularity: u64)
    ensures
        blocks_slot_size(granularity) >= granularity,
        blocks_slot_size(granularity) >= 262144,
        blocks_slot_size(granularity) % 4096 == 0,
        blocks_slot_size(granularity) < 262144 + 4096 || blocks_slot_size(granularity)
            < granularity + 4096,
{
}

/// Chunks are spread over at most four rings, over as many as there are chunks where those
/// are fewer, and no ring gets more than its share, rounded up.
pub proof fn law_chunks_are_spread_evenly(rings: Seq<Vec<CopyChunk>>, chunks: Seq<CopyChunk>)
    requires
        is_partition(rings, chunks),
    ensures
        rings.len() == (if chunks.len() == 0 {
            1
        } else if chunks.len() > 4 {
            4
        } else {
            chunks.len()
        }),
        forall|k: int|
            0 <= k < rings.len() ==> (#[trigger] rings[k])@.len() * rings.len() < chunks.len()
                + rings.len(),
{
    let n = chunks.len();
    lemma_ring_starts(n);
    let rc = rings.len() as int;
    let per = per_ring(n) as int;
    vstd::arithmetic::div_mod::lemma_fundamental_div_mod(n + rc - 1, rc);
    assert(per * rc <= n + rc - 1) by (nonlinear_arith)
        requires
            n + rc - 1 == rc * per + (n + rc - 1) % rc,
            0 <= (n + rc - 1) % rc,
    ;
    assert forall|k: int| 0 <= k < rings.len() implies (#[trigger] rings[k])@.len() * rings.len()
        < chunks.len() + rings.len() by {
        assert(rings[k]@ == ring_part(chunks, k));
        assert(ring_start(n, k) <= ring_start(n, k + 1) <= n);
        assert((k + 1) * per == k * per + per) by (nonlinear_arith);
        let len = rings[k]@.len() as int;
        assert(len <= per);
        assert(len * rc <= per * rc) by (nonlinear_arith)
            requires
                len <= per,
                rc >= 0,
        ;
    }
}

/// Direct I/O is refused for the first chunk whose offset or length is no multiple of 4096,
/// and for no other.
pub proof fn law_the_first_misaligned_chunk_is_named(chunks: Seq<CopyChunk>)
    ensures
        match first_misaligned(chunks) {
            None => forall|i: int|
                0 <= i < chunks.len() ==> (#[trigger] chunks[i]).offset % 4096 == 0
                    && chunks[i].len % 4096 == 0,
            Some(c) => exists|i: int|
                0 <= i < chunks.len() && #[trigger] chunks[i] == c && (c.offset % 4096 != 0
                    || c.len % 4096 != 0) && (forall|j: int|
                    0 <= j < i ==> (#[trigger] chunks[j]).offset % 4096 == 0 && chunks[j].len % 4096
                        == 0),
        },
    decreases chunks.len(),
{
    if chunks.len() > 0 {
        if is_aligned(chunks[0]) {
            let rest = chunks.skip(1);
            law_the_first_misaligned_chunk_is_named(rest);
            match first_misaligned(rest) {
                None => {
                    assert forall|i: int| 0 <= i < chunks.len() implies (
                    #[trigger] chunks[i]).offset % 4096 == 0 && chunks[i].len % 4096 == 0 by {
                        if i > 0 {
                            assert(rest[i - 1] == chunks[i]);
                        }
                    }
                },
                Some(c) => {
                    let k = choose|i: int|
                        0 <= i < rest.len() && #[trigger] rest[i] == c && (c.offset % 4096 != 0
                            || c.len % 4096 != 0) && (forall|j: int|
                            0 <= j < i ==> (#[trigger] rest[j]).offset % 4096 == 0 && rest[j].len
                                % 4096 == 0);
                    assert(chunks[k + 1] == c);
                    assert forall|j: int| 0 <= j < k + 1 implies (#[trigger] chunks[j]).offset
                        % 4096 == 0 && chunks[j].len % 4096 == 0 by {
                        if j > 0 {
                            assert(rest[j - 1] == chunks[j]);
                        }
                    }
                },
            }
        } else {
            assert(chunks[0] == chunks[0]);
        }
    }
}

/// What a chunk that is refused is told.
pub proof fn law_what_a_misaligned_chunk_is_told(offset: u64, len: u64)
    ensures
        (Misaligned { offset, len }).words()
            == "O_DIRECT requires 4096-byte aligned offsets and lengths, got offset="@ + decimal(
            offset as nat,
        ) + " len="@ + decimal(len as nat),
{
}

} // verus!
