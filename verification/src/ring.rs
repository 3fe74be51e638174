//! One submission ring of a copy: which read or write is issued when, and what
//! each completion means.

use vstd::prelude::*;
use vstd::string::*;
use crate::chunks::{CopyChunk, byte_count, chunks_within, lemma_count_concat};
use crate::text::{decimal, decimal_text, signed_decimal, signed_text};

verus! {

/// The number of operations that are queued before they are submitted.
pub const SUBMIT_BATCH_SIZE: usize = 32;

/// What a slot of the ring is doing.
#[derive(Debug, Clone, Copy, PartialEq, Eq, Structural)]
pub enum Phase {
    Free,
    Reading,
    Writing,
}

/// A buffer slot and the chunk that it holds.
#[derive(Debug, Clone, Copy, PartialEq, Eq, Structural)]
pub struct Slot {
    pub offset: u64,
    pub len: u64,
    pub phase: Phase,
}

/// Why a ring failed.
#[derive(Debug, Clone, Copy, PartialEq, Eq, Structural)]
pub enum RingError {
    /// The operation failed with an operating system error.
    Operation { code: i32, offset: u64 },
    /// Fewer or more bytes were read than asked for.
    ShortRead { offset: u64, expected: u64, got: i32 },
    /// Fewer or more bytes were written than asked for.
    ShortWrite { offset: u64, expected: u64, got: i32 },
}

impl RingError {
    /// The text of the error.
    pub open spec fn words(self) -> Seq<char> {
        match self {
            RingError::Operation { code, offset } => "io_uring operation failed at offset "@
                + decimal(offset as nat),
            RingError::ShortRead { offset, expected, got } => "short read at offset "@ + decimal(
                offset as nat,
            ) + ": expected "@ + decimal(expected as nat) + " bytes, got "@ + signed_decimal(
                got as int,
            ),
            RingError::ShortWrite { offset, expected, got } => "short write at offset "@ + decimal(
                offset as nat,
            ) + ": expected "@ + decimal(expected as nat) + " bytes, got "@ + signed_decimal(
                got as int,
            ),
        }
    }

    /// The text of the error.
    pub fn message(&self) -> (s: String)
        ensures
            s@ == self.words(),
    {
        match *self {
            RingError::Operation { code: _, offset } => {
                let mut s = "io_uring operation failed at offset ".to_owned();
                s.append(decimal_text(offset).as_str());
                s
            },
            RingError::ShortRead { offset, expected, got } => {
                let mut s = "short read at offset ".to_owned();
                s.append(decimal_text(offset).as_str());
                s.append(": expected ");
                s.append(decimal_text(expected).as_str());
                s.append(" bytes, got ");
                s.append(signed_text(got).as_str());
                s
            },
            RingError::ShortWrite { offset, expected, got } => {
                let mut s = "short write at offset ".to_owned();
                s.append(decimal_text(offset).as_str());
                s.append(": expected ");
                s.append(decimal_text(expected).as_str());
                s.append(" bytes, got ");
                s.append(signed_text(got).as_str());
                s
            },
        }
    }
}

// ---------------------------------------------------------------------------
// The tag of an operation
// ---------------------------------------------------------------------------

/// The number of a phase in a tag.
pub open spec fn phase_number(phase: Phase) -> u64 {
    match phase {
        Phase::Free => 0,
        Phase::Reading => 1,
        Phase::Writing => 2,
    }
}

/// The tag of an operation: the slot in the low half, the phase above it.
pub open spec fn user_data(slot: nat, phase: Phase) -> nat {
    slot + 0x1_0000_0000 * phase_number(phase) as nat
}

/// The slot of a tag.
pub open spec fn user_data_slot(tag: u64) -> nat {
    (tag % 0x1_0000_0000) as nat
}

/// The phase of a tag.
pub open spec fn user_data_phase(tag: u64) -> Phase {
    let n = tag / 0x1_0000_0000;
    if n == 1 {
        Phase::Reading
    } else if n == 2 {
        Phase::Writing
    } else {
        Phase::Free
    }
}

/// Makes the tag of an operation.
pub fn encode_user_data(slot_id: usize, phase: Phase) -> (tag: u64)
    requires
        slot_id <= u32::MAX,
    ensures
        tag == user_data(slot_id as nat, phase),
{
    let number: u64 = match phase {
        Phase::Free => 0,
        Phase::Reading => 1,
        Phase::Writing => 2,
    };
    let low: u64 = slot_id as u64;
    assert(low | (number << 32) == low + 0x1_0000_0000 * number) by (bit_vector)
        requires
            low <= 0xffff_ffff,
            number <= 2,
    ;
    low | (number << 32)
}

/// Reads a tag back.
pub fn decode_user_data(tag: u64) -> (parts: (usize, Phase))
    ensures
        parts.0 == user_data_slot(tag),
        parts.1 == user_data_phase(tag),
{
    assert(tag & 0xffff_ffff == tag % 0x1_0000_0000) by (bit_vector);
    assert(tag >> 32 == tag / 0x1_0000_0000) by (bit_vector);
    let slot_id: usize = (tag & 0xffff_ffff) as u32 as usize;
    let number: u64 = tag >> 32;
    let phase = if number == 1 {
        Phase::Reading
    } else if number == 2 {
        Phase::Writing
    } else {
        Phase::Free
    };
    assert((tag & 0xffff_ffff) as u32 == tag & 0xffff_ffff) by (bit_vector);
    (slot_id, phase)
}

/// Reading back a tag gives the slot and the phase that it was made of.
pub proof fn law_user_data_roundtrip(slot: nat, phase: Phase, tag: u64)
    requires
        slot <= u32::MAX,
        tag == user_data(slot, phase),
    ensures
        user_data_slot(tag) == slot,
        user_data_phase(tag) == phase,
{
}

// ---------------------------------------------------------------------------
// The ring
// ---------------------------------------------------------------------------

/// A read or write that is to be submitted.
#[derive(Debug, Clone, Copy, PartialEq, Eq, Structural)]
pub struct Submission {
    pub slot: usize,
    pub offset: u64,
    pub len: u32,
    pub user_data: u64,
}

/// What follows from a completion.
#[derive(Debug, Clone, Copy, PartialEq, Eq, Structural)]
pub enum Completion {
    /// The chunk was read: this write follows.
    Write { submission: Submission },
    /// The chunk was copied.
    Copied { len: u64 },
    /// The operation failed.
    Failed,
}

/// The state of a ring.
pub ghost struct RingView {
    pub chunks: Seq<CopyChunk>,
    pub next: nat,
    pub slots: Seq<Slot>,
    pub in_flight: nat,
    pub error: Option<RingError>,
    pub copied: nat,
    pub slot_size: nat,
}

/// The number of slots with an operation in flight.
pub open spec fn busy_count(slots: Seq<Slot>) -> nat
    decreases slots.len(),
{
    if slots.len() == 0 {
        0
    } else {
        busy_count(slots.drop_last()) + if slots.last().phase == Phase::Free {
            0nat
        } else {
            1nat
        }
    }
}

/// The number of bytes in flight.
pub open spec fn busy_bytes(slots: Seq<Slot>) -> nat
    decreases slots.len(),
{
    if slots.len() == 0 {
        0
    } else {
        busy_bytes(slots.drop_last()) + if slots.last().phase == Phase::Free {
            0nat
        } else {
            slots.last().len as nat
        }
    }
}

proof fn lemma_busy_update(slots: Seq<Slot>, i: int, s: Slot)
    requires
        0 <= i < slots.len(),
    ensures
        busy_count(slots.update(i, s)) + (if slots[i].phase == Phase::Free {
            0nat
        } else {
            1nat
        }) == busy_count(slots) + (if s.phase == Phase::Free {
            0nat
        } else {
            1nat
        }),
        busy_bytes(slots.update(i, s)) + (if slots[i].phase == Phase::Free {
            0nat
        } else {
            slots[i].len as nat
        }) == busy_bytes(slots) + (if s.phase == Phase::Free {
            0nat
        } else {
            s.len as nat
        }),
    decreases slots.len(),
{
    let t = slots.update(i, s);
    if i == slots.len() - 1 {
        assert(t.drop_last() =~= slots.drop_last());
    } else {
        lemma_busy_update(slots.drop_last(), i, s);
        assert(t.drop_last() =~= slots.drop_last().update(i, s));
    }
}

/// Nothing is in flight exactly where every slot is free.
pub proof fn lemma_busy_none(slots: Seq<Slot>)
    ensures
        busy_count(slots) <= slots.len(),
        busy_count(slots) == 0 <==> (forall|i: int|
            0 <= i < slots.len() ==> (#[trigger] slots[i]).phase == Phase::Free),
        (forall|i: int| 0 <= i < slots.len() ==> (#[trigger] slots[i]).phase == Phase::Free)
            ==> busy_bytes(slots) == 0,
    decreases slots.len(),
{
    if slots.len() > 0 {
        let d = slots.drop_last();
        lemma_busy_none(d);
        if busy_count(slots) == 0 {
            assert forall|i: int| 0 <= i < slots.len() implies (#[trigger] slots[i]).phase
                == Phase::Free by {
                if i < d.len() {
                    assert(d[i] == slots[i]);
                }
            }
        }
        if forall|i: int| 0 <= i < slots.len() ==> (#[trigger] slots[i]).phase == Phase::Free {
            assert forall|i: int| 0 <= i < d.len() implies (#[trigger] d[i]).phase == Phase::Free by {
                assert(d[i] == slots[i]);
            }
            assert(slots[slots.len() - 1].phase == Phase::Free);
        }
    }
}

impl RingView {
    /// What holds of a ring at every moment.
    pub open spec fn wf(self) -> bool {
        &&& 0 < self.slots.len() <= u32::MAX
        &&& self.slot_size <= i32::MAX
        &&& chunks_within(self.chunks, self.slot_size as int)
        &&& byte_count(self.chunks) <= u64::MAX
        &&& self.next <= self.chunks.len()
        &&& self.in_flight == busy_count(self.slots)
        &&& forall|i: int|
            0 <= i < self.slots.len() && (#[trigger] self.slots[i]).phase != Phase::Free
                ==> self.slots[i].len <= self.slot_size
        &&& self.copied + busy_bytes(self.slots) <= byte_count(
            self.chunks.take(self.next as int),
        )
        &&& self.error is None ==> self.copied + busy_bytes(self.slots) == byte_count(
            self.chunks.take(self.next as int),
        )
    }

    /// The ring after the next chunk was put into slot `s`, to be read.
    pub open spec fn started(self, s: int) -> RingView {
        let chunk = self.chunks[self.next as int];
        RingView {
            slots: self.slots.update(
                s,
                Slot { offset: chunk.offset, len: chunk.len, phase: Phase::Reading },
            ),
            next: self.next + 1,
            in_flight: self.in_flight + 1,
            ..self
        }
    }

    /// The ring after the free slots from `from` on were filled.
    pub open spec fn filled_from(self, from: int) -> RingView
        decreases self.slots.len() - from,
    {
        if !(0 <= from < self.slots.len()) || self.next >= self.chunks.len() {
            self
        } else if self.slots[from].phase == Phase::Free {
            self.started(from).filled_from(from + 1)
        } else {
            self.filled_from(from + 1)
        }
    }

    /// The reads that filling the slots from `from` on issues.
    pub open spec fn reads_from(self, from: int) -> Seq<Submission>
        decreases self.slots.len() - from,
    {
        if !(0 <= from < self.slots.len()) || self.next >= self.chunks.len() {
            Seq::empty()
        } else if self.slots[from].phase == Phase::Free {
            seq![submission_for(from, self.chunks[self.next as int], Phase::Reading)]
                + self.started(from).reads_from(from + 1)
        } else {
            self.reads_from(from + 1)
        }
    }

    /// The ring after its free slots were filled; once an operation has failed,
    /// no chunk is started any more.
    pub open spec fn filled(self) -> RingView {
        if self.error is Some {
            self
        } else {
            self.filled_from(0)
        }
    }

    /// The reads that filling issues.
    pub open spec fn reads(self) -> Seq<Submission> {
        if self.error is Some {
            Seq::empty()
        } else {
            self.reads_from(0)
        }
    }

    /// The ring after slot `s` was given free; the first error stays.
    pub open spec fn failed(self, s: int, error: RingError) -> RingView {
        RingView {
            error: if self.error is Some {
                self.error
            } else {
                Some(error)
            },
            ..self.released(s)
        }
    }

    /// The ring after slot `s` was given free.
    pub open spec fn released(self, s: int) -> RingView {
        RingView {
            slots: self.slots.update(s, Slot { phase: Phase::Free, ..self.slots[s] }),
            in_flight: (self.in_flight - 1) as nat,
            ..self
        }
    }

    /// The ring after the operation of slot `s` completed with `result`.
    pub open spec fn completed(self, s: int, result: i32) -> RingView {
        let slot = self.slots[s];
        if result < 0 {
            self.failed(s, RingError::Operation { code: (-result) as i32, offset: slot.offset })
        } else if slot.phase == Phase::Reading {
            if result != slot.len {
                self.failed(
                    s,
                    RingError::ShortRead { offset: slot.offset, expected: slot.len, got: result },
                )
            } else {
                RingView {
                    slots: self.slots.update(s, Slot { phase: Phase::Writing, ..slot }),
                    ..self
                }
            }
        } else {
            if result != slot.len {
                self.failed(
                    s,
                    RingError::ShortWrite { offset: slot.offset, expected: slot.len, got: result },
                )
            } else {
                RingView { copied: self.copied + slot.len as nat, ..self.released(s) }
            }
        }
    }

    /// What follows from that completion.
    pub open spec fn follow_up(self, s: int, result: i32) -> Completion {
        let slot = self.slots[s];
        if result < 0 || result != slot.len {
            Completion::Failed
        } else if slot.phase == Phase::Reading {
            Completion::Write {
                submission: submission_for(
                    s,
                    CopyChunk { offset: slot.offset, len: slot.len },
                    Phase::Writing,
                ),
            }
        } else {
            Completion::Copied { len: slot.len }
        }
    }

    /// Whether every chunk was copied and nothing failed.
    pub open spec fn succeeded(self) -> bool {
        &&& self.error is None
        &&& self.next == self.chunks.len()
        &&& self.in_flight == 0
    }
}

/// The read or write of a chunk through slot `s`.
pub open spec fn submission_for(s: int, chunk: CopyChunk, phase: Phase) -> Submission {
    Submission {
        slot: s as usize,
        offset: chunk.offset,
        len: chunk.len as u32,
        user_data: user_data(s as nat, phase) as u64,
    }
}

/// A ring that has copied nothing yet.
pub open spec fn fresh_ring(chunks: Seq<CopyChunk>, slots: nat, slot_size: nat) -> RingView {
    RingView {
        chunks,
        next: 0,
        slots: Seq::new(slots, |i: int| Slot { offset: 0, len: 0, phase: Phase::Free }),
        in_flight: 0,
        error: None,
        copied: 0,
        slot_size,
    }
}

/// A ring that has copied nothing yet is in order.
pub proof fn lemma_fresh_ring(chunks: Seq<CopyChunk>, slots: nat, slot_size: nat)
    requires
        0 < slots <= u32::MAX,
        slot_size <= i32::MAX,
        chunks_within(chunks, slot_size as int),
        byte_count(chunks) <= u64::MAX,
    ensures
        fresh_ring(chunks, slots, slot_size).wf(),
        forall|i: int|
            0 <= i < slots ==> (#[trigger] fresh_ring(chunks, slots, slot_size).slots[i]).phase
                == Phase::Free,
{
    let v = fresh_ring(chunks, slots, slot_size);
    lemma_busy_none(v.slots);
    assert(chunks.take(0) =~= Seq::<CopyChunk>::empty());
}

/// Filling the slots keeps the ring in order.
pub proof fn lemma_filled_wf(v: RingView, from: int)
    requires
        v.wf(),
        0 <= from,
    ensures
        v.filled_from(from).wf(),
        v.filled_from(from).chunks == v.chunks,
        v.filled_from(from).slots.len() == v.slots.len(),
        v.filled_from(from).error == v.error,
        v.filled_from(from).copied == v.copied,
    decreases v.slots.len() - from,
{
    if from < v.slots.len() && v.next < v.chunks.len() {
        if v.slots[from].phase == Phase::Free {
            lemma_started_wf(v, from);
            lemma_filled_wf(v.started(from), from + 1);
        } else {
            lemma_filled_wf(v, from + 1);
        }
    }
}

/// Starting a chunk keeps the ring in order.
pub proof fn lemma_started_wf(v: RingView, s: int)
    requires
        v.wf(),
        0 <= s < v.slots.len(),
        v.next < v.chunks.len(),
        v.slots[s].phase == Phase::Free,
    ensures
        v.started(s).wf(),
{
    let chunk = v.chunks[v.next as int];
    let slot = Slot { offset: chunk.offset, len: chunk.len, phase: Phase::Reading };
    lemma_busy_update(v.slots, s, slot);
    let t = v.chunks.take(v.next as int + 1);
    assert(t.drop_last() =~= v.chunks.take(v.next as int));
    assert(t.last() == chunk);
}

/// A completion keeps the ring in order.
pub proof fn lemma_completed_wf(v: RingView, s: int, result: i32)
    requires
        v.wf(),
        0 <= s < v.slots.len(),
        v.slots[s].phase != Phase::Free,
    ensures
        v.completed(s, result).wf(),
        v.completed(s, result).chunks == v.chunks,
        v.completed(s, result).next == v.next,
        v.completed(s, result).slots.len() == v.slots.len(),
        v.in_flight > 0,
        v.copied + v.slots[s].len <= byte_count(v.chunks),
{
    lemma_busy_update(v.slots, s, Slot { phase: Phase::Free, ..v.slots[s] });
    lemma_busy_update(v.slots, s, Slot { phase: Phase::Writing, ..v.slots[s] });
    let head = v.chunks.take(v.next as int);
    let tail = v.chunks.skip(v.next as int);
    lemma_count_concat(head, tail);
    assert(head + tail =~= v.chunks);
}

/// A ring that has nothing in flight after filling and has met no error has
/// copied all its chunks, every byte of them.
pub proof fn law_idle_ring_is_done(v: RingView)
    requires
        v.wf(),
        v.filled().in_flight == 0,
        v.error is None,
    ensures
        v.filled().succeeded(),
        v.filled().copied == byte_count(v.chunks),
{
    lemma_filled_wf(v, 0);
    let f = v.filled();
    lemma_fill_exhausts(v, 0);
    lemma_busy_none(f.slots);
    assert(f.chunks.take(f.chunks.len() as int) =~= f.chunks);
    if f.next < f.chunks.len() {
        assert(f.slots[0].phase != Phase::Free);
    }
}

proof fn lemma_fill_exhausts(v: RingView, from: int)
    requires
        v.wf(),
        0 <= from <= v.slots.len(),
    ensures
        ({
            let f = v.filled_from(from);
            f.next < f.chunks.len() ==> forall|i: int|
                from <= i < f.slots.len() ==> (#[trigger] f.slots[i]).phase != Phase::Free
        }),
        forall|i: int| 0 <= i < from ==> v.filled_from(from).slots[i] == v.slots[i],
    decreases v.slots.len() - from,
{
    lemma_filled_wf(v, from);
    if from < v.slots.len() && v.next < v.chunks.len() {
        if v.slots[from].phase == Phase::Free {
            lemma_started_wf(v, from);
            let w = v.started(from);
            lemma_fill_exhausts(w, from + 1);
            assert(w.filled_from(from + 1).slots[from] == w.slots[from]);
            assert forall|i: int| 0 <= i < from implies v.filled_from(from).slots[i]
                == v.slots[i] by {
                assert(w.filled_from(from + 1).slots[i] == w.slots[i]);
            }
        } else {
            lemma_fill_exhausts(v, from + 1);
            assert(v.filled_from(from + 1).slots[from] == v.slots[from]);
        }
    }
}

/// There are never more operations in flight than slots.
pub proof fn law_in_flight_fits_the_slots(v: RingView)
    requires
        v.wf(),
    ensures
        v.in_flight <= v.slots.len(),
{
    lemma_busy_none(v.slots);
}

/// The number of completions that the slots still await.
pub open spec fn busy_work(slots: Seq<Slot>) -> nat
    decreases slots.len(),
{
    if slots.len() == 0 {
        0
    } else {
        busy_work(slots.drop_last()) + slot_work(slots.last())
    }
}

/// The number of completions that a slot still awaits: a read and a write, or a write.
pub open spec fn slot_work(slot: Slot) -> nat {
    match slot.phase {
        Phase::Free => 0,
        Phase::Reading => 2,
        Phase::Writing => 1,
    }
}

/// The number of completions after which the ring is done, if none fails.
pub open spec fn work_left(v: RingView) -> nat {
    (2 * (v.chunks.len() - v.next)) as nat + busy_work(v.slots)
}

proof fn lemma_work_update(slots: Seq<Slot>, i: int, s: Slot)
    requires
        0 <= i < slots.len(),
    ensures
        busy_work(slots.update(i, s)) + slot_work(slots[i]) == busy_work(slots) + slot_work(s),
    decreases slots.len(),
{
    let t = slots.update(i, s);
    if i == slots.len() - 1 {
        assert(t.drop_last() =~= slots.drop_last());
    } else {
        lemma_work_update(slots.drop_last(), i, s);
        assert(t.drop_last() =~= slots.drop_last().update(i, s));
    }
}

proof fn lemma_fill_work(v: RingView, from: int)
    requires
        v.wf(),
        0 <= from,
    ensures
        work_left(v.filled_from(from)) == work_left(v),
    decreases v.slots.len() - from,
{
    if from < v.slots.len() && v.next < v.chunks.len() {
        if v.slots[from].phase == Phase::Free {
            lemma_started_wf(v, from);
            let chunk = v.chunks[v.next as int];
            lemma_work_update(
                v.slots,
                from,
                Slot { offset: chunk.offset, len: chunk.len, phase: Phase::Reading },
            );
            lemma_fill_work(v.started(from), from + 1);
        } else {
            lemma_fill_work(v, from + 1);
        }
    }
}

/// Every completion brings the ring nearer to its end, and filling the slots takes it no
/// further away: a ring ends after at most two completions for each chunk.
pub proof fn law_every_completion_makes_progress(v: RingView, s: int, result: i32)
    requires
        v.wf(),
        0 <= s < v.slots.len(),
        v.slots[s].phase != Phase::Free,
    ensures
        work_left(v.filled()) == work_left(v),
        work_left(v.completed(s, result)) < work_left(v),
{
    lemma_fill_work(v, 0);
    lemma_work_update(v.slots, s, Slot { phase: Phase::Free, ..v.slots[s] });
    lemma_work_update(v.slots, s, Slot { phase: Phase::Writing, ..v.slots[s] });
}

/// The operations that were queued and not yet submitted.
#[derive(Debug)]
pub struct Batch {
    pub pending: usize,
}

impl Batch {
    /// Nothing is queued.
    pub fn new() -> (batch: Batch)
        ensures
            batch.pending == 0,
    {
        Batch { pending: 0 }
    }

    /// Takes note of one more operation; whether a full batch is to be submitted now.
    pub fn queue(&mut self) -> (submit: bool)
        requires
            old(self).pending < SUBMIT_BATCH_SIZE,
        ensures
            submit == (old(self).pending + 1 == SUBMIT_BATCH_SIZE),
            final(self).pending == (if submit {
                0
            } else {
                old(self).pending + 1
            }),
            final(self).pending < SUBMIT_BATCH_SIZE,
    {
        if self.pending + 1 >= SUBMIT_BATCH_SIZE {
            self.pending = 0;
            true
        } else {
            self.pending = self.pending + 1;
            false
        }
    }

    /// Whether anything is left to submit; nothing is afterwards.
    pub fn flush(&mut self) -> (submit: bool)
        ensures
            submit == (old(self).pending > 0),
            final(self).pending == 0,
    {
        let submit = self.pending > 0;
        self.pending = 0;
        submit
    }
}

/// One submission ring of a copy.
pub struct Ring {
    chunks: Vec<CopyChunk>,
    next: usize,
    slots: Vec<Slot>,
    in_flight: usize,
    error: Option<RingError>,
    copied: u64,
    slot_size: usize,
}

impl View for Ring {
    type V = RingView;

    closed spec fn view(&self) -> RingView {
        RingView {
            chunks: self.chunks@,
            next: self.next as nat,
            slots: self.slots@,
            in_flight: self.in_flight as nat,
            error: self.error,
            copied: self.copied as nat,
            slot_size: self.slot_size as nat,
        }
    }
}

impl Ring {
    /// A ring that has copied nothing yet.
    pub fn new(chunks: Vec<CopyChunk>, slots_per_ring: usize, slot_size: usize) -> (ring: Ring)
        requires
            0 < slots_per_ring <= u32::MAX,
            slot_size <= i32::MAX,
            chunks_within(chunks@, slot_size as int),
            byte_count(chunks@) <= u64::MAX,
        ensures
            ring@.wf(),
            ring@ == fresh_ring(chunks@, slots_per_ring as nat, slot_size as nat),
    {
        let mut slots: Vec<Slot> = Vec::new();
        let ghost free = Slot { offset: 0, len: 0, phase: Phase::Free };
        let mut i: usize = 0;
        while i < slots_per_ring
            invariant
                i <= slots_per_ring,
                slots@.len() == i,
                free == (Slot { offset: 0, len: 0, phase: Phase::Free }),
                forall|k: int| 0 <= k < i ==> slots@[k] == free,
            decreases slots_per_ring - i,
        {
            slots.push(Slot { offset: 0, len: 0, phase: Phase::Free });
            i = i + 1;
        }
        proof {
            lemma_fresh_ring(chunks@, slots_per_ring as nat, slot_size as nat);
            assert(slots@ =~= fresh_ring(
                chunks@,
                slots_per_ring as nat,
                slot_size as nat,
            ).slots);
        }
        Ring { chunks, next: 0, slots, in_flight: 0, error: None, copied: 0, slot_size }
    }

    /// Puts the next chunks into the free slots, in order, and gives the reads
    /// to submit for them.
    pub fn fill(&mut self) -> (reads: Vec<Submission>)
        requires
            old(self)@.wf(),
        ensures
            final(self)@.wf(),
            final(self)@ == old(self)@.filled(),
            reads@ == old(self)@.reads(),
    {
        let mut reads: Vec<Submission> = Vec::new();
        let ghost start = self@;
        proof {
            lemma_filled_wf(start, 0);
        }
        if self.error.is_some() {
            assert(reads@ =~= start.reads());
            return reads;
        }
        let mut s: usize = 0;
        assert(reads@ + start.reads_from(0) =~= start.reads_from(0));
        while s < self.slots.len() && self.next < self.chunks.len()
            invariant
                self@.wf(),
                self@.filled_from(s as int) == start.filled_from(0),
                reads@ + self@.reads_from(s as int) == start.reads_from(0),
                s <= self.slots@.len(),
            decreases self.slots@.len() - s,
        {
            if self.slots[s].phase == Phase::Free {
                let chunk = self.chunks[self.next];
                let ghost before = self@;
                proof {
                    lemma_started_wf(before, s as int);
                    lemma_busy_none(before.started(s as int).slots);
                    assert(before.chunks[before.next as int] == chunk);
                }
                self.slots.set(
                    s,
                    Slot { offset: chunk.offset, len: chunk.len, phase: Phase::Reading },
                );
                self.next = self.next + 1;
                self.in_flight = self.in_flight + 1;
                assert(self@.slots =~= before.started(s as int).slots);
                assert(self@ == before.started(s as int));
                let read = Submission {
                    slot: s,
                    offset: chunk.offset,
                    len: chunk.len as u32,
                    user_data: encode_user_data(s, Phase::Reading),
                };
                proof {
                    let rest = self@.reads_from(s + 1);
                    assert(read == submission_for(s as int, chunk, Phase::Reading));
                    assert(reads@ + (seq![read] + rest) =~= reads@.push(read) + rest);
                }
                reads.push(read);
            }
            s = s + 1;
        }
        assert(reads@ =~= start.reads());
        reads
    }

    /// Whether a completion with this tag is awaited.
    pub fn expects(&self, user_data: u64) -> (yes: bool)
        ensures
            yes == (user_data_slot(user_data) < self@.slots.len() && self@.slots[user_data_slot(
                user_data,
            ) as int].phase == user_data_phase(user_data) && user_data_phase(user_data)
                != Phase::Free),
    {
        let (slot_id, phase) = decode_user_data(user_data);
        slot_id < self.slots.len() && self.slots[slot_id].phase == phase && phase != Phase::Free
    }

    /// Takes the completion of the operation with this tag. A negative result is
    /// an operating system error.
    pub fn complete(&mut self, user_data: u64, result: i32) -> (follow_up: Completion)
        requires
            old(self)@.wf(),
            user_data_slot(user_data) < old(self)@.slots.len(),
            old(self)@.slots[user_data_slot(user_data) as int].phase == user_data_phase(user_data),
            user_data_phase(user_data) != Phase::Free,
            result > i32::MIN,
        ensures
            final(self)@.wf(),
            final(self)@ == old(self)@.completed(user_data_slot(user_data) as int, result),
            follow_up == old(self)@.follow_up(user_data_slot(user_data) as int, result),
    {
        let (s, phase) = decode_user_data(user_data);
        let ghost before = self@;
        proof {
            lemma_completed_wf(before, s as int, result);
        }
        let slot = self.slots[s];
        let free = Slot { offset: slot.offset, len: slot.len, phase: Phase::Free };
        if result < 0 {
            if self.error.is_none() {
                self.error = Some(RingError::Operation { code: -result, offset: slot.offset });
            }
            self.slots.set(s, free);
            self.in_flight = self.in_flight - 1;
            assert(self@.slots =~= before.completed(s as int, result).slots);
            return Completion::Failed;
        }
        match phase {
            Phase::Reading => {
                if result as u64 != slot.len {
                    if self.error.is_none() {
                        self.error = Some(
                            RingError::ShortRead {
                                offset: slot.offset,
                                expected: slot.len,
                                got: result,
                            },
                        );
                    }
                    self.slots.set(s, free);
                    self.in_flight = self.in_flight - 1;
                    assert(self@.slots =~= before.completed(s as int, result).slots);
                    return Completion::Failed;
                }
                self.slots.set(
                    s,
                    Slot { offset: slot.offset, len: slot.len, phase: Phase::Writing },
                );
                assert(self@.slots =~= before.completed(s as int, result).slots);
                Completion::Write {
                    submission: Submission {
                        slot: s,
                        offset: slot.offset,
                        len: slot.len as u32,
                        user_data: encode_user_data(s, Phase::Writing),
                    },
                }
            },
            _ => {
                if result as u64 != slot.len {
                    if self.error.is_none() {
                        self.error = Some(
                            RingError::ShortWrite {
                                offset: slot.offset,
                                expected: slot.len,
                                got: result,
                            },
                        );
                    }
                    self.slots.set(s, free);
                    self.in_flight = self.in_flight - 1;
                    assert(self@.slots =~= before.completed(s as int, result).slots);
                    return Completion::Failed;
                }
                self.copied = self.copied + slot.len;
                self.slots.set(s, free);
                self.in_flight = self.in_flight - 1;
                assert(self@.slots =~= before.completed(s as int, result).slots);
                Completion::Copied { len: slot.len }
            },
        }
    }

    /// Whether no operation is in flight.
    pub fn is_idle(&self) -> (idle: bool)
        ensures
            idle == (self@.in_flight == 0),
    {
        self.in_flight == 0
    }

    /// The first error, if an operation failed.
    pub fn outcome(&self) -> (outcome: Result<u64, RingError>)
        ensures
            match self@.error {
                Some(e) => outcome == Err::<u64, RingError>(e),
                None => outcome is Ok && outcome->Ok_0 == self@.copied,
            },
    {
        match self.error {
            Some(e) => Err(e),
            None => Ok(self.copied),
        }
    }
}

proof fn lemma_filled_below(v: RingView, from: int, i: int)
    requires
        0 <= i < from,
        i < v.slots.len(),
    ensures
        v.filled_from(from).slots[i] == v.slots[i],
        v.filled_from(from).slots.len() == v.slots.len(),
        v.filled_from(from).chunks == v.chunks,
    decreases v.slots.len() - from,
{
    if from < v.slots.len() && v.next < v.chunks.len() {
        if v.slots[from].phase == Phase::Free {
            lemma_filled_below(v.started(from), from + 1, i);
        } else {
            lemma_filled_below(v, from + 1, i);
        }
    }
}

proof fn lemma_reads(v: RingView, from: int)
    requires
        v.slots.len() <= u32::MAX,
        v.slot_size <= i32::MAX,
        chunks_within(v.chunks, v.slot_size as int),
        v.next <= v.chunks.len(),
        0 <= from,
    ensures
        ({
            let reads = v.reads_from(from);
            let w = v.filled_from(from);
            &&& w.next == v.next + reads.len()
            &&& w.slots.len() == v.slots.len()
            &&& w.chunks == v.chunks
            &&& forall|j: int|
                0 <= j < reads.len() ==> {
                    let r = #[trigger] reads[j];
                    &&& from <= r.slot < v.slots.len()
                    &&& v.slots[r.slot as int].phase == Phase::Free
                    &&& w.slots[r.slot as int].phase == Phase::Reading
                    &&& w.slots[r.slot as int].offset == r.offset
                    &&& w.slots[r.slot as int].len == r.len
                    &&& r.offset == v.chunks[v.next + j].offset
                    &&& r.len == v.chunks[v.next + j].len
                    &&& r.user_data == r.slot + 0x1_0000_0000
                }
            &&& forall|j: int, k: int|
                0 <= j < k < reads.len() ==> (#[trigger] reads[j]).slot < (#[trigger] reads[k]).slot
            &&& forall|i: int|
                0 <= i < v.slots.len() && #[trigger] w.slots[i] != v.slots[i] ==> exists|j: int|
                    0 <= j < reads.len() && (#[trigger] reads[j]).slot == i
        }),
    decreases v.slots.len() - from,
{
    let reads = v.reads_from(from);
    let w = v.filled_from(from);
    if from < v.slots.len() && v.next < v.chunks.len() {
        if v.slots[from].phase == Phase::Free {
            let u = v.started(from);
            lemma_reads(u, from + 1);
            lemma_filled_below(u, from + 1, from);
            let rest = u.reads_from(from + 1);
            let c = v.chunks[v.next as int];
            let first = submission_for(from, c, Phase::Reading);
            assert(c.len <= v.slot_size);
            assert(reads =~= seq![first] + rest);
            assert forall|j: int| 0 <= j < reads.len() implies {
                let r = #[trigger] reads[j];
                &&& from <= r.slot < v.slots.len()
                &&& v.slots[r.slot as int].phase == Phase::Free
                &&& w.slots[r.slot as int].phase == Phase::Reading
                &&& w.slots[r.slot as int].offset == r.offset
                &&& w.slots[r.slot as int].len == r.len
                &&& r.offset == v.chunks[v.next + j].offset
                &&& r.len == v.chunks[v.next + j].len
                &&& r.user_data == r.slot + 0x1_0000_0000
            } by {
                if j > 0 {
                    assert(reads[j] == rest[j - 1]);
                    let r = rest[j - 1];
                    assert(u.slots[r.slot as int] == v.slots[r.slot as int]);
                } else {
                    assert(reads[0] == first);
                }
            }
            assert forall|j: int, k: int| 0 <= j < k < reads.len() implies (
            #[trigger] reads[j]).slot < (#[trigger] reads[k]).slot by {
                assert(reads[k] == rest[k - 1]);
                if j > 0 {
                    assert(reads[j] == rest[j - 1]);
                }
            }
            assert forall|i: int|
                0 <= i < v.slots.len() && #[trigger] w.slots[i] != v.slots[i] implies exists|j: int|
                0 <= j < reads.len() && (#[trigger] reads[j]).slot == i by {
                if i == from {
                    assert(reads[0].slot == i);
                } else {
                    assert(u.slots[i] == v.slots[i]);
                    let j = choose|j: int| 0 <= j < rest.len() && (#[trigger] rest[j]).slot == i;
                    assert(reads[j + 1] == rest[j]);
                }
            }
        } else {
            lemma_reads(v, from + 1);
        }
    }
}

/// Filling a ring starts its next chunks in their order, each in a slot of its own that was
/// free: a read is issued for exactly that stretch of the source into exactly that slot, with
/// a tag that names the slot and that it is a read. The other slots stay as they are, and no
/// slot stays free while a chunk is left.
pub proof fn law_reads_are_the_next_chunks(v: RingView)
    requires
        v.wf(),
    ensures
        ({
            let reads = v.reads();
            let w = v.filled();
            &&& w.next == v.next + reads.len()
            &&& v.error is Some ==> reads.len() == 0 && w == v
            &&& v.error is None && w.next < w.chunks.len() ==> forall|i: int|
                0 <= i < w.slots.len() ==> (#[trigger] w.slots[i]).phase != Phase::Free
            &&& forall|j: int|
                0 <= j < reads.len() ==> {
                    let r = #[trigger] reads[j];
                    &&& r.slot < v.slots.len()
                    &&& v.slots[r.slot as int].phase == Phase::Free
                    &&& w.slots[r.slot as int].phase == Phase::Reading
                    &&& w.slots[r.slot as int].offset == r.offset
                    &&& w.slots[r.slot as int].len == r.len
                    &&& r.offset == v.chunks[v.next + j].offset
                    &&& r.len == v.chunks[v.next + j].len
                    &&& r.user_data == r.slot + 0x1_0000_0000
                }
            &&& forall|j: int, k: int|
                0 <= j < k < reads.len() ==> (#[trigger] reads[j]).slot < (#[trigger] reads[k]).slot
            &&& forall|i: int|
                0 <= i < v.slots.len() && #[trigger] w.slots[i] != v.slots[i] ==> exists|j: int|
                    0 <= j < reads.len() && (#[trigger] reads[j]).slot == i
        }),
{
    lemma_reads(v, 0);
    lemma_fill_exhausts(v, 0);
}

/// What follows a completion: a full read is followed by the write of the same stretch from
/// the same slot, a full write means that the chunk was copied, and anything else is a
/// failure, of which the ring keeps the first.
pub proof fn law_what_follows_a_completion(v: RingView, s: int, result: i32)
    requires
        v.wf(),
        0 <= s < v.slots.len(),
        v.slots[s].phase != Phase::Free,
    ensures
        ({
            let slot = v.slots[s];
            let w = v.completed(s, result);
            &&& w.chunks == v.chunks && w.next == v.next
            &&& forall|i: int| 0 <= i < v.slots.len() && i != s ==> #[trigger] w.slots[i]
                == v.slots[i]
            &&& if result == slot.len && slot.phase == Phase::Reading {
                &&& v.follow_up(s, result) == (Completion::Write {
                    submission: Submission {
                        slot: s as usize,
                        offset: slot.offset,
                        len: result as u32,
                        user_data: (s + 0x2_0000_0000) as u64,
                    },
                })
                &&& w.slots[s].phase == Phase::Writing
                &&& w.slots[s].offset == slot.offset && w.slots[s].len == slot.len
                &&& w.copied == v.copied && w.in_flight == v.in_flight && w.error == v.error
            } else if result == slot.len {
                &&& v.follow_up(s, result) == (Completion::Copied { len: slot.len })
                &&& w.slots[s].phase == Phase::Free
                &&& w.copied == v.copied + slot.len && w.in_flight == v.in_flight - 1
                &&& w.error == v.error
            } else {
                &&& v.follow_up(s, result) == Completion::Failed
                &&& w.slots[s].phase == Phase::Free
                &&& w.copied == v.copied && w.in_flight == v.in_flight - 1
                &&& v.error is Some ==> w.error == v.error
                &&& v.error is None && result >= 0 && slot.phase == Phase::Reading ==> w.error
                    == Some(
                    RingError::ShortRead { offset: slot.offset, expected: slot.len, got: result },
                )
                &&& v.error is None && result >= 0 && slot.phase == Phase::Writing ==> w.error
                    == Some(
                    RingError::ShortWrite { offset: slot.offset, expected: slot.len, got: result },
                )
                &&& v.error is None && i32::MIN < result < 0 ==> (w.error matches Some(
                    RingError::Operation { code, offset },
                ) && code == -result && offset == slot.offset)
            }
        }),
{
    lemma_busy_positive(v.slots, s);
}

proof fn lemma_busy_positive(slots: Seq<Slot>, s: int)
    requires
        0 <= s < slots.len(),
        slots[s].phase != Phase::Free,
    ensures
        busy_count(slots) > 0,
{
    lemma_busy_none(slots);
}

/// The texts of the failures say what failed and where.
pub proof fn law_failures_say_where(code: i32, offset: u64, expected: u64, got: i32)
    ensures
        (RingError::Operation { code, offset }).words() == "io_uring operation failed at offset "@
            + decimal(offset as nat),
        (RingError::ShortRead { offset, expected, got }).words() == "short read at offset "@
            + decimal(offset as nat) + ": expected "@ + decimal(expected as nat) + " bytes, got "@
            + signed_decimal(got as int),
        (RingError::ShortWrite { offset, expected, got }).words() == "short write at offset "@
            + decimal(offset as nat) + ": expected "@ + decimal(expected as nat) + " bytes, got "@
            + signed_decimal(got as int),
{
}

/// A ring begins with all its chunks to copy, every slot free and nothing done.
pub proof fn law_a_ring_begins_with_nothing_done(
    chunks: Seq<CopyChunk>,
    slots: nat,
    slot_size: nat,
)
    ensures
        ({
            let v = fresh_ring(chunks, slots, slot_size);
            &&& v.chunks == chunks
            &&& v.next == 0
            &&& v.slots.len() == slots
            &&& forall|i: int| 0 <= i < slots ==> (#[trigger] v.slots[i]).phase == Phase::Free
            &&& v.in_flight == 0
            &&& v.error is None
            &&& v.copied == 0
            &&& v.slot_size == slot_size
        }),
{
}

/// A tag holds the slot in its low half and the phase above it.
pub proof fn law_tags_hold_slot_and_phase(tag: u64)
    ensures
        user_data_slot(tag) == tag % 0x1_0000_0000,
        user_data_phase(tag) == Phase::Reading <==> tag / 0x1_0000_0000 == 1,
        user_data_phase(tag) == Phase::Writing <==> tag / 0x1_0000_0000 == 2,
{
}

} // verus!
