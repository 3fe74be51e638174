//! What a copy does to the destination: several rings that read from one device
//! and write to another, their operations completing in any order.

use vstd::prelude::*;
use crate::chunks::{
    BlockRange, CopyChunk, aligned_up, blocks_cover, byte_count, chunk_has, chunks_cover,
    ends_fit, law_prepared_chunks_are_the_blocks, law_sequential_chunks_cover_the_device,
    lemma_count_concat, prepared, slices,
};
use crate::ring::{Phase, RingView, lemma_busy_none, lemma_completed_wf, lemma_filled_wf};

verus! {

/// A copy in progress: the rings, the contents of their buffers, and the two
/// devices.
pub ghost struct CopyState {
    pub rings: Seq<RingView>,
    pub buffers: Seq<Seq<Seq<u8>>>,
    pub src: Seq<u8>,
    pub dst: Seq<u8>,
}

/// What happens next in a copy.
pub ghost enum CopyEvent {
    /// A ring fills its free slots.
    Fill { ring: int },
    /// An operation completes. `left` is what the written stretch of the
    /// destination holds after a write that did not complete in full.
    Done { ring: int, slot: int, result: i32, left: Seq<u8> },
}

/// `device` with `bytes` written at `offset`.
pub open spec fn overwritten(device: Seq<u8>, offset: int, bytes: Seq<u8>) -> Seq<u8> {
    Seq::new(
        device.len(),
        |i: int|
            if offset <= i < offset + bytes.len() {
                bytes[i - offset]
            } else {
                device[i]
            },
    )
}

impl CopyState {
    /// Whether the event can happen: an operation completes only where one is in
    /// flight; a full read or write lies within the device; a write that did not
    /// complete in full leaves each byte as it was or as it was to be.
    pub open spec fn allows(self, event: CopyEvent) -> bool {
        match event {
            CopyEvent::Fill { ring } => 0 <= ring < self.rings.len(),
            CopyEvent::Done { ring, slot, result, left } => {
                &&& 0 <= ring < self.rings.len()
                &&& 0 <= slot < self.rings[ring].slots.len()
                &&& self.rings[ring].slots[slot].phase != Phase::Free
                &&& {
                    let s = self.rings[ring].slots[slot];
                    let end = s.offset + s.len;
                    &&& s.phase == Phase::Reading && result == s.len ==> end <= self.src.len()
                    &&& s.phase == Phase::Writing && result == s.len ==> end <= self.dst.len()
                    &&& s.phase == Phase::Writing && result != s.len ==> {
                        &&& left.len() == s.len
                        &&& forall|i: int|
                            0 <= i < left.len() && s.offset + i < self.dst.len() ==> {
                                ||| #[trigger] left[i] == self.dst[s.offset + i]
                                ||| left[i] == self.buffers[ring][slot][i]
                            }
                    }
                }
            },
        }
    }

    /// The copy after the event.
    pub open spec fn after(self, event: CopyEvent) -> CopyState {
        match event {
            CopyEvent::Fill { ring } => CopyState {
                rings: self.rings.update(ring, self.rings[ring].filled()),
                ..self
            },
            CopyEvent::Done { ring, slot, result, left } => {
                let s = self.rings[ring].slots[slot];
                let full = result == s.len;
                CopyState {
                    rings: self.rings.update(ring, self.rings[ring].completed(slot, result)),
                    buffers: if s.phase == Phase::Reading && full {
                        self.buffers.update(
                            ring,
                            self.buffers[ring].update(
                                slot,
                                self.src.subrange(s.offset as int, s.offset + s.len),
                            ),
                        )
                    } else {
                        self.buffers
                    },
                    dst: if s.phase != Phase::Writing {
                        self.dst
                    } else if full {
                        overwritten(self.dst, s.offset as int, self.buffers[ring][slot])
                    } else {
                        overwritten(self.dst, s.offset as int, left)
                    },
                    ..self
                }
            },
        }
    }

    /// The copy after a sequence of events.
    pub open spec fn run(self, events: Seq<CopyEvent>) -> CopyState
        decreases events.len(),
    {
        if events.len() == 0 {
            self
        } else {
            self.run(events.drop_last()).after(events.last())
        }
    }

    /// Whether each event can happen when its turn comes.
    pub open spec fn can_run(self, events: Seq<CopyEvent>) -> bool
        decreases events.len(),
    {
        events.len() > 0 ==> {
            &&& self.can_run(events.drop_last())
            &&& self.run(events.drop_last()).allows(events.last())
        }
    }

    /// Whether no ring has started, each with a buffer per slot.
    pub open spec fn fresh(self) -> bool {
        &&& self.buffers.len() == self.rings.len()
        &&& forall|r: int|
            0 <= r < self.rings.len() ==> {
                let ring = #[trigger] self.rings[r];
                &&& ring.wf()
                &&& ring.next == 0
                &&& ring.error is None
                &&& ring.copied == 0
                &&& self.buffers[r].len() == ring.slots.len()
                &&& forall|s: int|
                    0 <= s < ring.slots.len() ==> (#[trigger] ring.slots[s]).phase == Phase::Free
            }
    }

    /// Whether every ring has copied all its chunks.
    pub open spec fn succeeded(self) -> bool {
        forall|r: int| 0 <= r < self.rings.len() ==> (#[trigger] self.rings[r]).succeeded()
    }

    /// Whether a byte lies in a chunk of one of the rings.
    pub open spec fn covers(self, offset: int) -> bool {
        exists|r: int|
            0 <= r < self.rings.len() && chunks_cover((#[trigger] self.rings[r]).chunks, offset)
    }

    /// Whether the destination holds the chunk as the source does.
    pub open spec fn holds(self, chunk: CopyChunk) -> bool {
        &&& chunk.offset + chunk.len <= self.src.len()
        &&& chunk.offset + chunk.len <= self.dst.len()
        &&& forall|o: int| chunk_has(chunk, o) ==> #[trigger] self.dst[o] == self.src[o]
    }

    /// Whether a chunk is in flight on a ring.
    pub open spec fn in_flight(self, r: int, chunk: CopyChunk) -> bool {
        exists|s: int| 0 <= s < self.rings[r].slots.len() && slot_carries(
            #[trigger] self.rings[r].slots[s],
            chunk,
        )
    }

    /// What holds of one ring at every moment.
    pub open spec fn ring_inv(self, r: int) -> bool {
        let ring = self.rings[r];
        &&& ring.wf()
        &&& self.buffers[r].len() == ring.slots.len()
        &&& forall|s: int|
            0 <= s < ring.slots.len() && (#[trigger] ring.slots[s]).phase != Phase::Free
                ==> exists|i: int|
                0 <= i < ring.next && slot_carries(ring.slots[s], #[trigger] ring.chunks[i])
        &&& forall|s: int|
            0 <= s < ring.slots.len() && (#[trigger] ring.slots[s]).phase == Phase::Writing ==> {
                let slot = ring.slots[s];
                &&& slot.offset + slot.len <= self.src.len()
                &&& self.buffers[r][s] == self.src.subrange(
                    slot.offset as int,
                    slot.offset + slot.len,
                )
            }
        &&& ring.error is None ==> forall|i: int|
            0 <= i < ring.next ==> self.holds(#[trigger] ring.chunks[i]) || self.in_flight(
                r,
                ring.chunks[i],
            )
    }

    /// What holds of the copy at every moment, if the destination was `before`
    /// when it began.
    pub open spec fn inv(self, before: Seq<u8>) -> bool {
        &&& self.buffers.len() == self.rings.len()
        &&& forall|r: int| 0 <= r < self.rings.len() ==> #[trigger] self.ring_inv(r)
        &&& self.dst.len() == before.len()
        &&& forall|o: int|
            0 <= o < before.len() && !self.covers(o) ==> #[trigger] self.dst[o] == before[o]
    }
}

/// Whether a slot is busy with the chunk.
pub open spec fn slot_carries(slot: crate::ring::Slot, chunk: CopyChunk) -> bool {
    &&& slot.phase != Phase::Free
    &&& slot.offset == chunk.offset
    &&& slot.len == chunk.len
}

proof fn lemma_fill_keeps(m: CopyState, r: int, v: RingView, from: int)
    requires
        0 <= r < m.rings.len(),
        m.rings[r] == v,
        m.ring_inv(r),
        v.error is None,
        0 <= from,
    ensures
        (CopyState { rings: m.rings.update(r, v.filled_from(from)), ..m }).ring_inv(r),
    decreases v.slots.len() - from,
{
    lemma_filled_wf(v, from);
    if from < v.slots.len() && v.next < v.chunks.len() {
        if v.slots[from].phase == Phase::Free {
            let w = v.started(from);
            let n = CopyState { rings: m.rings.update(r, w), ..m };
            lemma_filled_wf(v, from);
            crate::ring::lemma_started_wf(v, from);
            assert(n.rings[r] == w);
            assert forall|s: int|
                0 <= s < w.slots.len() && (#[trigger] w.slots[s]).phase != Phase::Free implies exists|
                i: int|
                0 <= i < w.next && slot_carries(w.slots[s], #[trigger] w.chunks[i]) by {
                if s == from {
                    assert(slot_carries(w.slots[s], w.chunks[v.next as int]));
                } else {
                    assert(w.slots[s] == v.slots[s]);
                    let i = choose|i: int|
                        0 <= i < v.next && slot_carries(v.slots[s], #[trigger] v.chunks[i]);
                    assert(slot_carries(w.slots[s], w.chunks[i]));
                }
            }
            assert forall|s: int|
                0 <= s < w.slots.len() && (#[trigger] w.slots[s]).phase == Phase::Writing implies {
                let slot = w.slots[s];
                &&& slot.offset + slot.len <= n.src.len()
                &&& n.buffers[r][s] == n.src.subrange(slot.offset as int, slot.offset + slot.len)
            } by {
                assert(s != from);
                assert(w.slots[s] == v.slots[s]);
            }
            assert forall|i: int| 0 <= i < w.next implies n.holds(#[trigger] w.chunks[i])
                || n.in_flight(r, w.chunks[i]) by {
                if i == v.next {
                    assert(slot_carries(n.rings[r].slots[from], w.chunks[i]));
                } else {
                    assert(v.chunks[i] == w.chunks[i]);
                    if m.holds(v.chunks[i]) {
                        assert(n.holds(w.chunks[i]));
                    } else {
                        assert(m.in_flight(r, v.chunks[i]));
                        let s = choose|s: int|
                            0 <= s < m.rings[r].slots.len() && slot_carries(
                                #[trigger] m.rings[r].slots[s],
                                v.chunks[i],
                            );
                        assert(s != from);
                        assert(n.rings[r].slots[s] == m.rings[r].slots[s]);
                    }
                }
            }
            assert(n.ring_inv(r));
            lemma_fill_keeps(n, r, w, from + 1);
            assert(n.rings.update(r, w.filled_from(from + 1)) =~= m.rings.update(
                r,
                v.filled_from(from),
            ));
        } else {
            lemma_fill_keeps(m, r, v, from + 1);
        }
    } else {
        assert(m.rings.update(r, v) =~= m.rings);
    }
}

/// A step that only makes bytes of the destination equal to the source, and
/// leaves a ring and its buffers alone, keeps what holds of that ring.
proof fn lemma_other_ring(m: CopyState, n: CopyState, r: int)
    requires
        0 <= r < m.rings.len(),
        m.ring_inv(r),
        n.rings.len() == m.rings.len(),
        n.rings[r] == m.rings[r],
        n.buffers[r] == m.buffers[r],
        n.src == m.src,
        n.dst.len() == m.dst.len(),
        forall|o: int|
            0 <= o < m.dst.len() && 0 <= o < m.src.len() && m.dst[o] == m.src[o]
                ==> #[trigger] n.dst[o] == m.src[o],
    ensures
        n.ring_inv(r),
{
    let ring = m.rings[r];
    if ring.error is None {
        assert forall|i: int| 0 <= i < ring.next implies n.holds(#[trigger] ring.chunks[i])
            || n.in_flight(r, ring.chunks[i]) by {
            if m.holds(ring.chunks[i]) {
                assert forall|o: int| chunk_has(ring.chunks[i], o) implies #[trigger] n.dst[o]
                    == n.src[o] by {
                    assert(m.dst[o] == m.src[o]);
                }
            } else {
                let s = choose|s: int|
                    0 <= s < m.rings[r].slots.len() && slot_carries(
                        #[trigger] m.rings[r].slots[s],
                        ring.chunks[i],
                    );
                assert(slot_carries(n.rings[r].slots[s], ring.chunks[i]));
            }
        }
    }
}

#[verifier::rlimit(40)]
proof fn lemma_done_keeps(m: CopyState, r: int, slot: int, result: i32, left: Seq<u8>)
    requires
        0 <= r < m.rings.len(),
        m.buffers.len() == m.rings.len(),
        m.ring_inv(r),
        m.allows(CopyEvent::Done { ring: r, slot, result, left }),
    ensures
        ({
            let n = m.after(CopyEvent::Done { ring: r, slot, result, left });
            &&& n.ring_inv(r)
            &&& n.dst.len() == m.dst.len()
            &&& forall|o: int|
                0 <= o < m.dst.len() && 0 <= o < m.src.len() && m.dst[o] == m.src[o]
                    ==> #[trigger] n.dst[o] == m.src[o]
            &&& forall|o: int|
                0 <= o < m.dst.len() && !chunks_cover(m.rings[r].chunks, o) ==> #[trigger] n.dst[o]
                    == m.dst[o]
        }),
{
    let event = CopyEvent::Done { ring: r, slot, result, left };
    let n = m.after(event);
    let v = m.rings[r];
    let w = v.completed(slot, result);
    lemma_completed_wf(v, slot, result);
    let s0 = v.slots[slot];
    let full = result == s0.len;
    assert(n.rings[r] == w);
    let owner = choose|i: int| 0 <= i < v.next && slot_carries(s0, #[trigger] v.chunks[i]);
    assert(slot_carries(s0, v.chunks[owner]));
    // Every byte of the destination keeps its value or takes that of the source.
    assert forall|o: int| 0 <= o < m.dst.len() && 0 <= o < m.src.len() && m.dst[o]
        == m.src[o] implies #[trigger] n.dst[o] == m.src[o] by {
        if s0.phase == Phase::Writing && s0.offset <= o < s0.offset + s0.len {
            let k = o - s0.offset;
            assert(m.buffers[r][slot][k] == m.src[o]);
            if !full {
                assert(left[k] == m.dst[s0.offset + k] || left[k] == m.buffers[r][slot][k]);
            }
        }
    }
    assert forall|o: int| 0 <= o < m.dst.len() && !chunks_cover(v.chunks, o) implies #[trigger] n.dst[o]
        == m.dst[o] by {
        assert(!chunk_has(v.chunks[owner], o));
    }
    assert forall|s: int|
        0 <= s < w.slots.len() && (#[trigger] w.slots[s]).phase != Phase::Free implies exists|i: int|
        0 <= i < w.next && slot_carries(w.slots[s], #[trigger] w.chunks[i]) by {
        if s == slot {
            assert(slot_carries(w.slots[s], w.chunks[owner]));
        } else {
            assert(w.slots[s] == v.slots[s]);
            let i = choose|i: int|
                0 <= i < v.next && slot_carries(v.slots[s], #[trigger] v.chunks[i]);
            assert(slot_carries(w.slots[s], w.chunks[i]));
        }
    }
    assert forall|s: int|
        0 <= s < w.slots.len() && (#[trigger] w.slots[s]).phase == Phase::Writing implies {
        let x = w.slots[s];
        &&& x.offset + x.len <= n.src.len()
        &&& n.buffers[r][s] == n.src.subrange(x.offset as int, x.offset + x.len)
    } by {
        if s != slot {
            assert(w.slots[s] == v.slots[s]);
        }
    }
    if w.error is None {
        assert(v.error is None);
        assert(full);
        assert forall|i: int| 0 <= i < w.next implies n.holds(#[trigger] w.chunks[i])
            || n.in_flight(r, w.chunks[i]) by {
            let c = v.chunks[i];
            if m.holds(c) {
                assert forall|o: int| chunk_has(c, o) implies #[trigger] n.dst[o] == n.src[o] by {
                    assert(m.dst[o] == m.src[o]);
                }
                assert(n.holds(c));
            } else {
                assert(m.in_flight(r, c));
                let s = choose|s: int|
                    0 <= s < m.rings[r].slots.len() && slot_carries(
                        #[trigger] m.rings[r].slots[s],
                        c,
                    );
                if s == slot && s0.phase == Phase::Writing {
                    assert forall|o: int| chunk_has(c, o) implies #[trigger] n.dst[o]
                        == n.src[o] by {
                        let k = o - s0.offset;
                        assert(m.buffers[r][slot][k] == m.src[o]);
                    }
                    assert(n.holds(c));
                } else if s == slot {
                    assert(slot_carries(n.rings[r].slots[s], c));
                } else {
                    assert(n.rings[r].slots[s] == m.rings[r].slots[s]);
                }
            }
        }
    }
}

proof fn lemma_step(m: CopyState, event: CopyEvent, before: Seq<u8>)
    requires
        m.inv(before),
        m.allows(event),
    ensures
        m.after(event).inv(before),
        m.after(event).src == m.src,
        m.after(event).rings.len() == m.rings.len(),
        forall|r: int|
            0 <= r < m.rings.len() ==> (#[trigger] m.after(event).rings[r]).chunks
                == m.rings[r].chunks,
{
    let n = m.after(event);
    match event {
        CopyEvent::Fill { ring } => {
            assert(m.ring_inv(ring));
            let v = m.rings[ring];
            lemma_filled_wf(v, 0);
            if v.error is None {
                lemma_fill_keeps(m, ring, v, 0);
            } else {
                assert(m.rings.update(ring, v) =~= m.rings);
            }
            assert(n.ring_inv(ring));
            assert forall|r: int| 0 <= r < n.rings.len() implies #[trigger] n.ring_inv(r) by {
                assert(m.ring_inv(r));
                if r != ring {
                    lemma_other_ring(m, n, r);
                }
            }
        },
        CopyEvent::Done { ring, slot, result, left } => {
            assert(m.ring_inv(ring));
            lemma_completed_wf(m.rings[ring], slot, result);
            lemma_done_keeps(m, ring, slot, result, left);
            assert forall|r: int| 0 <= r < n.rings.len() implies #[trigger] n.ring_inv(r) by {
                assert(m.ring_inv(r));
                if r != ring {
                    lemma_other_ring(m, n, r);
                }
            }
        },
    }
    assert forall|o: int| m.covers(o) <==> n.covers(o) by {
        if m.covers(o) {
            let r = choose|r: int|
                0 <= r < m.rings.len() && chunks_cover((#[trigger] m.rings[r]).chunks, o);
            assert(chunks_cover(n.rings[r].chunks, o));
        }
        if n.covers(o) {
            let r = choose|r: int|
                0 <= r < n.rings.len() && chunks_cover((#[trigger] n.rings[r]).chunks, o);
            assert(chunks_cover(m.rings[r].chunks, o));
        }
    }
    assert forall|o: int| 0 <= o < before.len() && !n.covers(o) implies #[trigger] n.dst[o]
        == before[o] by {
        assert(m.dst[o] == before[o]);
        match event {
            CopyEvent::Fill { ring } => {},
            CopyEvent::Done { ring, slot, result, left } => {
                if chunks_cover(m.rings[ring].chunks, o) {
                    assert(m.covers(o));
                }
            },
        }
    }
}

proof fn lemma_run(m: CopyState, events: Seq<CopyEvent>)
    requires
        m.fresh(),
        m.can_run(events),
    ensures
        m.run(events).inv(m.dst),
        m.run(events).src == m.src,
        m.run(events).rings.len() == m.rings.len(),
        forall|r: int|
            0 <= r < m.rings.len() ==> (#[trigger] m.run(events).rings[r]).chunks
                == m.rings[r].chunks,
    decreases events.len(),
{
    if events.len() == 0 {
        assert forall|r: int| 0 <= r < m.rings.len() implies #[trigger] m.ring_inv(r) by {
            let ring = m.rings[r];
            assert(ring.wf());
        }
    } else {
        lemma_run(m, events.drop_last());
        let n = m.run(events.drop_last());
        lemma_step(n, events.last(), m.dst);
        assert forall|r: int| 0 <= r < m.rings.len() implies (#[trigger] m.run(
            events,
        ).rings[r]).chunks == m.rings[r].chunks by {
            assert(n.after(events.last()).rings[r].chunks == n.rings[r].chunks);
        }
    }
}

/// However the operations of the rings interleave: whatever happens, no byte
/// outside the chunks changes; and once every ring has succeeded, every byte in
/// a chunk is the byte of the source.
pub proof fn law_copy_transfers_the_chunks(start: CopyState, events: Seq<CopyEvent>)
    requires
        start.fresh(),
        start.can_run(events),
    ensures
        ({
            let end = start.run(events);
            &&& end.dst.len() == start.dst.len()
            &&& forall|o: int|
                0 <= o < start.dst.len() && !start.covers(o) ==> #[trigger] end.dst[o]
                    == start.dst[o]
            &&& end.succeeded() ==> forall|o: int|
                #[trigger] start.covers(o) ==> 0 <= o < start.src.len() && o < start.dst.len()
                    && end.dst[o] == start.src[o]
        }),
{
    lemma_run(start, events);
    let end = start.run(events);
    assert forall|o: int| start.covers(o) <==> end.covers(o) by {
        if start.covers(o) {
            let r = choose|r: int|
                0 <= r < start.rings.len() && chunks_cover((#[trigger] start.rings[r]).chunks, o);
            assert(chunks_cover(end.rings[r].chunks, o));
        }
        if end.covers(o) {
            let r = choose|r: int|
                0 <= r < end.rings.len() && chunks_cover((#[trigger] end.rings[r]).chunks, o);
            assert(chunks_cover(start.rings[r].chunks, o));
        }
    }
    assert forall|o: int| 0 <= o < start.dst.len() && !start.covers(o) implies #[trigger] end.dst[o]
        == start.dst[o] by {
        assert(!end.covers(o));
    }
    if end.succeeded() {
        assert forall|o: int| #[trigger] start.covers(o) implies 0 <= o < start.src.len() && o
            < start.dst.len() && end.dst[o] == start.src[o] by {
            let r = choose|r: int|
                0 <= r < end.rings.len() && chunks_cover((#[trigger] end.rings[r]).chunks, o);
            let ring = end.rings[r];
            let i = choose|i: int|
                0 <= i < ring.chunks.len() && chunk_has(#[trigger] ring.chunks[i], o);
            assert(end.ring_inv(r));
            assert(ring.succeeded());
            lemma_busy_none(ring.slots);
            assert(end.holds(ring.chunks[i]) || end.in_flight(r, ring.chunks[i]));
            if end.in_flight(r, ring.chunks[i]) {
                let s = choose|s: int|
                    0 <= s < end.rings[r].slots.len() && slot_carries(
                        #[trigger] end.rings[r].slots[s],
                        ring.chunks[i],
                    );
                assert(ring.slots[s].phase == Phase::Free);
            }
        }
    }
}

/// The bytes that the rings have copied together.
pub open spec fn copied_by(rings: Seq<RingView>) -> nat
    decreases rings.len(),
{
    if rings.len() == 0 {
        0
    } else {
        copied_by(rings.drop_last()) + rings.last().copied
    }
}

/// The bytes that the rings are to copy together.
pub open spec fn planned_for(rings: Seq<RingView>) -> nat
    decreases rings.len(),
{
    if rings.len() == 0 {
        0
    } else {
        planned_for(rings.drop_last()) + byte_count(rings.last().chunks)
    }
}

proof fn lemma_copied_update(rings: Seq<RingView>, r: int, v: RingView)
    requires
        0 <= r < rings.len(),
    ensures
        copied_by(rings.update(r, v)) + rings[r].copied == copied_by(rings) + v.copied,
    decreases rings.len(),
{
    let head = rings.drop_last();
    if r < head.len() {
        lemma_copied_update(head, r, v);
        assert(rings.update(r, v).drop_last() =~= head.update(r, v));
    } else {
        assert(rings.update(r, v).drop_last() =~= head);
    }
}

proof fn lemma_planned_same(a: Seq<RingView>, b: Seq<RingView>)
    requires
        a.len() == b.len(),
        forall|r: int| 0 <= r < a.len() ==> (#[trigger] b[r]).chunks == a[r].chunks,
    ensures
        planned_for(a) == planned_for(b),
    decreases a.len(),
{
    if a.len() > 0 {
        assert forall|r: int| 0 <= r < a.drop_last().len() implies (#[trigger] b.drop_last()[r]).chunks
            == a.drop_last()[r].chunks by {
            assert(b[r].chunks == a[r].chunks);
        }
        lemma_planned_same(a.drop_last(), b.drop_last());
        assert(b[a.len() - 1].chunks == a[a.len() - 1].chunks);
    }
}

proof fn lemma_copied_within_plan(rings: Seq<RingView>)
    requires
        forall|r: int| 0 <= r < rings.len() ==> (#[trigger] rings[r]).wf(),
    ensures
        copied_by(rings) <= planned_for(rings),
        (forall|r: int| 0 <= r < rings.len() ==> (#[trigger] rings[r]).succeeded())
            ==> copied_by(rings) == planned_for(rings),
    decreases rings.len(),
{
    if rings.len() > 0 {
        let head = rings.drop_last();
        assert forall|r: int| 0 <= r < head.len() implies (#[trigger] head[r]).wf() by {
            assert(rings[r].wf());
        }
        lemma_copied_within_plan(head);
        let last = rings[rings.len() - 1];
        assert(last.wf());
        let n = last.next as int;
        lemma_count_concat(last.chunks.take(n), last.chunks.skip(n));
        assert(last.chunks.take(n) + last.chunks.skip(n) =~= last.chunks);
        if forall|r: int| 0 <= r < rings.len() ==> (#[trigger] rings[r]).succeeded() {
            assert forall|r: int| 0 <= r < head.len() implies (#[trigger] head[r]).succeeded() by {
                assert(rings[r].succeeded());
            }
            assert(last.succeeded());
            assert(last.chunks.take(n) =~= last.chunks);
            lemma_busy_none(last.slots);
        }
    }
}

proof fn lemma_copied_grows(m: CopyState, event: CopyEvent, before: Seq<u8>)
    requires
        m.inv(before),
        m.allows(event),
    ensures
        copied_by(m.rings) <= copied_by(m.after(event).rings),
{
    match event {
        CopyEvent::Fill { ring } => {
            assert(m.ring_inv(ring));
            lemma_filled_wf(m.rings[ring], 0);
            lemma_copied_update(m.rings, ring, m.rings[ring].filled());
        },
        CopyEvent::Done { ring, slot, result, left } => {
            lemma_copied_update(m.rings, ring, m.rings[ring].completed(slot, result));
        },
    }
}

/// What a copy reports of its progress never falls and never passes the bytes of the
/// chunks, and once every ring has succeeded it has reached them. `i` is how many of the
/// events have happened at some earlier moment.
pub proof fn law_progress_only_grows(start: CopyState, events: Seq<CopyEvent>, i: int)
    requires
        start.fresh(),
        start.can_run(events),
        0 <= i <= events.len(),
    ensures
        start.can_run(events.take(i)),
        copied_by(start.run(events.take(i)).rings) <= copied_by(start.run(events).rings),
        copied_by(start.run(events).rings) <= planned_for(start.rings),
        start.run(events).succeeded() ==> copied_by(start.run(events).rings) == planned_for(
            start.rings,
        ),
    decreases events.len(),
{
    let end = start.run(events);
    lemma_run(start, events);
    assert forall|r: int| 0 <= r < end.rings.len() implies (#[trigger] end.rings[r]).wf() by {
        assert(end.ring_inv(r));
    }
    lemma_copied_within_plan(end.rings);
    lemma_planned_same(start.rings, end.rings);
    if i == events.len() {
        assert(events.take(i) =~= events);
    } else {
        let earlier = events.drop_last();
        law_progress_only_grows(start, earlier, i);
        assert(earlier.take(i) =~= events.take(i));
        lemma_run(start, earlier);
        lemma_copied_grows(start.run(earlier), events.last(), start.dst);
    }
}

/// Whether the rings of a fresh copy carry exactly the given chunks.
pub open spec fn carries(start: CopyState, chunks: Seq<CopyChunk>) -> bool {
    forall|o: int| #[trigger] start.covers(o) <==> chunks_cover(chunks, o)
}

/// Copying the changed blocks restores the destination: if the two devices
/// differed in no block outside the given ranges, a copy of the prepared chunks
/// that succeeds makes them equal.
pub proof fn law_block_copy_restores(
    start: CopyState,
    events: Seq<CopyEvent>,
    blocks: Seq<BlockRange>,
    granularity: nat,
)
    requires
        granularity > 0,
        ends_fit(blocks, granularity as int),
        start.fresh(),
        start.can_run(events),
        carries(start, prepared(blocks, granularity)),
        start.src.len() == start.dst.len(),
        forall|o: int|
            0 <= o < start.src.len() && #[trigger] start.src[o] != start.dst[o] ==> blocks_cover(
                blocks,
                o / granularity as int,
            ),
        start.run(events).succeeded(),
    ensures
        start.run(events).dst == start.src,
{
    law_copy_transfers_the_chunks(start, events);
    law_prepared_chunks_are_the_blocks(blocks, granularity);
    let end = start.run(events);
    assert forall|o: int| 0 <= o < start.src.len() implies end.dst[o] == start.src[o] by {
        if !start.covers(o) {
            assert(!chunks_cover(prepared(blocks, granularity), o));
            assert(start.src[o] == start.dst[o]);
            assert(end.dst[o] == start.dst[o]);
        } else {
            assert(end.dst[o] == start.src[o]);
        }
    }
    assert(end.dst =~= start.src);
}

/// A full copy that succeeds makes the destination begin with the source, and equal to it
/// where the two have one size.
pub proof fn law_full_copy_transfers_all(
    start: CopyState,
    events: Seq<CopyEvent>,
    size: nat,
    chunk_size: nat,
)
    requires
        size <= u64::MAX - 4095,
        chunk_size > 0,
        start.fresh(),
        start.can_run(events),
        carries(start, slices(0, aligned_up(size), chunk_size)),
        start.src.len() == size,
        size <= start.dst.len(),
        start.run(events).succeeded(),
    ensures
        start.run(events).dst.take(size as int) == start.src,
        start.dst.len() == size ==> start.run(events).dst == start.src,
{
    law_copy_transfers_the_chunks(start, events);
    law_sequential_chunks_cover_the_device(size, chunk_size);
    let end = start.run(events);
    assert forall|o: int| 0 <= o < size implies end.dst[o] == start.src[o] by {
        assert(chunks_cover(slices(0, aligned_up(size), chunk_size), o));
        assert(start.covers(o));
    }
    assert(end.dst.take(size as int) =~= start.src);
    if start.dst.len() == size {
        assert(end.dst =~= start.src);
    }
}

} // verus!
