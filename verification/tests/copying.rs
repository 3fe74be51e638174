use schelk::chunks::{BlockRange, CopyChunk, prepare_chunks, sequential_chunks, sort_by_start};
use schelk::io::{
    CopyPlan, Poll, check_alignment, check_blocks_fit, copy_blocks, first_failure, full_copy,
    get_size, open_failed, poll_copy, progress_percent, read_superblock, slot_offset,
    buffer_pool_size, zero,
};
use schelk::ring::{
    Batch, Completion, Phase, Ring, RingError, Submission, decode_user_data, encode_user_data,
};
use schelk::volume;

fn r(start: u64, len: u64) -> BlockRange {
    BlockRange { start, len }
}

fn c(offset: u64, len: u64) -> CopyChunk {
    CopyChunk { offset, len }
}

#[test]
fn ranges_are_sorted_stably() {
    let sorted = sort_by_start(&vec![r(9, 1), r(3, 1), r(9, 2), r(0, 5), r(3, 7)]);
    assert_eq!(sorted, [r(0, 5), r(3, 1), r(3, 7), r(9, 1), r(9, 2)]);
}

#[test]
fn sorting_agrees_with_the_standard_library() {
    let mut list: Vec<BlockRange> = Vec::new();
    let mut x: u64 = 12345;
    for i in 0..1000u64 {
        x = x.wrapping_mul(6364136223846793005).wrapping_add(1442695040888963407);
        list.push(r((x >> 33) % 97, i));
    }
    let sorted = sort_by_start(&list);
    let mut expected = list.clone();
    expected.sort_by_key(|range| range.start);
    assert_eq!(sorted, expected);
}

#[test]
fn adjacent_ranges_are_joined_and_cut() {
    assert!(prepare_chunks(&vec![], 4096).is_empty());
    assert_eq!(prepare_chunks(&vec![r(2, 1), r(0, 2)], 4096), [c(0, 3 * 4096)]);
    assert_eq!(prepare_chunks(&vec![r(0, 2), r(3, 1)], 4096), [c(0, 8192), c(3 * 4096, 4096)]);
    // 65 blocks of 4096 bytes: 64 fill a chunk of 256 KiB.
    assert_eq!(prepare_chunks(&vec![r(1, 65)], 4096), [c(4096, 262144), c(266240, 4096)]);
    // Overlapping ranges stay apart.
    assert_eq!(prepare_chunks(&vec![r(0, 2), r(1, 2)], 4096), [c(0, 8192), c(4096, 8192)]);
    // Blocks larger than the target are copied one by one.
    assert_eq!(
        prepare_chunks(&vec![r(0, 2)], 2 * 1024 * 1024),
        [c(0, 2097152), c(2097152, 2097152)]
    );
    // A granularity that does not divide the target.
    assert_eq!(prepare_chunks(&vec![r(0, 3)], 100 * 1024), [c(0, 204800), c(204800, 102400)]);
}

#[test]
fn chunks_of_disjoint_ranges_ascend() {
    let blocks = vec![r(500, 130), r(7, 0), r(200, 70), r(0, 3), r(270, 1), r(5, 2)];
    let chunks = prepare_chunks(&blocks, 4096);
    assert_eq!(chunks.len(), 7);
    for pair in chunks.windows(2) {
        assert!(pair[0].offset + pair[0].len <= pair[1].offset);
    }
    // Overlapping ranges can go back.
    let chunks = prepare_chunks(&vec![r(0, 100), r(1, 1)], 4096);
    assert_eq!(chunks, [c(0, 262144), c(262144, 147456), c(4096, 4096)]);
}

#[test]
fn a_device_is_cut_into_chunks() {
    assert!(sequential_chunks(0, 8192).is_empty());
    assert_eq!(sequential_chunks(8192, 8192), [c(0, 8192)]);
    assert_eq!(sequential_chunks(8193, 8192), [c(0, 8192), c(8192, 4096)]);
}

#[test]
fn plans_spread_chunks_over_rings() {
    let plan = full_copy(5 * 2097152);
    let sizes: Vec<usize> = plan.rings.iter().map(|ring| ring.len()).collect();
    assert_eq!(sizes, [2, 2, 1, 0]);
    assert_eq!(plan.total_bytes, 5 * 2097152);
    assert_eq!((plan.sq_depth, plan.slots_per_ring, plan.slot_size), (256, 64, 2097152));
    assert_eq!(full_copy(0).rings.len(), 1);
    assert_eq!(volume::full_copy(4096).rings[0], [c(0, 4096)]);
    let blocks = copy_blocks(&vec![r(0, 1), r(2, 1)], 4096).unwrap();
    assert_eq!(blocks.rings.len(), 2);
    assert_eq!((blocks.sq_depth, blocks.slots_per_ring, blocks.slot_size), (512, 128, 262144));
    assert_eq!(blocks.total_bytes, 8192);
    assert!(volume::copy_blocks(&vec![], 4096).is_none());
    assert_eq!(copy_blocks(&vec![r(0, 1)], 300 * 1024).unwrap().slot_size, 307200);
}

#[test]
fn misaligned_chunks_are_refused() {
    assert!(check_alignment(&vec![c(0, 4096), c(8192, 4096)]).is_ok());
    let e = check_alignment(&vec![c(0, 4096), c(512, 1024), c(1, 1)]).unwrap_err();
    assert_eq!(
        e.message(),
        "O_DIRECT requires 4096-byte aligned offsets and lengths, got offset=512 len=1024"
    );
}

#[test]
fn ranges_that_do_not_fit_are_found() {
    assert!(check_blocks_fit(&vec![r(0, 1)], 4096));
    assert!(!check_blocks_fit(&vec![r(0, 1)], 0));
    assert!(!check_blocks_fit(&vec![r(0, 1)], 1 << 40));
    assert!(!check_blocks_fit(&vec![r(u64::MAX, 1)], 4096));
    assert!(!check_blocks_fit(&vec![r(1 << 52, 1)], 4096));
    assert!(check_blocks_fit(&vec![r((1 << 52) - 2, 1)], 4096));
    assert!(!check_blocks_fit(&vec![r(0, 1 << 51), r(0, 1 << 51)], 4096));
}

#[test]
fn tags_roundtrip() {
    for slot in [0usize, 1, 63, 127, 0xffff_ffff] {
        for phase in [Phase::Free, Phase::Reading, Phase::Writing] {
            assert_eq!(decode_user_data(encode_user_data(slot, phase)), (slot, phase));
        }
    }
    assert_eq!(encode_user_data(5, Phase::Writing), 5 | (2 << 32));
    assert_eq!(decode_user_data(7 << 32), (0, Phase::Free));
}

struct World {
    src: Vec<u8>,
    dst: Vec<u8>,
}

/// Runs one ring to its end, completing the operations in reverse order.
fn drive(world: &mut World, plan: &CopyPlan, k: usize) -> Result<u64, RingError> {
    let mut ring = plan.start_ring(k);
    let mut completions = 0;
    let mut buffers = vec![Vec::new(); plan.slots_per_ring];
    let mut queue: Vec<Submission> = Vec::new();
    loop {
        queue.extend(ring.fill());
        if ring.is_idle() {
            break;
        }
        let op = queue.pop().unwrap();
        let (_, phase) = decode_user_data(op.user_data);
        let (from, to) = (op.offset as usize, op.offset as usize + op.len as usize);
        if phase == Phase::Reading {
            buffers[op.slot] = world.src[from..to].to_vec();
        } else {
            world.dst[from..to].copy_from_slice(&buffers[op.slot]);
        }
        assert!(ring.expects(op.user_data));
        completions += 1;
        if let Completion::Write { submission } = ring.complete(op.user_data, op.len as i32) {
            queue.push(submission);
        }
    }
    assert_eq!(completions, 2 * plan.rings[k].len());
    ring.outcome()
}

#[test]
fn copying_changed_blocks_restores_the_baseline() {
    let src: Vec<u8> = (0..4096 * 300usize).map(|i| (i * 7 % 251) as u8).collect();
    let mut dst = src.clone();
    let changed = vec![r(290, 3), r(0, 1), r(100, 70), r(170, 1), r(299, 1)];
    for range in &changed {
        for b in range.start..range.start + range.len {
            dst[b as usize * 4096 + 17] ^= 0xff;
        }
    }
    let plan = copy_blocks(&changed, 4096).unwrap();
    let mut world = World { src: src.clone(), dst };
    let mut copied = 0;
    assert!(plan.check_alignment().is_ok());
    for k in 0..plan.rings.len() {
        copied += drive(&mut world, &plan, k).unwrap();
    }
    assert_eq!(copied, plan.total_bytes);
    assert_eq!(world.dst, src);
}

#[test]
fn a_block_copy_leaves_other_blocks_alone() {
    let src = vec![1u8; 4096 * 8];
    let plan = copy_blocks(&vec![r(2, 2)], 4096).unwrap();
    let mut world = World { src, dst: vec![9u8; 4096 * 8] };
    for k in 0..plan.rings.len() {
        drive(&mut world, &plan, k).unwrap();
    }
    assert!(world.dst[..8192].iter().all(|b| *b == 9));
    assert!(world.dst[8192..16384].iter().all(|b| *b == 1));
    assert!(world.dst[16384..].iter().all(|b| *b == 9));
}

#[test]
fn a_full_copy_transfers_the_whole_device() {
    let src: Vec<u8> = (0..2097152 * 2 + 8192usize).map(|i| (i % 253) as u8).collect();
    let plan = full_copy(src.len() as u64);
    let mut world = World { src: src.clone(), dst: vec![0; src.len()] };
    assert!(plan.check_alignment().is_ok());
    for k in 0..plan.rings.len() {
        drive(&mut world, &plan, k).unwrap();
    }
    assert_eq!(world.dst, src);
}

/// A volume of 32 MiB whose bytes vary.
fn formatted() -> Vec<u8> {
    (0..32 * 1024 * 1024usize).map(|i| (i * 31 % 249) as u8).collect()
}

/// Copies the virgin volume to an empty scratch volume of the same size.
fn copied_in_full(virgin: &Vec<u8>) -> (Vec<u8>, u64) {
    let plan = volume::full_copy(virgin.len() as u64);
    let mut world = World { src: virgin.clone(), dst: vec![0; virgin.len()] };
    let mut copied = 0;
    for k in 0..plan.rings.len() {
        copied += drive(&mut world, &plan, k).unwrap();
    }
    (world.dst, copied)
}

#[test]
fn full_copy_produces_identical_volumes() {
    let virgin = formatted();
    let (scratch, copied) = copied_in_full(&virgin);
    assert_eq!(copied, 32 * 1024 * 1024);
    assert!(virgin == scratch, "virgin and scratch must be byte-identical after copy");
}

#[test]
fn superblock_hash_matches_after_copy() {
    let virgin = formatted();
    let (scratch, _) = copied_in_full(&virgin);
    let h1 = volume::hash_superblock(&virgin).unwrap();
    let h2 = volume::hash_superblock(&scratch).unwrap();
    assert_eq!(h1, h2, "superblock hashes must match after copy");
    assert_ne!(h1, [0u8; 32], "hash should be non-zero for formatted volume");
    assert_ne!(h1, volume::hash_superblock(&vec![0; 4096]).unwrap());
}

#[test]
fn init_new_workflow_on_files() {
    let virgin = formatted();
    let size = virgin.len() as u64;
    assert_eq!(volume::get_size(Some(size), None), Some(32 * 1024 * 1024));
    let (scratch, copied) = copied_in_full(&virgin);
    assert_eq!(copied, size);
    assert_eq!(
        volume::get_size(Some(size), None),
        volume::get_size(Some(scratch.len() as u64), None)
    );
    assert_eq!(volume::hash_superblock(&virgin), volume::hash_superblock(&scratch));
}

#[test]
fn init_from_workflow_on_files() {
    // The virgin volume was prepared beforehand; the scratch volume holds something else.
    let virgin = formatted();
    let plan = volume::full_copy(virgin.len() as u64);
    let mut world = World { src: virgin.clone(), dst: vec![0xa5; virgin.len()] };
    assert_ne!(volume::hash_superblock(&world.src), volume::hash_superblock(&world.dst));
    let mut copied = 0;
    for k in 0..plan.rings.len() {
        copied += drive(&mut world, &plan, k).unwrap();
    }
    assert_eq!(copied, virgin.len() as u64);
    assert_eq!(volume::hash_superblock(&virgin), volume::hash_superblock(&world.dst));
}

#[test]
fn init_from_no_copy_workflow_on_files() {
    // The two volumes were made equal beforehand.
    let virgin = formatted();
    let (scratch, _) = copied_in_full(&virgin);
    assert_eq!(
        volume::get_size(Some(virgin.len() as u64), None),
        volume::get_size(Some(scratch.len() as u64), None)
    );
    let h = volume::hash_superblock(&virgin).unwrap();
    assert_ne!(h, [0u8; 32], "hash should be non-zero for formatted volume");
}

#[test]
fn a_plan_names_its_first_misaligned_chunk() {
    let plan = |rings: Vec<Vec<CopyChunk>>| CopyPlan {
        rings,
        sq_depth: 512,
        slots_per_ring: 128,
        slot_size: 262144,
        total_bytes: 0,
    };
    assert!(plan(vec![]).check_alignment().is_ok());
    assert!(plan(vec![vec![], vec![c(0, 4096)]]).check_alignment().is_ok());
    let mixed = plan(vec![vec![c(0, 4096)], vec![c(4096, 4096), c(8192, 512)], vec![c(1, 1)]]);
    let e = mixed.check_alignment().unwrap_err();
    assert_eq!((e.offset, e.len), (8192, 512));
    // Blocks of 512 bytes that do not lie on a page.
    let blocks = copy_blocks(&vec![r(8, 8), r(1, 1)], 512).unwrap();
    let e = blocks.check_alignment().unwrap_err();
    assert_eq!((e.offset, e.len), (512, 512));
}

#[test]
fn progress_grows_to_the_bytes_of_the_chunks() {
    let plan = copy_blocks(&vec![r(0, 3), r(10, 70), r(200, 1)], 4096).unwrap();
    let mut rings: Vec<Ring> = (0..plan.rings.len()).map(|k| plan.start_ring(k)).collect();
    let mut seen = vec![0u64];
    let mut queue: Vec<(usize, Submission)> = Vec::new();
    for k in 0..rings.len() {
        for op in rings[k].fill() {
            queue.push((k, op));
        }
    }
    while let Some((k, op)) = queue.pop() {
        match rings[k].complete(op.user_data, op.len as i32) {
            Completion::Write { submission } => queue.insert(0, (k, submission)),
            Completion::Copied { len } => seen.push(seen[seen.len() - 1] + len),
            Completion::Failed => panic!("nothing fails"),
        }
        let total: u64 = rings.iter().map(|ring| ring.outcome().unwrap()).sum();
        assert_eq!(total, seen[seen.len() - 1]);
        assert!(total <= plan.total_bytes);
    }
    assert_eq!(seen[seen.len() - 1], plan.total_bytes);
    assert_eq!(plan.total_bytes, 74 * 4096);
}

#[test]
fn empty_chunks_are_copied_too() {
    let mut ring = Ring::new(vec![c(4096, 0), c(0, 4096)], 1, 4096);
    let read = ring.fill()[0];
    assert_eq!((read.offset, read.len), (4096, 0));
    let write = match ring.complete(read.user_data, 0) {
        Completion::Write { submission } => submission,
        other => panic!("{:?}", other),
    };
    assert_eq!(ring.complete(write.user_data, 0), Completion::Copied { len: 0 });
    assert_eq!(ring.fill().len(), 1);
    assert!(!ring.is_idle());
}

#[test]
fn the_first_failure_of_a_ring_is_kept() {
    let mut ring = Ring::new(vec![c(0, 4096), c(4096, 4096), c(8192, 4096)], 2, 4096);
    let reads = ring.fill();
    assert_eq!(reads.len(), 2);
    assert_eq!(ring.complete(reads[0].user_data, -5), Completion::Failed);
    assert!(ring.fill().is_empty());
    assert_eq!(ring.complete(reads[1].user_data, 100), Completion::Failed);
    assert!(ring.is_idle());
    let e = ring.outcome().unwrap_err();
    assert_eq!(e, RingError::Operation { code: 5, offset: 0 });
    assert_eq!(e.message(), "io_uring operation failed at offset 0");
}

#[test]
fn operations_are_submitted_in_batches() {
    let mut batch = Batch::new();
    let submits: Vec<usize> = (1..=70usize).filter(|_| batch.queue()).collect();
    assert_eq!(submits, [32, 64]);
    assert!(batch.flush());
    assert!(!batch.flush());
}

#[test]
fn short_operations_fail() {
    let mut ring = Ring::new(vec![c(4096, 4096)], 1, 4096);
    let read = ring.fill()[0];
    assert_eq!(ring.complete(read.user_data, 512), Completion::Failed);
    assert_eq!(
        ring.outcome().unwrap_err().message(),
        "short read at offset 4096: expected 4096 bytes, got 512"
    );
    let mut ring = Ring::new(vec![c(0, 4096)], 1, 4096);
    let read = ring.fill()[0];
    let write = match ring.complete(read.user_data, 4096) {
        Completion::Write { submission } => submission,
        other => panic!("{:?}", other),
    };
    assert!(!ring.expects(read.user_data));
    assert_eq!(ring.complete(write.user_data, 0), Completion::Failed);
    assert_eq!(
        ring.outcome().unwrap_err().message(),
        "short write at offset 0: expected 4096 bytes, got 0"
    );
}

#[test]
fn sizes_come_from_the_metadata_or_the_end() {
    assert_eq!(get_size(Some(10), Some(20)), Some(10));
    assert_eq!(get_size(Some(0), Some(20)), Some(20));
    assert_eq!(get_size(None, Some(20)), Some(20));
    assert_eq!(volume::get_size(None, None), None);
}

#[test]
fn superblocks_are_the_first_4096_bytes() {
    assert!(read_superblock(&vec![0; 4095]).is_none());
    let head: Vec<u8> = (0..5000usize).map(|i| i as u8).collect();
    assert_eq!(read_superblock(&head).unwrap(), head[..4096]);
}

#[test]
fn superblock_hashes_are_sha256() {
    assert!(volume::hash_superblock(&vec![0; 4095]).is_none());
    let hash = volume::hash_superblock(&vec![0; 4096]).unwrap();
    assert_eq!(
        schelk::commands::status::hex_encode(&hash),
        "ad7facb2586fc6e966c004d7d1d16b024f5805ff7cb47c7a85dabd8b48892ca7"
    );
    let mut head = vec![0; 5000];
    head[4096] = 1;
    assert!(volume::same_hash(&hash, &volume::hash_superblock(&head).unwrap()));
    head[4095] = 1;
    assert!(!volume::same_hash(&hash, &volume::hash_superblock(&head).unwrap()));
}

#[test]
fn zeroing_ends_exactly_at_the_size() {
    let size = 3 * 1048576 + 5;
    let mut written = 0;
    let mut writes = Vec::new();
    while let Some(n) = zero(size, written) {
        writes.push(n);
        written += n;
    }
    assert_eq!(writes, [1048576, 1048576, 1048576, 5]);
    assert_eq!(written, size);
    assert_eq!(zero(0, 0), None);
}

#[test]
fn progress_is_a_percentage() {
    assert_eq!(progress_percent(0, 0), 100);
    assert_eq!(progress_percent(1, 3), 33);
    assert_eq!(progress_percent(3, 3), 100);
    assert_eq!(progress_percent(u64::MAX, u64::MAX), 1);
    assert_eq!(poll_copy(5, 5, false), Poll::Finished);
    assert_eq!(poll_copy(4, 5, true), Poll::Stopped);
    assert_eq!(poll_copy(4, 5, false), Poll::Wait);
}

#[test]
fn buffers_and_failures() {
    assert_eq!(buffer_pool_size(4096, 4), Some(16384));
    assert_eq!(buffer_pool_size(usize::MAX, 2), None);
    assert_eq!(slot_offset(3, 4096, 4), 12288);
    assert_eq!(first_failure(&vec![false, true, true]), Some(1));
    assert_eq!(first_failure(&vec![false]), None);
    assert_eq!(open_failed("/dev/s", 16), "Cannot open /dev/s: device is in use");
    assert_eq!(open_failed("/dev/s", 2), "Cannot open /dev/s");
}
