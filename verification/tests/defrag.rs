use immix::policy::immix::block::Block;
use immix::policy::immix::block::BlockState;
use immix::policy::immix::block::ReusableBlockPool;
use immix::policy::immix::defrag::Defrag;
use immix::policy::immix::defrag::Histogram;
use immix::policy::immix::defrag::StatsForDefrag;
use immix::policy::immix::immixspace::ImmixSpace;
use immix::policy::immix::immixspace::ImmixSpaceArgs;
use immix::policy::immix::prepare::PrepareBlockState;
use immix::policy::immix::ImmixModes;
use immix::policy::space::PlanCreateSpaceArgs;
use immix::util::address::Address;
use immix::util::heap::chunk_map::Chunk;
use immix::util::opaque_pointer::VMThread;

const START: usize = 0x40_0000;
const CHUNK: usize = 0x40_0000;

fn modes() -> ImmixModes {
    ImmixModes {
        block_only: false,
        mark_line_at_scan_time: false,
        defrag_every_block: false,
        non_moving: false,
        sticky_non_moving_nursery: false,
        vo_bit: false,
        object_pinning: false,
    }
}

fn space_with(modes: ImmixModes, never_move_objects: bool) -> ImmixSpace {
    ImmixSpace::new(
        PlanCreateSpaceArgs {
            name: "immix",
            start: Address(START),
            extent: CHUNK,
            needs_log_bit: false,
            modes,
        },
        ImmixSpaceArgs { unlog_object_when_traced: false, mixed_age: false, never_move_objects },
    )
}

#[test]
fn decision_to_defrag() {
    let mut d = Defrag::new();
    d.decide_whether_to_defrag(true, false, false, 1, false, true, false);
    assert!(!d.in_defrag());
    d.decide_whether_to_defrag(true, true, false, 1, false, true, false);
    assert!(d.in_defrag());
    d.decide_whether_to_defrag(true, false, false, 2, false, true, false);
    assert!(d.in_defrag());
    d.decide_whether_to_defrag(true, false, false, 1, false, false, false);
    assert!(d.in_defrag());
    d.decide_whether_to_defrag(true, false, true, 1, true, true, true);
    assert!(d.in_defrag());
    d.decide_whether_to_defrag(true, false, true, 1, true, true, false);
    assert!(!d.in_defrag());
    d.decide_whether_to_defrag(false, true, true, 5, true, false, true);
    assert!(!d.in_defrag());
    d.decide_whether_to_defrag(true, true, false, 1, false, true, false);
    d.reset_in_defrag();
    assert!(!d.in_defrag());
}

#[test]
fn space_decides_with_its_pool() {
    let mut space = space_with(modes(), false);
    assert!(!space.decide_whether_to_defrag(false, true, 1, false, false));
    assert!(space.decide_whether_to_defrag(true, true, 1, false, false));
    assert!(space.in_defrag());
    assert!(space.end_of_gc());
    assert!(!space.in_defrag());
    assert!(!space.end_of_gc());
    let block = space.get_clean_block(VMThread(0), false).unwrap();
    space.reusable_blocks.push(block);
    assert!(space.decide_whether_to_defrag(false, true, 1, false, false));

    let mut fixed = space_with(modes(), true);
    assert!(!fixed.decide_whether_to_defrag(true, true, 3, true, true));
}

#[test]
fn headroom_is_two_percent_of_the_reserved_pages() {
    let d = Defrag::new();
    assert_eq!(d.defrag_headroom_pages(1000), 20);
    assert_eq!(d.defrag_headroom_pages(49), 0);
    assert_eq!(d.defrag_headroom_pages(50), 1);
    assert_eq!(d.defrag_headroom_pages(usize::MAX), usize::MAX / 50);
    let mut space = space_with(modes(), false);
    for _ in 0..100 {
        space.get_clean_block(VMThread(0), false);
    }
    assert_eq!(space.defrag_headroom_pages(), 16);
}

#[test]
fn clean_copy_blocks_use_up_the_headroom() {
    let space = space_with(modes(), false);
    let mut d = Defrag::new();
    let pool = ReusableBlockPool::new();
    d.prepare(
        &space.metadata,
        &pool,
        4,
        StatsForDefrag { total_pages: 100, reserved_pages: 90, collection_reserved_pages: 6 },
    );
    assert!(!d.space_exhausted());
    d.notify_new_clean_block(false);
    assert!(!d.space_exhausted());
    d.notify_new_clean_block(true);
    assert!(!d.space_exhausted());
    d.notify_new_clean_block(true);
    assert!(!d.space_exhausted());
    d.notify_new_clean_block(true);
    assert!(d.space_exhausted());
    d.prepare(
        &space.metadata,
        &pool,
        0,
        StatsForDefrag { total_pages: 10, reserved_pages: 90, collection_reserved_pages: 0 },
    );
    assert!(!d.space_exhausted());
    d.notify_new_clean_block(true);
    assert!(d.space_exhausted());
}

fn histogram(entries: &[(usize, usize)]) -> Histogram {
    let mut h = Histogram::new();
    for (bin, amount) in entries {
        h.add(*bin, *amount);
    }
    h
}

#[test]
fn spill_threshold_stops_where_evacuation_overflows() {
    let space = space_with(modes(), false);
    let pool = ReusableBlockPool::new();
    let mut d = Defrag::new();
    d.add_completed_mark_histogram(histogram(&[(10, 100), (5, 100), (3, 100)]));
    d.add_completed_mark_histogram(histogram(&[(10, 60), (2, 500)]));
    d.decide_whether_to_defrag(true, true, false, 1, false, true, false);
    // 16 pages are 256 lines: the bins with 10 holes take 160 lines, those
    // with 5 holes 100 more.
    d.prepare(
        &space.metadata,
        &pool,
        0,
        StatsForDefrag { total_pages: 16, reserved_pages: 0, collection_reserved_pages: 0 },
    );
    assert_eq!(d.spill_threshold(), 5);
    // 17 pages are 272 lines, of which evacuation fills 269.28: bin 3
    // overflows.
    d.prepare(
        &space.metadata,
        &pool,
        0,
        StatsForDefrag { total_pages: 17, reserved_pages: 0, collection_reserved_pages: 0 },
    );
    assert_eq!(d.spill_threshold(), 3);
    d.prepare(
        &space.metadata,
        &pool,
        0,
        StatsForDefrag { total_pages: 0, reserved_pages: 0, collection_reserved_pages: 0 },
    );
    assert_eq!(d.spill_threshold(), 10);
    d.prepare(
        &space.metadata,
        &pool,
        0,
        StatsForDefrag { total_pages: 1000, reserved_pages: 0, collection_reserved_pages: 0 },
    );
    assert_eq!(d.spill_threshold(), 2);
}

#[test]
fn spill_threshold_is_kept_outside_of_defragmentation() {
    let space = space_with(modes(), false);
    let pool = ReusableBlockPool::new();
    let mut d = Defrag::new();
    d.add_completed_mark_histogram(histogram(&[(10, 100)]));
    d.prepare(
        &space.metadata,
        &pool,
        0,
        StatsForDefrag { total_pages: 0, reserved_pages: 0, collection_reserved_pages: 0 },
    );
    assert_eq!(d.spill_threshold(), 0);
}

#[test]
fn free_lines_of_reusable_blocks_count_against_their_bin() {
    let mut space = space_with(modes(), false);
    let block = space.get_clean_block(VMThread(0), false).unwrap();
    block.set_state(&mut space.metadata, BlockState::Reusable { unavailable_lines: 28 });
    block.set_holes(&mut space.metadata, 10);
    let mut pool = ReusableBlockPool::new();
    pool.push(block);
    let mut d = Defrag::new();
    d.add_completed_mark_histogram(histogram(&[(10, 28)]));
    d.decide_whether_to_defrag(true, true, false, 1, false, true, false);
    // 100 free lines in the block and 16 in one page; evacuating the
    // block would take its 28 marked lines and its 100 free lines.
    d.prepare(
        &space.metadata,
        &pool,
        0,
        StatsForDefrag { total_pages: 1, reserved_pages: 0, collection_reserved_pages: 0 },
    );
    assert_eq!(d.spill_threshold(), 10);
    d.prepare(
        &space.metadata,
        &pool,
        0,
        StatsForDefrag { total_pages: 2, reserved_pages: 0, collection_reserved_pages: 0 },
    );
    assert_eq!(d.spill_threshold(), 2);
}

#[test]
fn block_with_more_holes_than_the_threshold_becomes_a_defrag_source() {
    let mut space = space_with(modes(), false);
    let five = space.get_clean_block(VMThread(0), false).unwrap();
    let two = space.get_clean_block(VMThread(0), false).unwrap();
    let three = space.get_clean_block(VMThread(0), true).unwrap();
    five.set_holes(&mut space.metadata, 5);
    two.set_holes(&mut space.metadata, 2);
    three.set_holes(&mut space.metadata, 3);
    five.set_state(&mut space.metadata, BlockState::Reusable { unavailable_lines: 17 });
    let packet = PrepareBlockState { chunk: Chunk(START), defrag_threshold: Some(3) };
    packet.prepare_blocks(&mut space);
    assert!(five.is_defrag_source(&space.metadata));
    assert!(!two.is_defrag_source(&space.metadata));
    assert!(!three.is_defrag_source(&space.metadata));
    assert_eq!(five.get_state(&space.metadata), BlockState::Unmarked);
    assert_eq!(two.get_state(&space.metadata), BlockState::Unmarked);
    assert_eq!(three.get_state(&space.metadata), BlockState::Unmarked);
    assert_eq!(Block(START + 3 * 32768).get_state(&space.metadata), BlockState::Unallocated);
    assert!(!Block(START + 3 * 32768).is_defrag_source(&space.metadata));

    let packet = PrepareBlockState { chunk: Chunk(START), defrag_threshold: None };
    packet.prepare_blocks(&mut space);
    assert!(!five.is_defrag_source(&space.metadata));
}

#[test]
fn every_block_is_a_source_where_the_mode_says_so() {
    let mut m = modes();
    m.defrag_every_block = true;
    let mut space = space_with(m, false);
    let block = space.get_clean_block(VMThread(0), false).unwrap();
    let packet = PrepareBlockState { chunk: Chunk(START), defrag_threshold: None };
    packet.prepare_blocks(&mut space);
    assert!(block.is_defrag_source(&space.metadata));

    let mut fixed = space_with(m, true);
    let block = fixed.get_clean_block(VMThread(0), false).unwrap();
    block.set_holes(&mut fixed.metadata, 60);
    let packet = PrepareBlockState { chunk: Chunk(START), defrag_threshold: Some(1) };
    packet.prepare_blocks(&mut fixed);
    assert!(!block.is_defrag_source(&fixed.metadata));
}

#[test]
fn prepare_blocks_clears_the_marks_of_the_objects() {
    let mut space = space_with(modes(), false);
    let block = space.get_clean_block(VMThread(0), false).unwrap();
    let object = immix::util::address::ObjectReference(block.0 + 256);
    assert!(space.attempt_mark(object, 1));
    let packet = PrepareBlockState { chunk: Chunk(START), defrag_threshold: None };
    packet.prepare_blocks(&mut space);
    assert!(!space.is_marked(object));
}
