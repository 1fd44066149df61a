use immix::plan::tracing::VectorObjectQueue;
use immix::policy::immix::block::Block;
use immix::policy::immix::block::BlockState;
use immix::policy::immix::immixspace::ImmixSpace;
use immix::policy::immix::immixspace::ImmixSpaceArgs;
use immix::policy::immix::line::Line;
use immix::policy::immix::ImmixModes;
use immix::policy::space::PlanCreateSpaceArgs;
use immix::util::address::Address;
use immix::util::address::ObjectReference;
use immix::util::metadata::SideMetadataSpec;
use immix::util::opaque_pointer::VMThread;
use immix::vm::object_model::ObjectModel;

const START: usize = 0x40_0000;
const CHUNK: usize = 0x40_0000;

fn modes() -> ImmixModes {
    ImmixModes {
        block_only: false,
        mark_line_at_scan_time: false,
        defrag_every_block: false,
        non_moving: false,
        sticky_non_moving_nursery: false,
        vo_bit: false,
        object_pinning: true,
    }
}

fn space_with(modes: ImmixModes, never_move_objects: bool) -> ImmixSpace {
    ImmixSpace::new(
        PlanCreateSpaceArgs {
            name: "immix",
            start: Address(START),
            extent: CHUNK,
            needs_log_bit: false,
            modes,
        },
        ImmixSpaceArgs { unlog_object_when_traced: false, mixed_age: false, never_move_objects },
    )
}

fn space() -> ImmixSpace {
    space_with(modes(), false)
}

fn line_mark(space: &ImmixSpace, addr: usize) -> u8 {
    space.metadata.load(SideMetadataSpec::LineMark, Address(addr))
}

fn current(space: &ImmixSpace) -> u8 {
    space.line_mark_state.load(atomic::Ordering::SeqCst)
}

#[test]
fn new_space_is_empty() {
    let space = space();
    assert_eq!(space.name(), "immix");
    assert_eq!(space.get_pages_allocated(), 0);
    assert!(!space.in_defrag());
    assert!(space.is_movable());
    assert!(space.is_defrag_enabled());
    assert_eq!(current(&space), 1);
    for b in 0..128 {
        assert_eq!(Block(START + b * 32768).get_state(&space.metadata), BlockState::Unallocated);
    }
    assert_eq!(space.reusable_blocks.len(), 0);
    assert_eq!(space.defrag_headroom_pages(), 0);
}

#[test]
fn non_moving_mode_overrides_the_arguments() {
    let mut m = modes();
    m.non_moving = true;
    let space = space_with(m, false);
    assert!(!space.is_movable());
    assert!(!space.is_defrag_enabled());
    assert!(!space.is_nursery_copy_enabled());
    assert!(space.is_last_gc_exhaustive(false));
}

#[test]
fn last_gc_is_exhaustive_if_it_defragmented() {
    let space = space();
    assert!(space.is_last_gc_exhaustive(true));
    assert!(!space.is_last_gc_exhaustive(false));
}

#[test]
fn clean_block_counts_lines_and_pages() {
    let mut space = space();
    let block = space.get_clean_block(VMThread(0), false).unwrap();
    assert_eq!(block, Block(START));
    assert_eq!(block.get_state(&space.metadata), BlockState::Unmarked);
    assert_eq!(space.lines_consumed.load(atomic::Ordering::SeqCst), 128);
    assert_eq!(space.get_pages_allocated(), 8);
    assert_eq!(space.pr.reserved_pages(), 8);
    let copy_block = space.get_clean_block(VMThread(0), true).unwrap();
    assert_eq!(copy_block, Block(START + 32768));
    assert_eq!(copy_block.get_state(&space.metadata), BlockState::Marked);
    assert_eq!(space.get_pages_allocated(), 16);
    assert!(space.chunk_map.get(block.chunk()).unwrap().is_allocated());
}

#[test]
fn clean_blocks_run_out() {
    let mut space = space();
    for _ in 0..128 {
        assert!(space.get_clean_block(VMThread(0), false).is_some());
    }
    assert_eq!(space.get_clean_block(VMThread(0), false), None);
    assert_eq!(space.get_pages_allocated(), 1024);
}

#[test]
fn released_block_is_handed_out_again_after_a_flush() {
    let mut space = space();
    let first = space.get_clean_block(VMThread(0), false).unwrap();
    let second = space.get_clean_block(VMThread(0), false).unwrap();
    space.release_block(first);
    assert_eq!(first.get_state(&space.metadata), BlockState::Unallocated);
    let third = space.get_clean_block(VMThread(0), false).unwrap();
    assert_eq!(third, Block(START + 2 * 32768));
    space.flush_page_resource();
    let again = space.get_clean_block(VMThread(0), false).unwrap();
    assert_eq!(again, first);
    assert_ne!(again, second);
}

#[test]
fn single_object_in_a_fresh_copy_block_marks_one_line() {
    let mut space = space();
    let mut vm = ObjectModel::new();
    let block = space.get_clean_block(VMThread(0), true).unwrap();
    let object = ObjectReference(block.0);
    vm.insert(Address(object.0), 16, vec![]);
    let mut queue = VectorObjectQueue::new();
    let result = space.trace_object_without_moving(&mut queue, object, &vm);
    assert_eq!(result, object);
    assert_eq!(block.get_state(&space.metadata), BlockState::Marked);
    let state = current(&space);
    let marked: Vec<usize> =
        (0..128).filter(|i| line_mark(&space, block.0 + i * 256) == state).collect();
    assert_eq!(marked, vec![0]);
    assert_eq!(queue.into_vec(), vec![object]);
}

#[test]
fn trace_without_moving_leaves_the_state_of_a_fresh_block() {
    let mut space = space();
    let mut vm = ObjectModel::new();
    let block = space.get_clean_block(VMThread(0), false).unwrap();
    let object = ObjectReference(block.0 + 512);
    vm.insert(Address(object.0), 16, vec![]);
    let mut queue = VectorObjectQueue::new();
    space.trace_object_without_moving(&mut queue, object, &vm);
    assert_eq!(block.get_state(&space.metadata), BlockState::Unmarked);
    assert!(space.is_marked(object));
    assert!(space.is_live(object));
    assert_eq!(line_mark(&space, block.0 + 512), current(&space));
}

#[test]
fn block_only_trace_marks_the_block() {
    let mut m = modes();
    m.block_only = true;
    let mut space = space_with(m, true);
    let mut vm = ObjectModel::new();
    let block = space.get_clean_block(VMThread(0), false).unwrap();
    let object = ObjectReference(block.0 + 64);
    vm.insert(Address(object.0), 32, vec![]);
    let mut queue = VectorObjectQueue::new();
    space.trace_object_without_moving(&mut queue, object, &vm);
    assert_eq!(block.get_state(&space.metadata), BlockState::Marked);
    assert_eq!(space.get_reusable_block(false), None);
}

#[test]
fn object_over_three_lines_marks_three_lines() {
    let mut space = space();
    let mut vm = ObjectModel::new();
    let block = space.get_clean_block(VMThread(0), false).unwrap();
    let object = ObjectReference(block.0 + 104);
    vm.insert(Address(object.0), 600, vec![]);
    space.mark_lines(object, &vm);
    let state = current(&space);
    let marked: Vec<usize> =
        (0..128).filter(|i| line_mark(&space, block.0 + i * 256) == state).collect();
    assert_eq!(marked, vec![0, 1, 2]);
}

#[test]
fn mark_lines_for_object_at_offset_100() {
    let mut space = space();
    let block = space.get_clean_block(VMThread(0), false).unwrap();
    Line::mark_lines_for_object(&mut space.metadata, ObjectReference(block.0 + 100), 600, 9);
    let marked: Vec<usize> =
        (0..128).filter(|i| line_mark(&space, block.0 + i * 256) == 9).collect();
    assert_eq!(marked, vec![0, 1, 2]);
    Line::mark_lines_for_object(&mut space.metadata, ObjectReference(block.0 + 100), 600, 9);
    let again: Vec<usize> =
        (0..128).filter(|i| line_mark(&space, block.0 + i * 256) == 9).collect();
    assert_eq!(again, vec![0, 1, 2]);
}

#[test]
fn object_that_ends_on_a_line_boundary_does_not_mark_the_next_line() {
    let mut space = space();
    let block = space.get_clean_block(VMThread(0), false).unwrap();
    Line::mark_lines_for_object(&mut space.metadata, ObjectReference(block.0 + 256), 256, 5);
    let marked: Vec<usize> =
        (0..128).filter(|i| line_mark(&space, block.0 + i * 256) == 5).collect();
    assert_eq!(marked, vec![1]);
}

#[test]
fn tracing_twice_enqueues_once() {
    let mut space = space();
    let mut vm = ObjectModel::new();
    let block = space.get_clean_block(VMThread(0), false).unwrap();
    let object = ObjectReference(block.0 + 1024);
    vm.insert(Address(object.0), 24, vec![]);
    let mut queue = VectorObjectQueue::new();
    space.trace_object_without_moving(&mut queue, object, &vm);
    space.trace_object_without_moving(&mut queue, object, &vm);
    assert_eq!(queue.len(), 1);
}

#[test]
fn attempt_mark_succeeds_once() {
    let mut space = space();
    let block = space.get_clean_block(VMThread(0), false).unwrap();
    let object = ObjectReference(block.0 + 8);
    assert!(space.attempt_mark(object, 1));
    assert!(!space.attempt_mark(object, 1));
    assert!(!space.attempt_mark(object, 1));
    assert!(space.is_marked_with(object, 1));
    space.metadata.bzero_metadata(SideMetadataSpec::ObjectMark, Address(block.0), 32768);
    assert!(space.attempt_mark(object, 1));
}

#[test]
fn pinning() {
    let mut space = space();
    let block = space.get_clean_block(VMThread(0), false).unwrap();
    let object = ObjectReference(block.0 + 8);
    assert!(!space.is_pinned(object));
    assert!(space.pin_object(object));
    assert!(!space.pin_object(object));
    assert!(space.is_pinned(object));
    assert!(space.is_object_pinned(object));
    assert!(space.unpin_object(object));
    assert!(!space.unpin_object(object));
    assert!(!space.is_pinned(object));
}

#[test]
fn may_move_objects_only_for_the_defragmenting_trace() {
    assert!(!ImmixSpace::may_move_objects(0));
    assert!(ImmixSpace::may_move_objects(1));
    assert!(!ImmixSpace::may_move_objects(255));
}

#[test]
fn side_metadata_specs_follow_the_modes() {
    let with_lines = ImmixSpace::side_metadata_specs(false, true);
    assert_eq!(
        with_lines,
        vec![
            SideMetadataSpec::LineMark,
            SideMetadataSpec::BlockDefragSource,
            SideMetadataSpec::BlockHoles,
            SideMetadataSpec::BlockMark,
            SideMetadataSpec::ObjectMark,
            SideMetadataSpec::ForwardingBits,
            SideMetadataSpec::ForwardingPointer,
            SideMetadataSpec::PinningBit,
        ]
    );
    let block_only = ImmixSpace::side_metadata_specs(true, false);
    assert_eq!(block_only.len(), 6);
    assert!(!block_only.contains(&SideMetadataSpec::LineMark));
    assert!(!block_only.contains(&SideMetadataSpec::PinningBit));
}

#[test]
fn in_space() {
    let space = space();
    assert!(space.in_space(ObjectReference(START)));
    assert!(space.in_space(ObjectReference(START + CHUNK - 8)));
    assert!(!space.in_space(ObjectReference(START + CHUNK)));
    assert!(!space.in_space(ObjectReference(START - 8)));
    assert!(!space.in_space(ObjectReference(START + 4)));
    assert!(!space.in_space(ObjectReference(0)));
}

#[test]
fn blocks_in_use_are_enumerated() {
    let mut space = space();
    let a = space.get_clean_block(VMThread(0), false).unwrap();
    let b = space.get_clean_block(VMThread(0), true).unwrap();
    let c = space.get_clean_block(VMThread(0), false).unwrap();
    space.release_block(b);
    let mut blocks = vec![Block(0)];
    space.enumerate_objects(&mut blocks);
    assert_eq!(blocks, vec![Block(0), a, c]);
    assert!(space.is_sane());
}

#[test]
fn valid_objects_are_found_from_inner_addresses() {
    let mut m = modes();
    m.vo_bit = true;
    let mut space = space_with(m, false);
    let mut vm = ObjectModel::new();
    let block = space.get_clean_block(VMThread(0), false).unwrap();
    let first = ObjectReference(block.0 + 64);
    let second = ObjectReference(block.0 + 512);
    vm.insert(Address(first.0), 128, vec![]);
    vm.insert(Address(second.0), 24, vec![]);
    space.initialize_object_metadata(first, true);
    space.initialize_object_metadata(second, true);
    assert_eq!(space.is_mmtk_object(Address(first.0)), Some(first));
    assert_eq!(space.is_mmtk_object(Address(first.0 + 8)), None);
    assert_eq!(space.is_mmtk_object(Address(first.0 + 4)), None);
    let find = |addr: usize, max: usize| {
        space.find_object_from_internal_pointer(Address(addr), max, &vm)
    };
    assert_eq!(find(first.0, 1024), Some(first));
    assert_eq!(find(first.0 + 127, 1024), Some(first));
    assert_eq!(find(first.0 + 128, 1024), None);
    assert_eq!(find(first.0 + 100, 64), None);
    assert_eq!(find(first.0 + 100, 100), Some(first));
    assert_eq!(find(second.0 + 23, usize::MAX), Some(second));
    assert_eq!(find(second.0 + 24, usize::MAX), None);
    assert_eq!(find(block.0 + 8, usize::MAX), None);
    // A bump of the mark state does not touch the records.
    let mut queue = VectorObjectQueue::new();
    space.trace_object_without_moving(&mut queue, first, &vm);
    assert_eq!(space.is_mmtk_object(Address(first.0)), Some(first));
}
