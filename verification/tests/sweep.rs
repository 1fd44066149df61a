use immix::mmtk::Options;
use immix::mmtk::MMTK;
use immix::plan::global::Plan;
use immix::policy::immix::block::Block;
use immix::policy::immix::block::BlockState;
use immix::policy::immix::defrag::Histogram;
use immix::policy::immix::immixspace::ImmixSpace;
use immix::policy::immix::immixspace::ImmixSpaceArgs;
use immix::policy::immix::line::Line;
use immix::policy::immix::sweep::SweepChunk;
use immix::policy::immix::vo_bits::ClearVOBitsAfterPrepare;
use immix::policy::immix::vo_bits::VOBitsClearingScope;
use immix::policy::immix::ImmixModes;
use immix::policy::space::PlanCreateSpaceArgs;
use immix::scheduler::scheduler::GCWorkScheduler;
use immix::scheduler::work::WorkPacket;
use immix::scheduler::work_bucket::WorkBucketStage;
use immix::scheduler::worker::GCWorker;
use immix::util::address::Address;
use immix::util::address::ObjectReference;
use immix::util::heap::chunk_map::Chunk;
use immix::util::metadata::SideMetadataSpec;
use immix::util::object_forwarding::attempt_to_forward;
use immix::util::object_forwarding::get_forwarding_status;
use immix::util::opaque_pointer::VMThread;
use immix::util::opaque_pointer::VMWorkerThread;
use immix::vm::vm_binding::VMBinding;

const START: usize = 0x40_0000;
const CHUNK: usize = 0x40_0000;

fn modes() -> ImmixModes {
    ImmixModes {
        block_only: false,
        mark_line_at_scan_time: false,
        defrag_every_block: false,
        non_moving: false,
        sticky_non_moving_nursery: false,
        vo_bit: false,
        object_pinning: false,
    }
}

fn space_with(modes: ImmixModes, never_move_objects: bool, chunks: usize) -> ImmixSpace {
    ImmixSpace::new(
        PlanCreateSpaceArgs {
            name: "immix",
            start: Address(START),
            extent: chunks * CHUNK,
            needs_log_bit: false,
            modes,
        },
        ImmixSpaceArgs { unlog_object_when_traced: false, mixed_age: false, never_move_objects },
    )
}

fn state(space: &ImmixSpace) -> u8 {
    space.line_mark_state.load(atomic::Ordering::SeqCst)
}

fn mark(space: &mut ImmixSpace, block: Block, lines: &[usize]) {
    let s = state(space);
    for i in lines {
        Line(block.0 + i * 256).mark(&mut space.metadata, s);
    }
}

#[test]
fn block_without_live_lines_is_released() {
    let mut space = space_with(modes(), false, 1);
    let block = space.get_clean_block(VMThread(0), false).unwrap();
    let mut h = Histogram::new();
    let s = state(&space);
    assert!(block.sweep(&mut space, &mut h, Some(s)));
    assert_eq!(block.get_state(&space.metadata), BlockState::Unallocated);
    assert_eq!(space.pr.reserved_pages(), 0);
    for bin in 0..65 {
        assert_eq!(h.get(bin), 0);
    }
}

#[test]
fn full_block_stays_marked() {
    let mut space = space_with(modes(), false, 1);
    let block = space.get_clean_block(VMThread(0), false).unwrap();
    let all: Vec<usize> = (0..128).collect();
    mark(&mut space, block, &all);
    let mut h = Histogram::new();
    let s = state(&space);
    assert!(!block.sweep(&mut space, &mut h, Some(s)));
    assert_eq!(block.get_state(&space.metadata), BlockState::Marked);
    assert_eq!(block.get_holes(&space.metadata), 0);
    assert_eq!(h.get(0), 128);
    assert_eq!(space.reusable_blocks.len(), 0);
}

#[test]
fn partly_live_block_becomes_reusable() {
    let mut space = space_with(modes(), false, 1);
    let block = space.get_clean_block(VMThread(0), false).unwrap();
    mark(&mut space, block, &[0, 1, 5, 6, 7, 100, 127]);
    let mut h = Histogram::new();
    h.add(4, 1000);
    let s = state(&space);
    assert!(!block.sweep(&mut space, &mut h, Some(s)));
    assert_eq!(block.get_state(&space.metadata), BlockState::Reusable { unavailable_lines: 7 });
    assert_eq!(block.get_holes(&space.metadata), 3);
    assert_eq!(h.get(3), 7);
    assert_eq!(h.get(4), 1000);
    assert_eq!(space.reusable_blocks.len(), 1);
    assert_eq!(space.get_reusable_block(false), None);
    space.flush_page_resource();
    assert_eq!(space.get_reusable_block(false), Some(block));
    assert_eq!(space.lines_consumed.load(atomic::Ordering::SeqCst), 128 + 121);
    assert_eq!(block.get_state(&space.metadata), BlockState::Unmarked);
    assert_eq!(block.get_holes(&space.metadata), 0);
}

#[test]
fn hole_at_both_ends() {
    let mut space = space_with(modes(), false, 1);
    let block = space.get_clean_block(VMThread(0), false).unwrap();
    mark(&mut space, block, &[64]);
    let mut h = Histogram::new();
    let s = state(&space);
    block.sweep(&mut space, &mut h, Some(s));
    assert_eq!(block.get_state(&space.metadata), BlockState::Reusable { unavailable_lines: 1 });
    assert_eq!(block.get_holes(&space.metadata), 2);
}

#[test]
fn most_holes_a_block_can_have() {
    let mut space = space_with(modes(), false, 1);
    let block = space.get_clean_block(VMThread(0), false).unwrap();
    let odd: Vec<usize> = (0..128).filter(|i| i % 2 == 1).collect();
    mark(&mut space, block, &odd);
    let mut h = Histogram::new();
    let s = state(&space);
    block.sweep(&mut space, &mut h, Some(s));
    assert_eq!(block.get_holes(&space.metadata), 64);
    assert_eq!(h.get(64), 64);
}

#[test]
fn stale_marks_are_not_live() {
    let mut space = space_with(modes(), false, 1);
    let block = space.get_clean_block(VMThread(0), false).unwrap();
    let s = state(&space);
    Line(block.0).mark(&mut space.metadata, s + 1);
    Line(block.0 + 256).mark(&mut space.metadata, s);
    let mut h = Histogram::new();
    block.sweep(&mut space, &mut h, Some(s));
    assert_eq!(block.get_state(&space.metadata), BlockState::Reusable { unavailable_lines: 1 });
}

#[test]
fn block_only_sweep_goes_by_the_state_of_the_block() {
    let mut m = modes();
    m.block_only = true;
    let mut space = space_with(m, true, 1);
    let dead = space.get_clean_block(VMThread(0), false).unwrap();
    let live = space.get_clean_block(VMThread(0), true).unwrap();
    let mut h = Histogram::new();
    assert!(dead.sweep(&mut space, &mut h, None));
    assert!(!live.sweep(&mut space, &mut h, None));
    assert_eq!(dead.get_state(&space.metadata), BlockState::Unallocated);
    assert_eq!(live.get_state(&space.metadata), BlockState::Marked);
}

#[test]
fn reusable_block_is_skipped_by_a_copying_worker_if_it_is_a_defrag_source() {
    let mut space = space_with(modes(), false, 1);
    let a = space.get_clean_block(VMThread(0), false).unwrap();
    let b = space.get_clean_block(VMThread(0), false).unwrap();
    mark(&mut space, a, &[1]);
    mark(&mut space, b, &[2, 3]);
    let mut h = Histogram::new();
    let s = state(&space);
    a.sweep(&mut space, &mut h, Some(s));
    b.sweep(&mut space, &mut h, Some(s));
    space.flush_page_resource();
    b.set_as_defrag_source(&mut space.metadata, true);
    assert!(space.reusable_block_ready(true));
    assert_eq!(space.get_reusable_block(true), Some(a));
    assert_eq!(a.get_state(&space.metadata), BlockState::Marked);
    assert_eq!(space.get_reusable_block(true), None);
    assert_eq!(space.reusable_blocks.len(), 0);
}

#[test]
fn marked_block_in_the_pool_is_not_ready() {
    let mut space = space_with(modes(), false, 1);
    let a = space.get_clean_block(VMThread(0), true).unwrap();
    space.reusable_blocks.push(a);
    space.flush_page_resource();
    assert!(!space.reusable_block_ready(false));
    a.set_as_defrag_source(&mut space.metadata, true);
    assert!(space.reusable_block_ready(true));
}

fn mmtk_with(space: ImmixSpace) -> (MMTK, GCWorker) {
    let plan = Plan::new(space, 1024);
    let scheduler = GCWorkScheduler::new(1);
    let options =
        Options { count_live_bytes_in_gc: false, heap_can_grow: false, full_heap_system_gc: false };
    let mmtk = MMTK::new(plan, scheduler, options, VMBinding::new(true));
    (mmtk, GCWorker::new(VMWorkerThread(VMThread(0)), 0))
}

#[test]
fn sweep_chunk_frees_a_chunk_without_live_blocks() {
    let mut space = space_with(modes(), false, 2);
    let block = space.get_clean_block(VMThread(0), false).unwrap();
    let (mut mmtk, mut worker) = mmtk_with(space);
    let mut scheduler = GCWorkScheduler::new(1);
    mmtk.plan.immix_space.release(true, &mut scheduler);
    assert_eq!(scheduler.work_buckets[WorkBucketStage::Release.index()].len(), 1);
    assert_eq!(mmtk.plan.immix_space.sweeps_pending.load(atomic::Ordering::SeqCst), 1);
    assert_eq!(mmtk.plan.immix_space.get_pages_allocated(), 0);
    let mut packet = SweepChunk { chunk: Chunk(START) };
    assert!(packet.is_ready(&mmtk.plan.immix_space));
    assert!(!SweepChunk { chunk: Chunk(START + CHUNK) }.is_ready(&mmtk.plan.immix_space));
    packet.do_work(&mut worker, &mut mmtk);
    let space = &mut mmtk.plan.immix_space;
    assert_eq!(block.get_state(&space.metadata), BlockState::Unallocated);
    assert!(space.chunk_map.get(Chunk(START)).unwrap().is_free());
    assert_eq!(space.sweeps_pending.load(atomic::Ordering::SeqCst), 0);
    // The last packet flushed the page resource: the block comes again.
    assert_eq!(space.get_clean_block(VMThread(0), false), Some(block));
}

#[test]
fn sweep_chunk_sorts_the_blocks() {
    let mut space = space_with(modes(), false, 1);
    let dead = space.get_clean_block(VMThread(0), false).unwrap();
    let full = space.get_clean_block(VMThread(0), false).unwrap();
    let part = space.get_clean_block(VMThread(0), false).unwrap();
    let all: Vec<usize> = (0..128).collect();
    mark(&mut space, full, &all);
    mark(&mut space, part, &[0, 2, 4]);
    let object = ObjectReference(part.0);
    attempt_to_forward(&mut space.metadata, object);
    space.decide_whether_to_defrag(true, true, 1, false, false);
    part.set_as_defrag_source(&mut space.metadata, true);
    let moved = ObjectReference(full.0);
    attempt_to_forward(&mut space.metadata, moved);
    let (mut mmtk, mut worker) = mmtk_with(space);
    let mut scheduler = GCWorkScheduler::new(1);
    mmtk.plan.immix_space.release(true, &mut scheduler);
    let mut packet = SweepChunk { chunk: Chunk(START) };
    packet.do_work(&mut worker, &mut mmtk);
    let space = &mut mmtk.plan.immix_space;
    assert_eq!(dead.get_state(&space.metadata), BlockState::Unallocated);
    assert_eq!(full.get_state(&space.metadata), BlockState::Marked);
    assert_eq!(part.get_state(&space.metadata), BlockState::Reusable { unavailable_lines: 3 });
    assert_eq!(part.get_holes(&space.metadata), 3);
    assert!(space.chunk_map.get(Chunk(START)).unwrap().is_allocated());
    // Forwarding states are cleared in the block that was evacuated only.
    assert_eq!(get_forwarding_status(&space.metadata, object), 0);
    assert_eq!(get_forwarding_status(&space.metadata, moved), 2);
    assert_eq!(space.reusable_blocks.len(), 1);
    assert_eq!(space.get_reusable_block(false), Some(part));
    assert_eq!(space.line_unavail_state.load(atomic::Ordering::SeqCst), state(space));
}

#[test]
fn epilogue_runs_after_the_last_sweep() {
    let mut space = space_with(modes(), false, 2);
    for _ in 0..129 {
        space.get_clean_block(VMThread(0), false).unwrap();
    }
    let (mut mmtk, mut worker) = mmtk_with(space);
    mmtk.plan.immix_space.release(true, &mut mmtk.scheduler);
    assert_eq!(mmtk.plan.immix_space.sweeps_pending.load(atomic::Ordering::SeqCst), 2);
    let first = mmtk.scheduler.work_buckets[WorkBucketStage::Release.index()].poll();
    match first {
        Some(WorkPacket::SweepChunk(mut p)) => {
            assert_eq!(p.chunk, Chunk(START));
            p.do_work(&mut worker, &mut mmtk);
        }
        _ => panic!("a sweep packet was expected"),
    }
    assert_eq!(mmtk.plan.immix_space.sweeps_pending.load(atomic::Ordering::SeqCst), 1);
    assert_eq!(mmtk.plan.immix_space.get_clean_block(VMThread(0), false), Some(Block(START + CHUNK + 32768)));
}

#[test]
fn finish_one_work_packet_flushes_once() {
    let mut space = space_with(modes(), false, 1);
    let block = space.get_clean_block(VMThread(0), false).unwrap();
    let mut scheduler = GCWorkScheduler::new(1);
    space.release(true, &mut scheduler);
    space.release_block(block);
    assert_eq!(space.sweeps_pending.load(atomic::Ordering::SeqCst), 1);
    assert!(space.finish_one_work_packet());
    assert_eq!(space.sweeps_pending.load(atomic::Ordering::SeqCst), 0);
    assert!(!space.finish_one_work_packet());
    assert_eq!(space.sweeps_pending.load(atomic::Ordering::SeqCst), usize::MAX);
}

#[test]
fn records_of_valid_objects_are_cleared_by_scope() {
    let mut m = modes();
    m.vo_bit = true;
    let mut space = space_with(m, false, 1);
    let unmarked = space.get_clean_block(VMThread(0), false).unwrap();
    let marked = space.get_clean_block(VMThread(0), true).unwrap();
    let a = ObjectReference(unmarked.0 + 8);
    let b = ObjectReference(marked.0 + 8);
    let c = ObjectReference(marked.0 + 512);
    for o in [a, b, c] {
        space.initialize_object_metadata(o, true);
        assert_eq!(space.metadata.load(SideMetadataSpec::VoBit, Address(o.0)), 1);
    }
    let s = state(&space);
    Line(marked.0).mark(&mut space.metadata, s);
    let vo = |space: &ImmixSpace, o: ObjectReference| {
        space.metadata.load(SideMetadataSpec::VoBit, Address(o.0))
    };

    let mut by_block =
        ClearVOBitsAfterPrepare { chunk: Chunk(START), scope: VOBitsClearingScope::BlockOnly };
    by_block.clear_blocks(&mut space, None);
    assert_eq!((vo(&space, a), vo(&space, b), vo(&space, c)), (0, 1, 1));

    let mut by_line = ClearVOBitsAfterPrepare {
        chunk: Chunk(START),
        scope: VOBitsClearingScope::Line { state: s },
    };
    by_line.clear_blocks(&mut space, Some(s));
    assert_eq!((vo(&space, a), vo(&space, b), vo(&space, c)), (0, 1, 0));

    let (mut mmtk, mut worker) = mmtk_with(space);
    let mut full = ClearVOBitsAfterPrepare { chunk: Chunk(START), scope: VOBitsClearingScope::FullGC };
    full.do_work(&mut worker, &mut mmtk);
    assert_eq!(vo(&mmtk.plan.immix_space, b), 0);
}
