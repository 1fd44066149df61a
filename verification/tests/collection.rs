use immix::global_state::GcStatus;
use immix::mmtk::Options;
use immix::mmtk::MMTK;
use immix::plan::global::Plan;
use immix::policy::immix::block::Block;
use immix::policy::immix::block::BlockState;
use immix::policy::immix::immixspace::ImmixSpace;
use immix::policy::immix::immixspace::ImmixSpaceArgs;
use immix::policy::immix::ImmixModes;
use immix::policy::space::PlanCreateSpaceArgs;
use immix::scheduler::gc_work::GCWorkContext;
use immix::scheduler::gc_work::PlanProcessEdges;
use immix::scheduler::gc_work::PlanScanObjects;
use immix::scheduler::gc_work::ProcessEdgesBase;
use immix::scheduler::gc_work::ProcessRootNode;
use immix::scheduler::gc_work::ScanObjects;
use immix::scheduler::gc_work::ScheduleCollection;
use immix::scheduler::gc_work::VMPostForwarding;
use immix::scheduler::process::ProcessEdgesWorkRootsWorkFactory;
use immix::scheduler::scan::ProcessEdgesWorkTracer;
use immix::scheduler::scheduler::GCWorkScheduler;
use immix::scheduler::work::WorkPacket;
use immix::scheduler::work_bucket::WorkBucketStage;
use immix::scheduler::worker::GCWorker;
use immix::util::address::Address;
use immix::util::address::ObjectReference;
use immix::util::opaque_pointer::VMMutatorThread;
use immix::util::opaque_pointer::VMThread;
use immix::util::opaque_pointer::VMWorkerThread;
use immix::vm::slot::Slot;
use immix::vm::vm_binding::Mutator;
use immix::vm::vm_binding::VMBinding;

const START: usize = 0x40_0000;
const CHUNK: usize = 0x40_0000;
const ROOTS: usize = 0x1000;

fn modes() -> ImmixModes {
    ImmixModes {
        block_only: false,
        mark_line_at_scan_time: true,
        defrag_every_block: false,
        non_moving: false,
        sticky_non_moving_nursery: false,
        vo_bit: false,
        object_pinning: true,
    }
}

fn collector(modes: ImmixModes, slot_enqueuing: bool) -> (MMTK, GCWorker) {
    let space = ImmixSpace::new(
        PlanCreateSpaceArgs {
            name: "immix",
            start: Address(START),
            extent: CHUNK,
            needs_log_bit: false,
            modes,
        },
        ImmixSpaceArgs {
            unlog_object_when_traced: false,
            mixed_age: false,
            never_move_objects: false,
        },
    );
    let plan = Plan::new(space, 1024);
    let scheduler = GCWorkScheduler::new(1);
    let options =
        Options { count_live_bytes_in_gc: true, heap_can_grow: false, full_heap_system_gc: false };
    let mmtk = MMTK::new(plan, scheduler, options, VMBinding::new(slot_enqueuing));
    (mmtk, GCWorker::new(VMWorkerThread(VMThread(0)), 0))
}

fn collect(mmtk: &mut MMTK, worker: &mut GCWorker) -> usize {
    mmtk.scheduler.add(
        WorkBucketStage::Unconstrained,
        WorkPacket::ScheduleCollection(ScheduleCollection),
    );
    let taken = worker.run(mmtk, 100_000);
    mmtk.plan.end_of_gc();
    taken
}

// Three objects in one block, a -> b -> a, and a third that nothing refers
// to; one more object alone in a second block.
fn heap(mmtk: &mut MMTK) -> (ObjectReference, ObjectReference, ObjectReference, ObjectReference) {
    let first = mmtk.plan.immix_space.get_clean_block(VMThread(1), false).unwrap();
    let second = mmtk.plan.immix_space.get_clean_block(VMThread(1), false).unwrap();
    let a = ObjectReference(first.0);
    let b = ObjectReference(first.0 + 1024);
    let c = ObjectReference(first.0 + 4096);
    let d = ObjectReference(second.0 + 256);
    mmtk.vm.objects.insert(Address(a.0), 32, vec![b.0, 0]);
    mmtk.vm.objects.insert(Address(b.0), 600, vec![a.0]);
    mmtk.vm.objects.insert(Address(c.0), 16, vec![a.0]);
    mmtk.vm.objects.insert(Address(d.0), 16, vec![]);
    mmtk.vm.objects.insert(Address(ROOTS), 8, vec![0, a.0]);
    mmtk.vm.mutators.push(Mutator::new(VMMutatorThread(VMThread(1)), ObjectReference(ROOTS)));
    (a, b, c, d)
}

#[test]
fn empty_heap() {
    let (mut mmtk, mut worker) = collector(modes(), true);
    let taken = collect(&mut mmtk, &mut worker);
    assert!(taken > 0);
    let space = &mmtk.plan.immix_space;
    for b in 0..128 {
        assert_eq!(Block(START + b * 32768).get_state(&space.metadata), BlockState::Unallocated);
    }
    assert_eq!(space.get_pages_allocated(), 0);
    assert!(!space.in_defrag());
    assert_eq!(mmtk.gc_count, 1);
    assert!(mmtk.vm.post_forwarding_done);
    assert!(mmtk.vm.mutators_stopped);
    assert!(!worker.poll_and_run(&mut mmtk));
}

#[test]
fn empty_heap_prepare_then_release() {
    let (mut mmtk, _worker) = collector(modes(), true);
    let stats = mmtk.plan.stats_for_defrag();
    mmtk.plan.immix_space.prepare(true, stats, &mut mmtk.scheduler);
    mmtk.plan.immix_space.release(true, &mut mmtk.scheduler);
    for stage in 0..9 {
        assert!(mmtk.scheduler.work_buckets[stage].is_empty());
    }
    let space = &mmtk.plan.immix_space;
    for b in 0..128 {
        assert_eq!(Block(START + b * 32768).get_state(&space.metadata), BlockState::Unallocated);
    }
    assert_eq!(space.get_pages_allocated(), 0);
    assert!(!space.in_defrag());
    assert_eq!(space.line_mark_state.load(atomic::Ordering::SeqCst), 2);
    assert_eq!(space.line_unavail_state.load(atomic::Ordering::SeqCst), 2);
}

#[test]
fn reachable_objects_are_marked_and_the_rest_is_reclaimed() {
    for slot_enqueuing in [true, false] {
        let (mut mmtk, mut worker) = collector(modes(), slot_enqueuing);
        let (a, b, c, d) = heap(&mut mmtk);
        collect(&mut mmtk, &mut worker);
        let space = &mmtk.plan.immix_space;
        assert!(space.is_marked(a));
        assert!(space.is_marked(b));
        assert!(!space.is_marked(c));
        assert!(!space.is_marked(d));
        assert_eq!(
            Block::containing(a).get_state(&space.metadata),
            BlockState::Reusable { unavailable_lines: 4 }
        );
        assert_eq!(Block::containing(a).get_holes(&space.metadata), 2);
        assert_eq!(Block::containing(d).get_state(&space.metadata), BlockState::Unallocated);
        assert_eq!(space.get_pages_allocated(), 0);
        assert_eq!(mmtk.state.gc_status, GcStatus::GcProper);
        assert_eq!(mmtk.state.scanned_stacks, 1);
        assert_eq!(mmtk.state.live_bytes_in_last_gc, 632);
        assert!(!mmtk.plan.last_gc_was_defrag);
        assert!(mmtk.vm.initial_scan_complete);
        // Nothing moved.
        assert_eq!(mmtk.vm.objects.load_field(ObjectReference(ROOTS), 1), a.0);
        assert_eq!(mmtk.vm.objects.load_field(a, 0), b.0);
    }
}

#[test]
fn second_collection_rotates_the_line_marks() {
    let (mut mmtk, mut worker) = collector(modes(), true);
    let (a, _b, _c, _d) = heap(&mut mmtk);
    collect(&mut mmtk, &mut worker);
    assert_eq!(mmtk.plan.immix_space.line_mark_state.load(atomic::Ordering::SeqCst), 2);
    mmtk.vm.objects.store_field(ObjectReference(ROOTS), 1, 0);
    mmtk.scheduler.mutators_paused = false;
    collect(&mut mmtk, &mut worker);
    let space = &mmtk.plan.immix_space;
    assert_eq!(space.line_mark_state.load(atomic::Ordering::SeqCst), 3);
    assert_eq!(space.line_unavail_state.load(atomic::Ordering::SeqCst), 3);
    assert!(!space.is_marked(a));
    assert_eq!(Block::containing(a).get_state(&space.metadata), BlockState::Unallocated);
    assert_eq!(mmtk.gc_count, 2);
}

#[test]
fn line_mark_state_wraps_after_the_last_state() {
    let (mut mmtk, _worker) = collector(modes(), true);
    let mut scheduler = GCWorkScheduler::new(1);
    for round in 1..=127usize {
        let expected = (round % 127) as u8 + 1;
        let stats = mmtk.plan.stats_for_defrag();
        mmtk.plan.immix_space.prepare(true, stats, &mut scheduler);
        let state = mmtk.plan.immix_space.line_mark_state.load(atomic::Ordering::SeqCst);
        assert_eq!(state, expected);
        assert!(state >= 1 && state <= 127);
        if round < 127 {
            assert_ne!(state, 1);
        }
    }
    assert_eq!(mmtk.plan.immix_space.line_mark_state.load(atomic::Ordering::SeqCst), 1);
    let stats = mmtk.plan.stats_for_defrag();
    mmtk.plan.immix_space.prepare(false, stats, &mut scheduler);
    assert_eq!(mmtk.plan.immix_space.line_mark_state.load(atomic::Ordering::SeqCst), 1);
}

#[test]
fn defragmenting_collection_moves_objects_and_updates_slots() {
    for slot_enqueuing in [true, false] {
        let mut m = modes();
        m.defrag_every_block = true;
        let (mut mmtk, mut worker) = collector(m, slot_enqueuing);
        let (a, b, c, _d) = heap(&mut mmtk);
        mmtk.state.cur_collection_attempts = 2;
        let pinned = ObjectReference(Block::containing(a).0 + 8192);
        mmtk.vm.objects.insert(Address(pinned.0), 16, vec![]);
        mmtk.vm.objects.store_field(a, 1, pinned.0);
        mmtk.plan.immix_space.pin_object(pinned);
        collect(&mut mmtk, &mut worker);
        assert!(mmtk.plan.last_gc_was_defrag);
        let space = &mmtk.plan.immix_space;
        let new_a = ObjectReference(mmtk.vm.objects.load_field(ObjectReference(ROOTS), 1));
        assert_ne!(new_a, a);
        assert_eq!(space.get_forwarded_object(a), None);
        assert!(space.is_marked(new_a));
        let new_b = ObjectReference(mmtk.vm.objects.load_field(new_a, 0));
        assert_ne!(new_b, b);
        assert!(space.is_marked(new_b));
        assert_eq!(mmtk.vm.objects.get_current_size(new_b), 600);
        assert_eq!(mmtk.vm.objects.load_field(new_b, 0), new_a.0);
        assert_eq!(mmtk.vm.objects.load_field(new_a, 1), pinned.0);
        assert!(space.is_marked(pinned));
        assert!(!space.is_marked(c));
        assert_eq!(
            Block::containing(a).get_state(&space.metadata),
            BlockState::Reusable { unavailable_lines: 1 }
        );
        assert_ne!(Block::containing(new_a), Block::containing(a));
    }
}

#[test]
fn emergency_collection_is_told_to_the_plan() {
    let (mut mmtk, mut worker) = collector(modes(), true);
    mmtk.state.cur_collection_attempts = 2;
    mmtk.plan.last_gc_was_defrag = true;
    let mut packet = ScheduleCollection;
    packet.do_work(&mut worker, &mut mmtk);
    assert!(mmtk.state.emergency_collection);
    assert!(mmtk.plan.emergency_notified);
    assert_eq!(mmtk.state.gc_status, GcStatus::GcPrepare);
    assert!(mmtk.plan.immix_space.in_defrag());
    assert_eq!(mmtk.scheduler.work_buckets[WorkBucketStage::Unconstrained.index()].len(), 1);
    assert_eq!(mmtk.scheduler.work_buckets[WorkBucketStage::Prepare.index()].len(), 1);
    assert_eq!(mmtk.scheduler.work_buckets[WorkBucketStage::Release.index()].len(), 2);
    assert_eq!(mmtk.scheduler.work_buckets[WorkBucketStage::VMRefForwarding.index()].len(), 1);
    assert!(mmtk.scheduler.work_buckets[WorkBucketStage::VMRefClosure.index()].sentinel.is_some());
}

#[test]
fn weak_reference_processing_repeats_as_long_as_the_runtime_asks() {
    let (mut mmtk, mut worker) = collector(modes(), true);
    mmtk.vm.weak_ref_rounds = 3;
    let taken = collect(&mut mmtk, &mut worker);
    assert_eq!(mmtk.vm.weak_ref_rounds, 0);
    let (mut other, mut w) = collector(modes(), true);
    assert_eq!(collect(&mut other, &mut w) + 3, taken);
}

#[test]
fn roots_factory_makes_the_packets_of_the_three_kinds() {
    let mut scheduler = GCWorkScheduler::new(1);
    let mut factory =
        ProcessEdgesWorkRootsWorkFactory::new(GCWorkContext { default_kind: 1, pinning_kind: 255 });
    let slot = Slot { holder: ObjectReference(ROOTS), index: 0 };
    factory.create_process_roots_work(vec![slot], &mut scheduler);
    factory.create_process_pinning_roots_work(vec![ObjectReference(START)], &mut scheduler);
    factory.create_process_tpinning_roots_work(vec![ObjectReference(START + 8)], &mut scheduler);
    match scheduler.work_buckets[WorkBucketStage::Closure.index()].poll() {
        Some(WorkPacket::PlanProcessEdges(p)) => {
            assert_eq!(p.base.slots, vec![slot]);
            assert!(p.base.is_roots());
            assert_eq!(p.kind, 1);
            assert_eq!(p.base.bucket, WorkBucketStage::Closure);
        }
        _ => panic!("a packet that traces slots was expected"),
    }
    match scheduler.work_buckets[WorkBucketStage::PinningRootsTrace.index()].poll() {
        Some(WorkPacket::ProcessRootNode(p)) => {
            assert_eq!(p.roots, vec![ObjectReference(START)]);
            assert_eq!((p.root_kind, p.object_kind), (255, 1));
            assert_eq!(p.bucket, WorkBucketStage::Closure);
        }
        _ => panic!("a packet that traces root objects was expected"),
    }
    match scheduler.work_buckets[WorkBucketStage::TPinningClosure.index()].poll() {
        Some(WorkPacket::ProcessRootNode(p)) => {
            assert_eq!((p.root_kind, p.object_kind), (255, 255));
            assert_eq!(p.bucket, WorkBucketStage::TPinningClosure);
        }
        _ => panic!("a packet that traces root objects was expected"),
    }
}

#[test]
fn pinning_roots_do_not_move() {
    let mut m = modes();
    m.defrag_every_block = true;
    let (mut mmtk, mut worker) = collector(m, true);
    let (a, b, _c, d) = heap(&mut mmtk);
    mmtk.vm.objects.store_field(ObjectReference(ROOTS), 1, 0);
    mmtk.vm.pinning_roots.push(a);
    mmtk.vm.tpinning_roots.push(d);
    mmtk.state.cur_collection_attempts = 2;
    collect(&mut mmtk, &mut worker);
    let space = &mmtk.plan.immix_space;
    assert!(space.is_marked(a));
    assert!(space.is_marked(d));
    assert_eq!(space.get_forwarded_object(a), None);
    // What a pinning root refers to may move.
    let new_b = ObjectReference(mmtk.vm.objects.load_field(a, 0));
    assert_ne!(new_b, b);
    assert!(space.is_marked(new_b));
}

#[test]
fn process_root_node_scans_each_root_once() {
    let (mut mmtk, mut worker) = collector(modes(), true);
    let (a, b, _c, _d) = heap(&mut mmtk);
    let mut packet = ProcessRootNode::new(vec![a, b, a], WorkBucketStage::Closure, 255, 0);
    packet.do_work(&mut worker, &mut mmtk);
    match mmtk.scheduler.work_buckets[WorkBucketStage::Closure.index()].poll() {
        Some(WorkPacket::PlanScanObjects(p)) => {
            assert_eq!(p.buffer, vec![a, b]);
            assert_eq!(p.kind, 0);
        }
        _ => panic!("a packet that scans objects was expected"),
    }
}

#[test]
fn process_edges_base() {
    let slot = Slot { holder: ObjectReference(ROOTS), index: 1 };
    let mut base = ProcessEdgesBase::new(vec![slot], true, WorkBucketStage::Closure);
    assert!(base.is_roots());
    assert_eq!(base.worker(), None);
    let worker = GCWorker::new(VMWorkerThread(VMThread(4)), 4);
    base.set_worker(&worker);
    assert_eq!(base.worker(), Some(4));
    assert_eq!(base.pop_nodes(), vec![]);
    assert_eq!(base.pushes, 0);
}

#[test]
fn process_slot_stores_the_new_reference() {
    let mut m = modes();
    m.defrag_every_block = true;
    let (mut mmtk, mut worker) = collector(m, true);
    let (a, _b, _c, _d) = heap(&mut mmtk);
    Block::containing(a).set_as_defrag_source(&mut mmtk.plan.immix_space.metadata, true);
    let root = Slot { holder: ObjectReference(ROOTS), index: 1 };
    let empty = Slot { holder: ObjectReference(ROOTS), index: 0 };
    let missing = Slot { holder: ObjectReference(ROOTS), index: 7 };
    let mut packet =
        PlanProcessEdges::new(vec![empty, missing, root], true, WorkBucketStage::Closure, 1);
    packet.process_slots(&mut worker, &mut mmtk);
    let new_a = root.load(&mmtk.vm.objects).unwrap();
    assert_ne!(new_a, a);
    assert_eq!(packet.base.nodes.len(), 1);
    let nodes = packet.base.nodes.take();
    let work = packet.create_scan_work(nodes);
    assert_eq!(work.buffer, vec![new_a]);
    assert_eq!(work.bucket, WorkBucketStage::Closure);

    let mut fast = PlanProcessEdges::new(vec![root], true, WorkBucketStage::Closure, 0);
    fast.process_slot(root, &mut worker, &mut mmtk);
    assert_eq!(root.load(&mmtk.vm.objects), Some(new_a));
    assert!(fast.base.nodes.is_empty());
}

#[test]
fn flush_half_splits_the_slots() {
    let mut scheduler = GCWorkScheduler::new(1);
    let slots: Vec<Slot> =
        (0..5).map(|i| Slot { holder: ObjectReference(ROOTS), index: i }).collect();
    let mut packet = PlanProcessEdges::new(slots.clone(), false, WorkBucketStage::Closure, 0);
    packet.flush_half(&mut scheduler);
    assert_eq!(packet.base.slots, slots[..2].to_vec());
    assert_eq!(packet.base.pushes, 2);
    match scheduler.work_buckets[WorkBucketStage::Closure.index()].poll() {
        Some(WorkPacket::PlanProcessEdges(p)) => assert_eq!(p.base.slots, slots[2..].to_vec()),
        _ => panic!("a packet that traces slots was expected"),
    }
    let mut single = PlanProcessEdges::new(vec![slots[0]], false, WorkBucketStage::Closure, 0);
    single.flush_half(&mut scheduler);
    assert_eq!(single.base.slots.len(), 1);
    assert!(scheduler.work_buckets[WorkBucketStage::Closure.index()].is_empty());
}

#[test]
fn scan_objects_hands_the_slots_on_in_packets() {
    let (mut mmtk, mut worker) = collector(modes(), true);
    let block = mmtk.plan.immix_space.get_clean_block(VMThread(1), false).unwrap();
    let wide = ObjectReference(block.0);
    mmtk.vm.objects.insert(Address(wide.0), 16384, vec![0; 5000]);
    let mut packet = ScanObjects::new(vec![wide], false, WorkBucketStage::Closure, 0);
    packet.do_work(&mut worker, &mut mmtk);
    let bucket = &mut mmtk.scheduler.work_buckets[WorkBucketStage::Closure.index()];
    assert_eq!(bucket.len(), 2);
    match bucket.poll() {
        Some(WorkPacket::PlanProcessEdges(p)) => {
            assert_eq!(p.base.slots.len(), 4096);
            assert_eq!(p.base.slots[17], Slot { holder: wide, index: 17 });
            assert!(!p.base.is_roots());
        }
        _ => panic!("a packet that traces slots was expected"),
    }
    match bucket.poll() {
        Some(WorkPacket::PlanProcessEdges(p)) => assert_eq!(p.base.slots.len(), 904),
        _ => panic!("a packet that traces slots was expected"),
    }
    assert_eq!(mmtk.scheduler.worker_live_bytes, vec![16384]);
    // The lines of the object wait for a packet that lets the plan look at
    // the object.
    let state = mmtk.plan.immix_space.line_mark_state.load(atomic::Ordering::SeqCst);
    assert!(!immix::policy::immix::line::Line(block.0).is_marked(&mmtk.plan.immix_space.metadata, state));
    let mut plan_packet = PlanScanObjects::new(vec![wide], false, WorkBucketStage::Closure, 0);
    plan_packet.do_work(&mut worker, &mut mmtk);
    assert!(immix::policy::immix::line::Line(block.0 + 63 * 256)
        .is_marked(&mmtk.plan.immix_space.metadata, state));
}

#[test]
fn tracer_flushes_full_and_left_over_nodes() {
    let (mut mmtk, mut worker) = collector(modes(), false);
    let (a, b, _c, _d) = heap(&mut mmtk);
    let mut tracer = ProcessEdgesWorkTracer {
        process_edges_work: PlanProcessEdges::new(vec![], false, WorkBucketStage::Closure, 0),
        stage: WorkBucketStage::Closure,
    };
    tracer.flush_if_not_empty(&mut mmtk.scheduler);
    assert!(mmtk.scheduler.work_buckets[WorkBucketStage::Closure.index()].is_empty());
    assert_eq!(tracer.trace_object(a, &mut worker, &mut mmtk), a);
    assert_eq!(tracer.trace_object(b, &mut worker, &mut mmtk), b);
    assert_eq!(tracer.trace_object(a, &mut worker, &mut mmtk), a);
    tracer.flush_if_full(&mut mmtk.scheduler);
    assert!(mmtk.scheduler.work_buckets[WorkBucketStage::Closure.index()].is_empty());
    tracer.flush_if_not_empty(&mut mmtk.scheduler);
    match mmtk.scheduler.work_buckets[WorkBucketStage::Closure.index()].poll() {
        Some(WorkPacket::PlanScanObjects(p)) => assert_eq!(p.buffer, vec![a, b]),
        _ => panic!("a packet that scans objects was expected"),
    }
}

#[test]
fn packets_that_lack_what_they_need_are_not_ready() {
    let (mut mmtk, worker) = collector(modes(), true);
    assert!(!WorkPacket::PrepareMutator(immix::scheduler::gc_work::PrepareMutator::new(0))
        .is_ready(&worker, &mmtk));
    mmtk.vm.mutators.push(Mutator::new(VMMutatorThread(VMThread(1)), ObjectReference(ROOTS)));
    assert!(WorkPacket::PrepareMutator(immix::scheduler::gc_work::PrepareMutator::new(0))
        .is_ready(&worker, &mmtk));
    assert!(!WorkPacket::SFTProcessEdges(immix::scheduler::gc_work::SFTProcessEdges::new(
        vec![],
        false,
        WorkBucketStage::Closure
    ))
    .is_ready(&worker, &mmtk));
    assert!(!WorkPacket::ProcessRootNode(ProcessRootNode::new(
        vec![],
        WorkBucketStage::Closure,
        1,
        0
    ))
    .is_ready(&worker, &mmtk));
    assert!(!WorkPacket::PlanProcessEdges(PlanProcessEdges::new(
        vec![],
        false,
        WorkBucketStage::Closure,
        7
    ))
    .is_ready(&worker, &mmtk));
}

#[test]
fn worker_takes_what_is_set_aside_for_it_first() {
    let (mut mmtk, mut worker) = collector(modes(), true);
    mmtk.scheduler.add(
        WorkBucketStage::Unconstrained,
        WorkPacket::ScheduleCollection(ScheduleCollection),
    );
    mmtk.scheduler.designated_work[0].push(WorkPacket::VMPostForwarding(VMPostForwarding));
    assert!(worker.poll_and_run(&mut mmtk));
    assert!(mmtk.vm.post_forwarding_done);
    assert_eq!(mmtk.gc_count, 0);
    assert_eq!(mmtk.scheduler.designated_work[0].len(), 0);
    assert_eq!(mmtk.scheduler.work_buckets[0].len(), 1);
    assert!(worker.poll_and_run(&mut mmtk));
    assert_eq!(mmtk.gc_count, 1);
}

#[test]
fn worker_stops_at_the_limit_or_when_nothing_is_left() {
    let (mut mmtk, mut worker) = collector(modes(), true);
    for _ in 0..3 {
        mmtk.scheduler.designated_work[0]
            .push(WorkPacket::VMPostForwarding(VMPostForwarding));
    }
    assert_eq!(worker.run(&mut mmtk, 0), 0);
    assert_eq!(mmtk.scheduler.designated_work[0].len(), 3);
    assert_eq!(worker.run(&mut mmtk, 2), 2);
    assert_eq!(mmtk.scheduler.designated_work[0].len(), 1);
    assert_eq!(worker.run(&mut mmtk, 10), 1);
    assert_eq!(worker.run(&mut mmtk, 10), 0);
}

#[test]
fn packet_that_cannot_run_is_taken_and_passed_over() {
    let (mut mmtk, mut worker) = collector(modes(), true);
    mmtk.scheduler.add(
        WorkBucketStage::Unconstrained,
        WorkPacket::PlanProcessEdges(PlanProcessEdges::new(
            vec![],
            false,
            WorkBucketStage::Unconstrained,
            7,
        )),
    );
    assert!(worker.poll_and_run(&mut mmtk));
    assert_eq!(mmtk.scheduler.work_buckets[0].len(), 0);
    assert_eq!(mmtk.gc_count, 0);
    assert!(!worker.poll_and_run(&mut mmtk));
}

#[test]
fn enqueue_takes_the_slots_that_hold_a_reference() {
    let (mut mmtk, worker) = collector(modes(), true);
    let (a, b, _c, _d) = heap(&mut mmtk);
    let mut packet = PlanProcessEdges::new(vec![], false, WorkBucketStage::Closure, 0);
    packet.enqueue(a, &worker, &mut mmtk);
    assert_eq!(packet.base.slots, vec![Slot { holder: a, index: 0 }]);
    assert_eq!(packet.base.pushes, 1);
    assert_eq!(mmtk.scheduler.work_buckets[5].len(), 0);
    packet.enqueue(b, &worker, &mut mmtk);
    assert_eq!(
        packet.base.slots,
        vec![Slot { holder: a, index: 0 }, Slot { holder: b, index: 0 }]
    );
    assert_eq!(packet.base.pushes, 2);
    // The plan looked at both objects: their lines are marked.
    let space = &mmtk.plan.immix_space;
    let state = space.line_mark_state.load(atomic::Ordering::Acquire);
    let block = Block(a.0);
    let marks = block.line_mark_table(&space.metadata);
    assert_eq!(marks.iter().filter(|m| **m == state).count(), 1 + 3);
    assert_eq!(marks[0], state);
    assert_eq!(marks[4], state);
    assert_eq!(marks[6], state);
    assert_ne!(marks[7], state);
}

#[test]
fn enqueue_splits_the_packet_that_took_many_slots() {
    let (mut mmtk, worker) = collector(modes(), true);
    let (a, b, _c, _d) = heap(&mut mmtk);
    let held = vec![
        Slot { holder: b, index: 0 },
        Slot { holder: b, index: 0 },
        Slot { holder: b, index: 0 },
    ];
    let mut packet = PlanProcessEdges::new(held, true, WorkBucketStage::Closure, 1);
    packet.base.pushes = 2047;
    packet.enqueue(a, &worker, &mut mmtk);
    assert_eq!(packet.base.slots, vec![Slot { holder: b, index: 0 }, Slot { holder: b, index: 0 }]);
    assert_eq!(packet.base.pushes, 2);
    assert!(packet.base.roots);
    assert_eq!(mmtk.scheduler.work_buckets[5].len(), 1);
    match mmtk.scheduler.work_buckets[5].poll() {
        Some(WorkPacket::PlanProcessEdges(p)) => {
            assert_eq!(
                p.base.slots,
                vec![Slot { holder: b, index: 0 }, Slot { holder: a, index: 0 }]
            );
            assert_eq!(p.kind, 1);
            assert_eq!(p.base.bucket, WorkBucketStage::Closure);
            assert!(!p.base.roots);
            assert_eq!(p.base.pushes, 0);
        },
        _ => panic!("no packet was split off"),
    }
}

#[test]
fn enqueue_of_an_unknown_object_takes_nothing() {
    let (mut mmtk, worker) = collector(modes(), true);
    let mut packet = PlanProcessEdges::new(vec![], false, WorkBucketStage::Closure, 0);
    packet.enqueue(ObjectReference(START + 64), &worker, &mut mmtk);
    assert!(packet.base.slots.is_empty());
    assert_eq!(packet.base.pushes, 0);
}
