use immix::plan::tracing::VectorObjectQueue;
use immix::policy::immix::block::Block;
use immix::policy::immix::block::BlockState;
use immix::policy::immix::immixspace::ImmixSpace;
use immix::policy::immix::immixspace::ImmixSpaceArgs;
use immix::policy::immix::ImmixModes;
use immix::policy::space::PlanCreateSpaceArgs;
use immix::scheduler::worker::GCWorker;
use immix::util::address::Address;
use immix::util::address::ObjectReference;
use immix::util::copy::CopySemantics;
use immix::util::copy::GCWorkerCopyContext;
use immix::util::object_forwarding::attempt_to_forward;
use immix::util::object_forwarding::clear_forwarding_bits;
use immix::util::object_forwarding::get_forwarding_status;
use immix::util::object_forwarding::is_forwarded;
use immix::util::object_forwarding::is_forwarded_or_being_forwarded;
use immix::util::object_forwarding::poll_forwarded_object;
use immix::util::object_forwarding::read_forwarding_pointer;
use immix::util::object_forwarding::spin_and_get_forwarded_object;
use immix::util::object_forwarding::state_is_being_forwarded;
use immix::util::object_forwarding::state_is_forwarded_or_being_forwarded;
use immix::util::object_forwarding::BEING_FORWARDED;
use immix::util::object_forwarding::FORWARDED;
use immix::util::object_forwarding::FORWARDING_NOT_TRIGGERED_YET;
use immix::util::opaque_pointer::VMThread;
use immix::util::opaque_pointer::VMWorkerThread;
use immix::vm::object_model::ObjectModel;

const START: usize = 0x40_0000;
const CHUNK: usize = 0x40_0000;

fn space() -> ImmixSpace {
    ImmixSpace::new(
        PlanCreateSpaceArgs {
            name: "immix",
            start: Address(START),
            extent: CHUNK,
            needs_log_bit: false,
            modes: ImmixModes {
                block_only: false,
                mark_line_at_scan_time: false,
                defrag_every_block: false,
                non_moving: false,
                sticky_non_moving_nursery: false,
                vo_bit: false,
                object_pinning: true,
            },
        },
        ImmixSpaceArgs {
            unlog_object_when_traced: false,
            mixed_age: false,
            never_move_objects: false,
        },
    )
}

fn worker(n: usize) -> GCWorker {
    GCWorker::new(VMWorkerThread(VMThread(n)), n)
}

fn setup() -> (ImmixSpace, ObjectModel, ObjectReference, Block) {
    let mut space = space();
    let mut vm = ObjectModel::new();
    let block = space.get_clean_block(VMThread(0), false).unwrap();
    let object = ObjectReference(block.0 + 64);
    vm.insert(Address(object.0), 48, vec![0, 0]);
    block.set_as_defrag_source(&mut space.metadata, true);
    (space, vm, object, block)
}

#[test]
fn forwarding_states() {
    assert!(!state_is_forwarded_or_being_forwarded(FORWARDING_NOT_TRIGGERED_YET));
    assert!(state_is_forwarded_or_being_forwarded(BEING_FORWARDED));
    assert!(state_is_forwarded_or_being_forwarded(FORWARDED));
    assert!(state_is_being_forwarded(BEING_FORWARDED));
    assert!(!state_is_being_forwarded(FORWARDED));
}

#[test]
fn only_one_attempt_wins() {
    let (mut space, _vm, object, _block) = setup();
    assert_eq!(attempt_to_forward(&mut space.metadata, object), FORWARDING_NOT_TRIGGERED_YET);
    assert_eq!(attempt_to_forward(&mut space.metadata, object), BEING_FORWARDED);
    assert_eq!(attempt_to_forward(&mut space.metadata, object), BEING_FORWARDED);
    assert_eq!(get_forwarding_status(&space.metadata, object), BEING_FORWARDED);
    assert!(is_forwarded_or_being_forwarded(&space.metadata, object));
    assert!(!is_forwarded(&space.metadata, object));
    assert_eq!(poll_forwarded_object(&space.metadata, object), None);
    clear_forwarding_bits(&mut space.metadata, object);
    assert_eq!(poll_forwarded_object(&space.metadata, object), Some(object));
    assert_eq!(
        spin_and_get_forwarded_object(&space.metadata, object, BEING_FORWARDED),
        object
    );
}

#[test]
fn two_workers_race_to_forward() {
    let (mut space, mut vm, object, _block) = setup();
    let mut a = worker(0);
    let mut b = worker(1);
    let mut queue_a = VectorObjectQueue::new();
    let mut queue_b = VectorObjectQueue::new();
    let found_a = attempt_to_forward(&mut space.metadata, object);
    let found_b = attempt_to_forward(&mut space.metadata, object);
    assert_eq!(found_a, FORWARDING_NOT_TRIGGERED_YET);
    assert_eq!(found_b, BEING_FORWARDED);
    assert_eq!(poll_forwarded_object(&space.metadata, object), None);
    let copy = space.trace_forwarding_result(
        &mut queue_a,
        object,
        found_a,
        CopySemantics::DefaultCopy,
        &mut a,
        &mut vm,
        false,
    );
    assert_ne!(copy, object);
    assert_eq!(poll_forwarded_object(&space.metadata, object), Some(copy));
    let other = space.trace_forwarding_result(
        &mut queue_b,
        object,
        found_b,
        CopySemantics::DefaultCopy,
        &mut b,
        &mut vm,
        false,
    );
    assert_eq!(other, copy);
    assert_eq!(read_forwarding_pointer(&space.metadata, object), copy);
    assert_eq!(get_forwarding_status(&space.metadata, object), FORWARDED);
    assert_eq!(Block::containing(copy).get_state(&space.metadata), BlockState::Marked);
    assert!(!Block::containing(copy).is_defrag_source(&space.metadata));
    assert!(space.is_marked(copy));
    assert!(!space.is_marked(object));
    assert!(space.is_live(object));
    assert_eq!(space.get_forwarded_object(object), Some(copy));
    assert_eq!(queue_a.into_vec(), vec![copy]);
    assert!(queue_b.is_empty());
    assert_eq!(vm.get_current_size(copy), 48);
    assert_eq!(vm.number_of_fields(copy), 2);
}

#[test]
fn later_traces_return_the_copy() {
    let (mut space, mut vm, object, _block) = setup();
    let mut a = worker(0);
    let mut queue = VectorObjectQueue::new();
    let copy = space.trace_object_with_opportunistic_copy(
        &mut queue,
        object,
        CopySemantics::DefaultCopy,
        &mut a,
        &mut vm,
        false,
    );
    assert_ne!(copy, object);
    for _ in 0..3 {
        let again = space.trace_object_with_opportunistic_copy(
            &mut queue,
            object,
            CopySemantics::DefaultCopy,
            &mut a,
            &mut vm,
            false,
        );
        assert_eq!(again, copy);
    }
    assert_eq!(queue.len(), 1);
}

#[test]
fn marked_object_is_not_forwarded() {
    let (mut space, mut vm, object, _block) = setup();
    let mut a = worker(0);
    let mut queue = VectorObjectQueue::new();
    assert!(space.attempt_mark(object, 1));
    let result = space.trace_object_with_opportunistic_copy(
        &mut queue,
        object,
        CopySemantics::DefaultCopy,
        &mut a,
        &mut vm,
        false,
    );
    assert_eq!(result, object);
    assert!(queue.is_empty());
    assert_eq!(get_forwarding_status(&space.metadata, object), FORWARDING_NOT_TRIGGERED_YET);
}

#[test]
fn pinned_object_is_marked_in_place() {
    let (mut space, mut vm, object, block) = setup();
    let mut a = worker(0);
    let mut queue = VectorObjectQueue::new();
    space.pin_object(object);
    let result = space.trace_object_with_opportunistic_copy(
        &mut queue,
        object,
        CopySemantics::DefaultCopy,
        &mut a,
        &mut vm,
        false,
    );
    assert_eq!(result, object);
    assert!(space.is_marked(object));
    assert_eq!(block.get_state(&space.metadata), BlockState::Marked);
    assert_eq!(get_forwarding_status(&space.metadata, object), FORWARDING_NOT_TRIGGERED_YET);
    assert_eq!(queue.into_vec(), vec![object]);
    let state = space.line_mark_state.load(atomic::Ordering::SeqCst);
    assert!(immix::policy::immix::line::Line(block.0).is_marked(&space.metadata, state));
}

#[test]
fn exhausted_headroom_marks_in_place_except_in_a_nursery_collection() {
    let (mut space, mut vm, object, _block) = setup();
    let mut a = worker(0);
    let mut queue = VectorObjectQueue::new();
    space.defrag.notify_new_clean_block(true);
    assert!(space.defrag.space_exhausted());
    let result = space.trace_object_with_opportunistic_copy(
        &mut queue,
        object,
        CopySemantics::DefaultCopy,
        &mut a,
        &mut vm,
        false,
    );
    assert_eq!(result, object);
    assert!(space.is_marked(object));

    let (mut space, mut vm, object, _block) = setup();
    space.defrag.notify_new_clean_block(true);
    let moved = space.trace_object_with_opportunistic_copy(
        &mut queue,
        object,
        CopySemantics::DefaultCopy,
        &mut a,
        &mut vm,
        true,
    );
    assert_ne!(moved, object);
}

#[test]
fn copy_falls_back_to_marking_when_memory_runs_out() {
    let mut space = space();
    let mut vm = ObjectModel::new();
    let mut first = None;
    for _ in 0..128 {
        let block = space.get_clean_block(VMThread(0), false).unwrap();
        if first.is_none() {
            first = Some(block);
        }
    }
    let block = first.unwrap();
    let object = ObjectReference(block.0);
    vm.insert(Address(object.0), 16, vec![]);
    let mut a = worker(0);
    let mut queue = VectorObjectQueue::new();
    let result = space.trace_object_with_opportunistic_copy(
        &mut queue,
        object,
        CopySemantics::DefaultCopy,
        &mut a,
        &mut vm,
        false,
    );
    assert_eq!(result, object);
    assert!(space.is_marked(object));
    assert_eq!(queue.into_vec(), vec![object]);
    assert_eq!(get_forwarding_status(&space.metadata, object), FORWARDING_NOT_TRIGGERED_YET);
}

#[test]
fn trace_object_dispatches_on_the_kind() {
    let (mut space, mut vm, object, block) = setup();
    let mut a = worker(0);
    let mut queue = VectorObjectQueue::new();
    let pinned = space.trace_object(&mut queue, object, None, &mut a, &mut vm, 255);
    assert_eq!(pinned, object);
    assert!(space.is_marked(object));

    let (mut space, mut vm, object, _block) = setup();
    let fast = space.trace_object(&mut queue, object, None, &mut a, &mut vm, 0);
    assert_eq!(fast, object);

    let (mut space, mut vm, object, _block) = setup();
    let moved = space.trace_object(
        &mut queue,
        object,
        Some(CopySemantics::DefaultCopy),
        &mut a,
        &mut vm,
        1,
    );
    assert_ne!(moved, object);

    let (mut space, mut vm, object, block2) = setup();
    block2.set_as_defrag_source(&mut space.metadata, false);
    let stays = space.trace_object(
        &mut queue,
        object,
        Some(CopySemantics::DefaultCopy),
        &mut a,
        &mut vm,
        1,
    );
    assert_eq!(stays, object);
    let _ = block;
}

#[test]
fn hybrid_context_allocates_by_defrag_state() {
    let (mut space, mut vm, object, _block) = setup();
    let mut context = GCWorkerCopyContext::new_immix_hybrid(VMWorkerThread(VMThread(0)));
    let addr = context.alloc_copy(&mut space, object, 48, 8, 0, CopySemantics::DefaultCopy);
    assert!(!addr.is_zero());
    assert_eq!(
        Block::containing(ObjectReference(addr.0)).get_state(&space.metadata),
        BlockState::Unmarked
    );
    space.decide_whether_to_defrag(true, true, 1, false, false);
    assert!(space.in_defrag());
    let addr2 = context.alloc_copy(&mut space, object, 48, 8, 0, CopySemantics::DefaultCopy);
    assert_eq!(
        Block::containing(ObjectReference(addr2.0)).get_state(&space.metadata),
        BlockState::Marked
    );
    let copy = vm.copy(object, addr2);
    context.post_copy(&mut space, &vm, copy, 48, CopySemantics::DefaultCopy);
    assert!(space.is_marked(copy));
    context.release();
    context.prepare();
}
