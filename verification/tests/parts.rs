use immix::global_state::GlobalState;
use immix::plan::tracing::ObjectQueue;
use immix::plan::tracing::VectorObjectQueue;
use immix::policy::immix::block::Block;
use immix::policy::immix::block::BlockState;
use immix::policy::immix::block::ReusableBlockPool;
use immix::policy::immix::line::Line;
use immix::scheduler::scheduler::GCWorkScheduler;
use immix::scheduler::work::WorkPacket;
use immix::scheduler::work_bucket::WorkBucket;
use immix::scheduler::work_bucket::WorkBucketStage;
use immix::util::address::Address;
use immix::util::address::ObjectReference;
use immix::util::copy::CopySemantics;
use immix::util::heap::blockpageresource::BlockPageResource;
use immix::util::heap::chunk_map::Chunk;
use immix::util::heap::chunk_map::ChunkMap;
use immix::util::heap::chunk_map::ChunkState;
use immix::util::metadata::SideMetadata;
use immix::util::metadata::SideMetadataContext;
use immix::util::metadata::SideMetadataSpec;
use immix::vm::object_model::ObjectModel;
use immix::vm::slot::Slot;
use immix::vm::vm_binding::VMBinding;

const START: usize = 0x40_0000;
const CHUNK: usize = 0x40_0000;

#[test]
fn addresses() {
    assert!(Address::zero().is_zero());
    assert!(!Address::from_usize(8).is_zero());
    assert_eq!(Address(0x1234).align_down(0x100), Address(0x1200));
    assert!(Address(0x1200).is_aligned_to(0x100));
    assert!(!Address(0x1234).is_aligned_to(0x100));
    assert_eq!(Address(0x1234).get_extent(Address(0x1000)), 0x234);
    assert_eq!(Address(77).as_usize(), 77);
    assert_eq!(ObjectReference::from_raw_address(Address(0)), None);
    assert_eq!(ObjectReference::from_raw_address(Address(64)), Some(ObjectReference(64)));
    assert_eq!(ObjectReference(64).to_raw_address(), Address(64));
}

#[test]
fn lines_and_blocks() {
    let line = Line::from_unaligned_address(Address(START + 32768 + 700));
    assert_eq!(line, Line(START + 32768 + 512));
    assert_eq!(line.get_index_within_block(), 2);
    assert_eq!(line.block(), Block(START + 32768));
    assert_eq!(line.start(), Address(START + 32768 + 512));
    assert_eq!(line.end(), Address(START + 32768 + 768));
    assert_eq!(line.next(), Line(START + 32768 + 768));
    assert_eq!(line.next_nth(3), Line(START + 32768 + 1280));
    assert!(Line::is_aligned(Address(512)));
    assert!(!Line::is_aligned(Address(513)));
    assert_eq!(Line::from_aligned_address(Address(256)), Line(256));
    let block = Block::containing(ObjectReference(START + 3 * 32768 + 8));
    assert_eq!(block, Block(START + 3 * 32768));
    assert_eq!(block.start(), Address(START + 3 * 32768));
    assert_eq!(block.end(), Address(START + 4 * 32768));
    assert_eq!(block.chunk(), Chunk(START));
    assert_eq!(block.start_line(), Line(START + 3 * 32768));
    assert_eq!(block.line(127), Line(START + 4 * 32768 - 256));
    assert_eq!(Block::from_unaligned_address(Address(START + 5)), Block(START));
    assert_eq!(Block::from_aligned_address(Address(START)), Block(START));
    assert_eq!(Chunk::from_unaligned_address(Address(START + CHUNK + 9)), Chunk(START + CHUNK));
}

#[test]
fn block_states_and_their_bytes() {
    assert_eq!(BlockState::Unallocated.to_byte(), 0);
    assert_eq!(BlockState::Unmarked.to_byte(), 255);
    assert_eq!(BlockState::Marked.to_byte(), 254);
    assert_eq!(BlockState::Reusable { unavailable_lines: 17 }.to_byte(), 17);
    assert_eq!(BlockState::from_byte(0), BlockState::Unallocated);
    assert_eq!(BlockState::from_byte(255), BlockState::Unmarked);
    assert_eq!(BlockState::from_byte(254), BlockState::Marked);
    assert_eq!(BlockState::from_byte(1), BlockState::Reusable { unavailable_lines: 1 });
    assert_eq!(BlockState::from_byte(253), BlockState::Reusable { unavailable_lines: 253 });
    for byte in 0..=255u8 {
        assert_eq!(BlockState::from_byte(byte).to_byte(), byte);
    }
    assert!(BlockState::Reusable { unavailable_lines: 3 }.is_reusable());
    assert!(!BlockState::Marked.is_reusable());
}

#[test]
fn block_metadata() {
    let specs = vec![
        SideMetadataSpec::LineMark,
        SideMetadataSpec::BlockMark,
        SideMetadataSpec::BlockDefragSource,
        SideMetadataSpec::BlockHoles,
    ];
    let mut meta = SideMetadataContext::new(Address(START), 2, &specs);
    assert!(meta.has(SideMetadataSpec::BlockMark));
    assert!(!meta.has(SideMetadataSpec::ObjectMark));
    assert!(meta.contains(Address(START + 2 * CHUNK - 1)));
    assert!(!meta.contains(Address(START + 2 * CHUNK)));
    assert_eq!(meta.start(), Address(START));
    assert_eq!(meta.chunks(), 2);
    let block = Block(START + CHUNK + 32768);
    block.init(&mut meta, true);
    assert_eq!(block.get_state(&meta), BlockState::Marked);
    block.set_holes(&mut meta, 9);
    block.set_as_defrag_source(&mut meta, true);
    assert_eq!(block.get_holes(&meta), 9);
    assert!(block.is_defrag_source(&meta));
    block.init(&mut meta, false);
    assert_eq!(block.get_state(&meta), BlockState::Unmarked);
    assert_eq!(block.get_holes(&meta), 0);
    assert!(!block.is_defrag_source(&meta));
    assert_eq!(Block(START + CHUNK).get_state(&meta), BlockState::Unallocated);
    block.deinit(&mut meta);
    assert_eq!(block.get_state(&meta), BlockState::Unallocated);
    Line(block.0 + 512).mark(&mut meta, 5);
    let table = block.line_mark_table(&meta);
    assert_eq!(table.len(), 128);
    assert_eq!(table[2], 5);
    assert_eq!(table.iter().filter(|m| **m != 0).count(), 1);
    assert!(Line(block.0 + 512).is_marked(&meta, 5));
    assert!(!Line(block.0 + 512).is_marked(&meta, 6));
}

#[test]
fn side_metadata_tables() {
    let mut table: SideMetadata<u8> = SideMetadata::new(16, 0);
    assert_eq!(table.len(), 16);
    table.store(3, 7);
    assert_eq!(table.load(3), 7);
    assert_eq!(table.compare_exchange(3, 7, 9), Ok(7));
    assert_eq!(table.compare_exchange(3, 7, 1), Err(9));
    assert_eq!(table.load(3), 9);
    table.fill(2, 3, 4);
    assert_eq!((table.load(1), table.load(2), table.load(4), table.load(5)), (0, 4, 4, 0));

    let specs = vec![SideMetadataSpec::ObjectMark, SideMetadataSpec::ForwardingPointer];
    let mut meta = SideMetadataContext::new(Address(START), 1, &specs);
    meta.store(SideMetadataSpec::ObjectMark, Address(START + 16), 1);
    assert_eq!(meta.load(SideMetadataSpec::ObjectMark, Address(START + 16)), 1);
    assert_eq!(meta.load(SideMetadataSpec::ObjectMark, Address(START + 23)), 1);
    assert_eq!(meta.load(SideMetadataSpec::ObjectMark, Address(START + 24)), 0);
    assert_eq!(
        meta.compare_exchange(SideMetadataSpec::ObjectMark, Address(START + 16), 0, 5),
        Err(1)
    );
    assert_eq!(
        meta.compare_exchange(SideMetadataSpec::ObjectMark, Address(START + 16), 1, 5),
        Ok(1)
    );
    meta.store(SideMetadataSpec::ObjectMark, Address(START + 32768), 3);
    meta.bzero_metadata(SideMetadataSpec::ObjectMark, Address(START), 32768);
    assert_eq!(meta.load(SideMetadataSpec::ObjectMark, Address(START + 16)), 0);
    assert_eq!(meta.load(SideMetadataSpec::ObjectMark, Address(START + 32768)), 3);
    meta.bzero_blocks(SideMetadataSpec::ObjectMark, Address(START + 32768), 32768);
    assert_eq!(meta.load(SideMetadataSpec::ObjectMark, Address(START + 32768)), 0);
    meta.store_pointer(Address(START + 8), 0xdead0);
    assert_eq!(meta.load_pointer(Address(START + 8)), 0xdead0);
    assert_eq!(meta.load_pointer(Address(START + 16)), 0);
    assert_eq!(SideMetadataSpec::LineMark.ordinal(), 0);
    assert_eq!(SideMetadataSpec::VoBit.ordinal(), 9);
    assert_eq!(SideMetadataSpec::LineMark.region_bytes(), 256);
    assert_eq!(SideMetadataSpec::BlockHoles.cells_in_chunk(), 128);
    assert_eq!(SideMetadataSpec::LogBit.cells_in_chunk(), 524288);
}

#[test]
fn chunk_map() {
    let mut map = ChunkMap::new(Address(START), 3);
    assert_eq!(map.len(), 3);
    assert_eq!(map.get(Chunk(START)), Some(ChunkState::Free));
    assert_eq!(map.get(Chunk(START + 3 * CHUNK)), None);
    assert_eq!(map.get(Chunk(0)), None);
    map.set_allocated(Chunk(START + 2 * CHUNK), true);
    map.set_allocated(Chunk(START), true);
    map.set_allocated(Chunk(START + 7 * CHUNK), true);
    assert_eq!(map.get(Chunk(START + 2 * CHUNK)), Some(ChunkState::Allocated));
    assert_eq!(
        map.all_chunks(),
        vec![Chunk(START), Chunk(START + CHUNK), Chunk(START + 2 * CHUNK)]
    );
    assert_eq!(map.generate_tasks(|c| c.0), vec![START, START + 2 * CHUNK]);
    map.set_allocated(Chunk(START), false);
    assert_eq!(map.generate_tasks(|c| c.start().0 / CHUNK), vec![3]);
    assert_eq!(map.chunk_at(1), Chunk(START + CHUNK));
    assert!(ChunkState::Allocated.is_allocated());
    assert!(ChunkState::Free.is_free());
}

#[test]
fn reusable_block_pool() {
    let mut pool = ReusableBlockPool::new();
    assert_eq!(pool.pop(), None);
    pool.push(Block(START));
    pool.push(Block(START + 32768));
    assert_eq!(pool.len(), 2);
    assert_eq!(pool.flushed_len(), 0);
    assert_eq!(pool.pop(), None);
    pool.flush_all();
    pool.push(Block(START + 65536));
    assert_eq!(pool.flushed_len(), 2);
    assert_eq!(pool.get(2), Block(START + 65536));
    assert_eq!(pool.pop(), Some(Block(START + 32768)));
    assert_eq!(pool.pop(), Some(Block(START)));
    assert_eq!(pool.pop(), None);
    assert_eq!(pool.len(), 1);
    pool.reset();
    assert_eq!(pool.len(), 0);
}

#[test]
fn block_page_resource() {
    let mut pr = BlockPageResource::new_contiguous(Address(START), 2 * 32768);
    assert_eq!(pr.reserved_pages(), 0);
    assert_eq!(pr.acquire_block(), Address(START));
    assert_eq!(pr.acquire_block(), Address(START + 32768));
    assert_eq!(pr.acquire_block(), Address(0));
    assert_eq!(pr.reserved_pages(), 16);
    pr.release_block(Block(START));
    assert_eq!(pr.reserved_pages(), 8);
    assert_eq!(pr.acquire_block(), Address(0));
    pr.flush_all();
    assert_eq!(pr.acquire_block(), Address(START));
}

#[test]
fn object_queue() {
    let mut queue = VectorObjectQueue::new();
    assert!(queue.is_empty());
    for i in 0..4096usize {
        assert!(!queue.is_full());
        queue.enqueue(ObjectReference(8 * (i + 1)));
    }
    assert!(queue.is_full());
    assert_eq!(queue.len(), 4096);
    let nodes = queue.take();
    assert_eq!(nodes.len(), 4096);
    assert_eq!(nodes[1], ObjectReference(16));
    assert!(queue.is_empty());
}

#[test]
fn object_model_and_slots() {
    let mut vm = ObjectModel::new();
    assert!(!vm.contains(ObjectReference(64)));
    vm.insert(Address(64), 24, vec![0, 128]);
    vm.insert(Address(128), 8, vec![]);
    assert!(vm.contains(ObjectReference(64)));
    assert_eq!(vm.get_current_size(ObjectReference(64)), 24);
    assert_eq!(vm.number_of_fields(ObjectReference(64)), 2);
    let empty = Slot { holder: ObjectReference(64), index: 0 };
    let full = Slot { holder: ObjectReference(64), index: 1 };
    assert!(empty.is_valid(&vm));
    assert!(!Slot { holder: ObjectReference(64), index: 2 }.is_valid(&vm));
    assert!(!Slot { holder: ObjectReference(72), index: 0 }.is_valid(&vm));
    assert_eq!(empty.load(&vm), None);
    assert_eq!(full.load(&vm), Some(ObjectReference(128)));
    empty.store(&mut vm, ObjectReference(64));
    assert_eq!(empty.load(&vm), Some(ObjectReference(64)));
    assert_eq!(full.load(&vm), Some(ObjectReference(128)));
    let copy = vm.copy(ObjectReference(64), Address(256));
    assert_eq!(copy, ObjectReference(256));
    assert_eq!(vm.load_field(copy, 0), 64);
    assert_eq!(vm.load_field(copy, 1), 128);
    assert_eq!(vm.get_current_size(copy), 24);
    let mut binding = VMBinding::new(true);
    binding.objects.insert(Address(64), 24, vec![0, 128]);
    assert_eq!(
        binding.scan_object(
            immix::util::opaque_pointer::VMWorkerThread(immix::util::opaque_pointer::VMThread(0)),
            ObjectReference(64)
        ),
        vec![empty, full]
    );
    assert!(binding
        .scan_object(
            immix::util::opaque_pointer::VMWorkerThread(immix::util::opaque_pointer::VMThread(0)),
            ObjectReference(8)
        )
        .is_empty());
}

#[test]
fn stages_are_ordered() {
    let stages = [
        WorkBucketStage::Unconstrained,
        WorkBucketStage::Prepare,
        WorkBucketStage::ClearVOBits,
        WorkBucketStage::PinningRootsTrace,
        WorkBucketStage::TPinningClosure,
        WorkBucketStage::Closure,
        WorkBucketStage::VMRefClosure,
        WorkBucketStage::VMRefForwarding,
        WorkBucketStage::Release,
    ];
    for (i, stage) in stages.iter().enumerate() {
        assert_eq!(stage.index(), i);
        assert_eq!(WorkBucketStage::from_index(i), *stage);
    }
}

#[test]
fn buckets_and_sentinels() {
    let mut bucket = WorkBucket::new();
    assert!(bucket.poll().is_none());
    bucket.set_sentinel(WorkPacket::VMPostForwarding(immix::scheduler::gc_work::VMPostForwarding));
    bucket.add(WorkPacket::PrepareCollector(immix::scheduler::gc_work::PrepareCollector));
    bucket.bulk_add(vec![
        WorkPacket::ReleaseCollector(immix::scheduler::gc_work::ReleaseCollector),
    ]);
    assert_eq!(bucket.len(), 2);
    assert!(matches!(bucket.poll(), Some(WorkPacket::PrepareCollector(_))));
    assert!(matches!(bucket.poll(), Some(WorkPacket::ReleaseCollector(_))));
    assert!(matches!(bucket.poll(), Some(WorkPacket::VMPostForwarding(_))));
    assert!(bucket.poll().is_none());
}

#[test]
fn only_the_first_stage_is_open_before_the_mutators_stop() {
    let mut scheduler = GCWorkScheduler::new(2);
    assert_eq!(scheduler.num_workers(), 2);
    scheduler.add(
        WorkBucketStage::Closure,
        WorkPacket::PrepareCollector(immix::scheduler::gc_work::PrepareCollector),
    );
    assert!(scheduler.poll().is_none());
    scheduler.notify_mutators_paused();
    assert!(scheduler.poll().is_some());
    scheduler.push_designated(1, WorkPacket::PrepareCollector(immix::scheduler::gc_work::PrepareCollector));
    assert_eq!(scheduler.designated_work[1].len(), 1);
    scheduler.increase_live_bytes(0, 10);
    scheduler.increase_live_bytes(1, usize::MAX);
    scheduler.increase_live_bytes(1, 5);
    scheduler.increase_live_bytes(9, 5);
    assert_eq!(scheduler.get_and_clear_worker_live_bytes(), usize::MAX);
    assert_eq!(scheduler.get_and_clear_worker_live_bytes(), 0);
}

#[test]
fn global_state() {
    let mut state = GlobalState::new();
    assert!(!state.set_collection_kind(true, false));
    state.cur_collection_attempts = 2;
    assert!(state.set_collection_kind(true, false));
    assert!(state.emergency_collection);
    assert!(!state.set_collection_kind(true, true));
    assert!(!state.set_collection_kind(false, false));
    state.internal_triggered_collection = true;
    assert!(state.set_collection_kind(false, true));
    state.prepare_for_stack_scanning();
    assert!(!state.inform_stack_scanned(2));
    assert!(state.inform_stack_scanned(2));
    assert!(state.stacks_prepared);
    assert_eq!(state.scanned_stacks, 2);
}

#[test]
fn copy_semantics() {
    assert!(!CopySemantics::DefaultCopy.is_mature());
    assert!(CopySemantics::Mature.is_mature());
    assert!(CopySemantics::PromoteToMature.is_mature());
}

#[test]
fn poll_takes_from_the_first_stage_with_work() {
    let mut scheduler = GCWorkScheduler::new(1);
    scheduler.notify_mutators_paused();
    scheduler.set_sentinel(
        WorkBucketStage::Prepare,
        WorkPacket::VMPostForwarding(immix::scheduler::gc_work::VMPostForwarding),
    );
    scheduler.add(
        WorkBucketStage::Closure,
        WorkPacket::PrepareCollector(immix::scheduler::gc_work::PrepareCollector),
    );
    scheduler.add(
        WorkBucketStage::Prepare,
        WorkPacket::ReleaseCollector(immix::scheduler::gc_work::ReleaseCollector),
    );
    assert!(matches!(scheduler.poll(), Some(WorkPacket::ReleaseCollector(_))));
    assert!(matches!(scheduler.poll(), Some(WorkPacket::VMPostForwarding(_))));
    assert!(matches!(scheduler.poll(), Some(WorkPacket::PrepareCollector(_))));
    assert!(scheduler.poll().is_none());
}
