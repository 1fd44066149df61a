use immix::policy::immix::block::Block;
use immix::policy::immix::holes::next_available_lines;
use immix::policy::immix::immixspace::ImmixSpace;
use immix::policy::immix::immixspace::ImmixSpaceArgs;
use immix::policy::immix::line::Line;
use immix::policy::immix::ImmixModes;
use immix::policy::space::PlanCreateSpaceArgs;
use immix::util::address::Address;
use immix::util::opaque_pointer::VMThread;

const START: usize = 0x40_0000;
const CHUNK: usize = 0x40_0000;

fn space() -> ImmixSpace {
    ImmixSpace::new(
        PlanCreateSpaceArgs {
            name: "immix",
            start: Address(START),
            extent: CHUNK,
            needs_log_bit: false,
            modes: ImmixModes {
                block_only: false,
                mark_line_at_scan_time: false,
                defrag_every_block: false,
                non_moving: false,
                sticky_non_moving_nursery: false,
                vo_bit: false,
                object_pinning: false,
            },
        },
        ImmixSpaceArgs {
            unlog_object_when_traced: false,
            mixed_age: false,
            never_move_objects: false,
        },
    )
}

#[test]
fn pattern_of_seven_lines() {
    let u = 3u8;
    let c = 4u8;
    let x = 0u8;
    let marks = vec![u, u, c, x, x, c, x];
    assert_eq!(next_available_lines(&marks, u, c, 0), Some((3, 5)));
    assert_eq!(next_available_lines(&marks, u, c, 5), Some((6, 7)));
    assert_eq!(next_available_lines(&marks, u, c, 7), None);
}

#[test]
fn stale_marks_count_as_available() {
    let marks = vec![9u8, 1, 2, 9, 0, 9];
    assert_eq!(next_available_lines(&marks, 9, 9, 0), Some((1, 3)));
    assert_eq!(next_available_lines(&marks, 9, 9, 3), Some((4, 5)));
    assert_eq!(next_available_lines(&marks, 9, 9, 5), None);
}

#[test]
fn no_hole_in_a_full_block() {
    let marks = vec![7u8; 128];
    assert_eq!(next_available_lines(&marks, 6, 7, 0), None);
    assert_eq!(next_available_lines(&marks, 7, 6, 64), None);
}

#[test]
fn one_hole_in_an_empty_block() {
    let marks = vec![0u8; 128];
    assert_eq!(next_available_lines(&marks, 1, 2, 0), Some((0, 128)));
    assert_eq!(next_available_lines(&marks, 1, 2, 100), Some((100, 128)));
    assert_eq!(next_available_lines(&marks, 1, 2, 128), None);
}

#[test]
fn holes_of_a_block_of_the_space() {
    let mut space = space();
    let block = space.get_clean_block(VMThread(0), false).unwrap();
    let unavail = space.line_unavail_state.load(atomic::Ordering::SeqCst);
    for i in 0..128usize {
        if i != 3 && i != 4 && i != 6 {
            Line(block.0 + i * 256).mark(&mut space.metadata, unavail);
        }
    }
    let first = space.get_next_available_lines(Line(block.0)).unwrap();
    assert_eq!(first, (Line(block.0 + 3 * 256), Line(block.0 + 5 * 256)));
    assert_eq!(first.0.get_index_within_block(), 3);
    let second = space.get_next_available_lines(first.1).unwrap();
    assert_eq!(second, (Line(block.0 + 6 * 256), Line(block.0 + 7 * 256)));
    assert_eq!(space.get_next_available_lines(second.1), None);
}

#[test]
fn walk_covers_all_available_lines() {
    let mut space = space();
    let _first = space.get_clean_block(VMThread(0), false).unwrap();
    let block = space.get_clean_block(VMThread(0), false).unwrap();
    assert_eq!(block, Block(START + 32768));
    let state = space.line_mark_state.load(atomic::Ordering::SeqCst);
    let mut unavailable = 0;
    for i in 0..128usize {
        if i % 5 == 0 || i % 7 == 0 {
            Line(block.0 + i * 256).mark(&mut space.metadata, state);
            unavailable += 1;
        }
    }
    let mut cursor = Line(block.0);
    let mut covered = 0;
    let mut holes = 0;
    while cursor.0 < block.0 + 32768 {
        match space.get_next_available_lines(cursor) {
            Some((start, end)) => {
                for line in (start.0..end.0).step_by(256) {
                    assert!(!Line(line).is_marked(&space.metadata, state));
                }
                covered += (end.0 - start.0) / 256;
                holes += 1;
                cursor = end;
            }
            None => break,
        }
    }
    assert_eq!(covered, 128 - unavailable);
    assert_eq!(holes, 33);
}

#[test]
fn hole_at_the_end_of_a_block_ends_with_the_block() {
    let mut space = space();
    let block = space.get_clean_block(VMThread(0), false).unwrap();
    let state = space.line_mark_state.load(atomic::Ordering::SeqCst);
    for i in 0..120usize {
        Line(block.0 + i * 256).mark(&mut space.metadata, state);
    }
    let hole = space.get_next_available_lines(Line(block.0 + 10 * 256)).unwrap();
    assert_eq!(hole, (Line(block.0 + 120 * 256), Line(block.0 + 32768)));
}
