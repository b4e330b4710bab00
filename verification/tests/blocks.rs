use aave_liquidator::blocks::{
    block_chunks, block_steps_fit, log_ranges, BlockRange, BLOCK_CHUNK_SIZE, LOG_BLOCK_RANGE,
};

fn range(start: u64, end: u64) -> BlockRange {
    BlockRange { start, end }
}

#[test]
fn chunks_follow_on() {
    assert_eq!(
        block_chunks(5, 2_500_005),
        vec![range(5, 1_000_005), range(1_000_005, 2_000_005), range(2_000_005, 2_500_005)],
    );
    assert_eq!(block_chunks(0, 1_000_000), vec![range(0, 1_000_000)]);
    assert_eq!(block_chunks(0, 1_000_001), vec![range(0, 1_000_000), range(1_000_000, 1_000_001)]);
}

#[test]
fn no_chunks_without_new_blocks() {
    assert_eq!(block_chunks(7, 7), vec![]);
    assert_eq!(block_chunks(8, 7), vec![]);
    assert_eq!(log_ranges(8, 7), vec![]);
}

#[test]
fn requests_end_before_the_next_one() {
    assert_eq!(log_ranges(0, 2500), vec![range(0, 999), range(1000, 1999), range(2000, 2500)]);
    assert_eq!(log_ranges(0, 999), vec![range(0, 999)]);
    assert_eq!(log_ranges(0, 1000), vec![range(0, 999), range(1000, 1000)]);
    assert_eq!(log_ranges(0, 1500), vec![range(0, 999), range(1000, 1500)]);
    assert_eq!(log_ranges(0, 2000), vec![range(0, 999), range(1000, 1999), range(2000, 2000)]);
    assert_eq!(log_ranges(7, 7), vec![range(7, 7)]);
    assert_eq!(log_ranges(u64::MAX - 1, u64::MAX), vec![range(u64::MAX - 1, u64::MAX)]);
    assert_eq!(log_ranges(10, 11), vec![range(10, 11)]);
}

#[test]
fn every_block_is_asked_for_once() {
    let ranges = log_ranges(3, 4321);
    for block in 3..=4321 {
        assert_eq!(ranges.iter().filter(|r| r.start <= block && block <= r.end).count(), 1);
    }
    assert!(ranges.iter().all(|r| r.end <= 4321 && r.end - r.start < LOG_BLOCK_RANGE));
}

fn requests_for(from: u64, to: u64, block: u64) -> usize {
    block_chunks(from, to)
        .iter()
        .flat_map(|chunk| log_ranges(chunk.start, chunk.end))
        .filter(|r| r.start <= block && block <= r.end)
        .count()
}

#[test]
fn chunks_ask_for_every_block() {
    for block in [2, 3, 1_000_001, 1_000_003, 1_499_999, 1_500_000] {
        assert_eq!(requests_for(2, 1_500_000, block), 1);
    }
    assert_eq!(requests_for(2, 1_500_000, 1_500_001), 0);
}

#[test]
fn seams_of_chunks_are_asked_for_twice() {
    assert_eq!(requests_for(2, 1_500_000, 1_000_002), 2);
}

#[test]
fn steps_beyond_the_last_block_number_do_not_fit() {
    assert!(block_steps_fit(0, 10, BLOCK_CHUNK_SIZE));
    assert!(block_steps_fit(u64::MAX, u64::MAX, BLOCK_CHUNK_SIZE));
    assert!(!block_steps_fit(u64::MAX - 1, u64::MAX, BLOCK_CHUNK_SIZE));
    assert!(block_steps_fit(u64::MAX - 1000, u64::MAX, LOG_BLOCK_RANGE));
    assert!(!block_steps_fit(u64::MAX - 999, u64::MAX, LOG_BLOCK_RANGE));
}
