use rdownloader::planner::{create_chunks, ChunkState, MAX_CHUNKS, TARGET_CHUNK_SIZE};

fn assert_covers(chunks: &[ChunkState], total: u64) {
    assert!(!chunks.is_empty());
    assert_eq!(chunks[0].start, 0);
    assert_eq!(chunks[chunks.len() - 1].end, total - 1);
    for w in chunks.windows(2) {
        assert_eq!(w[1].start, w[0].end + 1);
    }
    for c in chunks {
        assert!(c.start <= c.end);
        assert!(!c.completed);
    }
}

#[test]
fn sequential_plan_is_one_range() {
    let chunks = create_chunks(5000, false);
    assert_eq!(chunks, vec![ChunkState { start: 0, end: 4999, completed: false }]);
}

#[test]
fn small_parallel_plan_is_one_range() {
    let chunks = create_chunks(5242880, true);
    assert_eq!(chunks, vec![ChunkState { start: 0, end: 5242879, completed: false }]);
}

#[test]
fn parallel_plan_splits_by_target_size() {
    let total = 3 * TARGET_CHUNK_SIZE + 5;
    let chunks = create_chunks(total, true);
    assert_eq!(chunks.len(), 3);
    let len = (total + 2) / 3;
    assert_eq!(chunks[0], ChunkState { start: 0, end: len - 1, completed: false });
    assert_eq!(chunks[1], ChunkState { start: len, end: 2 * len - 1, completed: false });
    assert_eq!(chunks[2], ChunkState { start: 2 * len, end: total - 1, completed: false });
    assert_covers(&chunks, total);
}

#[test]
fn parallel_plan_is_capped_at_sixteen() {
    let total = 100 * TARGET_CHUNK_SIZE;
    let chunks = create_chunks(total, true);
    assert_eq!(chunks.len() as u64, MAX_CHUNKS);
    assert_covers(&chunks, total);
}

#[test]
fn plan_of_largest_size_covers_it() {
    let chunks = create_chunks(u64::MAX, true);
    assert_eq!(chunks.len(), 16);
    assert_covers(&chunks, u64::MAX);
    let single = create_chunks(u64::MAX, false);
    assert_eq!(single.len(), 1);
    assert_covers(&single, u64::MAX);
}

#[test]
fn plan_coverage_on_many_sizes() {
    let sizes = [1u64, 2, 1023, TARGET_CHUNK_SIZE - 1, TARGET_CHUNK_SIZE, 2 * TARGET_CHUNK_SIZE + 1, 17 * TARGET_CHUNK_SIZE - 3];
    for &s in &sizes {
        for &p in &[true, false] {
            let chunks = create_chunks(s, p);
            assert_covers(&chunks, s);
            if p {
                assert!(chunks.len() <= 16);
            } else {
                assert_eq!(chunks.len(), 1);
            }
        }
    }
}

#[test]
fn empty_resource_is_planned_complete() {
    let chunks = create_chunks(0, true);
    assert_eq!(chunks, vec![ChunkState { start: 0, end: 0, completed: true }]);
    assert_eq!(create_chunks(0, false).len(), 1);
}
