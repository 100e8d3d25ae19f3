use terrain::coords::XZCoords;
use terrain::dirty::{DirtyChunks, Retry, RETRY_DELAY_NANOS};

fn at(x: i32, z: i32) -> XZCoords {
    XZCoords { x, z }
}

#[test]
fn new_record_is_empty() {
    let chunks = DirtyChunks::new(3);
    assert!(chunks.is_empty());
    assert_eq!(chunks.radius(), 3);
    assert_eq!(chunks.dirty_count(), 0);
    assert_eq!(chunks.retry_count(), 0);
    assert_eq!(chunks.retry_at(0), None);
    let default = DirtyChunks::default();
    assert!(default.is_empty());
    assert_eq!(default.radius(), 0);
}

#[test]
fn marking_twice_keeps_one_entry() {
    let mut chunks = DirtyChunks::new(3);
    chunks.mark_dirty(at(1, 2));
    chunks.mark_dirty(at(1, 2));
    chunks.mark_dirty(at(2, 1));
    assert_eq!(chunks.dirty_count(), 2);
    assert!(chunks.is_dirty(at(1, 2)));
    assert!(chunks.is_dirty(at(2, 1)));
    assert!(!chunks.is_dirty(at(2, 2)));
    assert!(!chunks.is_empty());
}

#[test]
fn arriving_rows_mark_their_chunks() {
    let mut chunks = DirtyChunks::new(3);
    chunks.mark_dirty(at(0, 0));
    chunks.mark_all_dirty(&vec![at(0, 0), at(5, 5), at(5, 5), at(-1, 3)]);
    assert_eq!(chunks.dirty_count(), 3);
    assert!(chunks.is_dirty(at(5, 5)));
    assert!(chunks.is_dirty(at(-1, 3)));
    chunks.mark_all_dirty(&Vec::new());
    assert_eq!(chunks.dirty_count(), 3);
}

#[test]
fn populate_radius_fills_the_square() {
    let mut chunks = DirtyChunks::new(3);
    chunks.mark_dirty(at(100, 100));
    chunks.mark_dirty(at(6, 4));
    chunks.schedule_retry(at(1, 1), 5);
    chunks.populate_radius(at(6, 4));
    assert_eq!(chunks.dirty_count(), 50);
    assert_eq!(chunks.retry_count(), 1);
    for x in 3..=9 {
        for z in 1..=7 {
            assert!(chunks.is_dirty(at(x, z)));
        }
    }
    assert!(chunks.is_dirty(at(100, 100)));
    assert!(!chunks.is_dirty(at(2, 4)));
    assert!(!chunks.is_dirty(at(10, 4)));
    assert!(!chunks.is_dirty(at(6, 0)));
    assert!(!chunks.is_dirty(at(6, 8)));
}

#[test]
fn populate_radius_zero_is_the_centre_alone() {
    let mut chunks = DirtyChunks::new(0);
    chunks.populate_radius(at(-9, 9));
    assert_eq!(chunks.dirty_count(), 1);
    assert!(chunks.is_dirty(at(-9, 9)));
}

#[test]
fn populate_radius_stops_at_the_end_of_the_index_range() {
    let mut chunks = DirtyChunks::new(2);
    chunks.populate_radius(at(i32::MAX, i32::MIN));
    assert_eq!(chunks.dirty_count(), 9);
    assert!(chunks.is_dirty(at(i32::MAX, i32::MIN)));
    assert!(chunks.is_dirty(at(i32::MAX - 2, i32::MIN + 2)));
    assert!(!chunks.is_dirty(at(i32::MAX - 3, i32::MIN)));
}

#[test]
fn pop_dirty_drains_the_set() {
    let mut chunks = DirtyChunks::new(1);
    chunks.populate_radius(at(0, 0));
    let mut seen = Vec::new();
    while let Some(coord) = chunks.pop_dirty() {
        assert!(!seen.contains(&coord));
        assert!(!chunks.is_dirty(coord));
        assert!((-1..=1).contains(&coord.x) && (-1..=1).contains(&coord.z));
        seen.push(coord);
    }
    assert_eq!(seen.len(), 9);
    assert!(chunks.is_empty());
    assert_eq!(chunks.pop_dirty(), None);
}

#[test]
fn pop_if_dirty_takes_only_what_is_there() {
    let mut chunks = DirtyChunks::new(1);
    chunks.mark_dirty(at(1, 1));
    chunks.mark_dirty(at(2, 2));
    chunks.mark_dirty(at(3, 3));
    assert_eq!(chunks.pop_if_dirty(at(2, 2)), Some(at(2, 2)));
    assert_eq!(chunks.pop_if_dirty(at(2, 2)), None);
    assert_eq!(chunks.pop_if_dirty(at(9, 9)), None);
    assert_eq!(chunks.dirty_count(), 2);
    assert!(chunks.is_dirty(at(1, 1)));
    assert!(chunks.is_dirty(at(3, 3)));
}

#[test]
fn retry_delay_is_one_second() {
    assert_eq!(RETRY_DELAY_NANOS, 1_000_000_000);
}

#[test]
fn scheduled_retries_wait_in_order() {
    let mut chunks = DirtyChunks::new(3);
    chunks.schedule_retry(at(0, 0), 1_000);
    chunks.schedule_retry(at(1, 0), 500);
    chunks.schedule_retry(at(0, 0), 2_000);
    assert_eq!(chunks.retry_count(), 3);
    assert_eq!(chunks.retry_at(0), Some(Retry { coord: at(0, 0), remaining: 1_000 }));
    assert_eq!(chunks.retry_at(1), Some(Retry { coord: at(1, 0), remaining: 500 }));
    assert_eq!(chunks.retry_at(2), Some(Retry { coord: at(0, 0), remaining: 2_000 }));
    assert_eq!(chunks.retry_at(3), None);
    assert!(chunks.is_empty());
}

#[test]
fn ticking_moves_due_retries_back_into_the_dirty_set() {
    let mut chunks = DirtyChunks::new(3);
    chunks.schedule_retry(at(0, 0), 1_000);
    chunks.schedule_retry(at(1, 0), 500);
    chunks.schedule_retry(at(2, 0), 2_000);
    chunks.tick_retries(499);
    assert!(chunks.is_empty());
    assert_eq!(chunks.retry_at(1), Some(Retry { coord: at(1, 0), remaining: 1 }));
    chunks.tick_retries(1);
    assert!(chunks.is_dirty(at(1, 0)));
    assert_eq!(chunks.dirty_count(), 1);
    assert_eq!(chunks.retry_count(), 2);
    assert_eq!(chunks.retry_at(0), Some(Retry { coord: at(0, 0), remaining: 500 }));
    assert_eq!(chunks.retry_at(1), Some(Retry { coord: at(2, 0), remaining: 1_500 }));
    chunks.tick_retries(u64::MAX);
    assert_eq!(chunks.retry_count(), 0);
    assert_eq!(chunks.dirty_count(), 3);
}

#[test]
fn a_retry_without_delay_is_due_at_the_next_tick() {
    let mut chunks = DirtyChunks::new(3);
    chunks.schedule_retry(at(4, 4), 0);
    assert!(!chunks.is_dirty(at(4, 4)));
    chunks.tick_retries(0);
    assert!(chunks.is_dirty(at(4, 4)));
    assert_eq!(chunks.retry_count(), 0);
}

#[test]
fn two_ticks_equal_one_tick_of_their_sum() {
    let mut stepped = DirtyChunks::new(3);
    let mut whole = DirtyChunks::new(3);
    for (i, delay) in [100u64, 250, 300, 301, 1_000].iter().enumerate() {
        stepped.schedule_retry(at(i as i32, 0), *delay);
        whole.schedule_retry(at(i as i32, 0), *delay);
    }
    stepped.tick_retries(120);
    stepped.tick_retries(180);
    whole.tick_retries(300);
    assert_eq!(stepped.retry_count(), whole.retry_count());
    for i in 0..whole.retry_count() {
        assert_eq!(stepped.retry_at(i), whole.retry_at(i));
    }
    for i in 0..5 {
        assert_eq!(stepped.is_dirty(at(i, 0)), whole.is_dirty(at(i, 0)));
    }
    assert_eq!(whole.dirty_count(), 3);
    assert_eq!(whole.retry_at(0), Some(Retry { coord: at(3, 0), remaining: 1 }));
}

#[test]
fn a_window_move_keeps_what_was_dirty() {
    let mut chunks = DirtyChunks::new(1);
    chunks.populate_radius(at(0, 0));
    chunks.populate_radius(at(1, 0));
    assert_eq!(chunks.dirty_count(), 12);
    for z in -1..=1 {
        for x in -1..=2 {
            assert!(chunks.is_dirty(at(x, z)));
        }
    }
    chunks.populate_radius(at(1, 0));
    assert_eq!(chunks.dirty_count(), 12);
}
