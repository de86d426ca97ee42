use ftplace::board::Board;
use ftplace::fetch::canonical_board;
use ftplace::pattern::{Pattern, PatternPixel};
use ftplace::reconcile::reconcile;
use ftplace::scheduler::{is_sorted_by_priority, sort_patterns, BatchScheduler, PatternSpec};

fn board_of(rows: Vec<Vec<u8>>) -> Board {
    Board::from_rows(rows).unwrap()
}

fn px(x: i32, y: i32, color: u8) -> PatternPixel {
    PatternPixel { x, y, color }
}

fn spec_of(pixels: Vec<PatternPixel>, ox: i32, oy: i32, priority: u32) -> PatternSpec {
    PatternSpec {
        pattern: Pattern { pattern: pixels },
        origin_x: ox,
        origin_y: oy,
        priority,
    }
}

#[test]
fn transform_fixture_three_by_three() {
    // A 3x3 board with distinct values: the rotate-then-mirror transform
    // reads the source at transposed coordinates.
    let raw = vec![vec![1u8, 2, 3], vec![4u8, 5, 6], vec![7u8, 8, 9]];
    let b = canonical_board(raw.clone()).unwrap();
    assert_eq!(b.side(), 3);
    for y in 0..3usize {
        for x in 0..3usize {
            assert_eq!(b.get(x, y), raw[x][y]);
        }
    }
}

#[test]
fn transform_twice_restores() {
    let raw = vec![vec![1u8, 2, 3], vec![4u8, 5, 6], vec![7u8, 8, 9]];
    let b = board_of(raw.clone());
    let twice = b.normalize_orientation().normalize_orientation();
    for y in 0..3usize {
        for x in 0..3usize {
            assert_eq!(twice.get(x, y), raw[y][x]);
        }
    }
}

#[test]
fn ragged_rows_are_refused() {
    assert!(Board::from_rows(vec![vec![1u8, 2], vec![3u8]]).is_none());
    assert!(canonical_board(vec![vec![0u8; 2]; 3]).is_none());
}

#[test]
fn reconcile_lists_exactly_the_mismatches_in_order() {
    let b = board_of(vec![vec![0u8; 3]; 3]);
    let pat = Pattern {
        pattern: vec![px(0, 0, 0), px(1, 0, 5), px(2, 0, 0), px(0, 1, 7)],
    };
    let r = reconcile(&b, &pat, 0, 0);
    assert_eq!(r.len(), 2);
    assert_eq!((r[0].x, r[0].y, r[0].color), (1, 0, 5));
    assert_eq!((r[1].x, r[1].y, r[1].color), (0, 1, 7));
}

#[test]
fn reconcile_is_idempotent_on_applied_corrections() {
    let mut rows = vec![vec![0u8; 3]; 3];
    rows[1][1] = 9;
    let b = board_of(rows.clone());
    let pat = Pattern {
        pattern: vec![px(0, 0, 3), px(1, 1, 4), px(2, 2, 0), px(-1, 0, 8)],
    };
    let r = reconcile(&b, &pat, 1, 1);
    // Apply every correction in order, then reconcile again: nothing left.
    for t in &r {
        rows[t.y][t.x] = t.color;
    }
    let b2 = board_of(rows);
    let r2 = reconcile(&b2, &pat, 1, 1);
    assert!(r2.is_empty());
}

#[test]
fn out_of_bounds_pixel_is_skipped_entirely() {
    // A pixel resolving to (N, 0) on an N-wide board is excluded from the
    // mismatch list, and the scheduler never offers it for placement.
    let n = 3;
    let b = board_of(vec![vec![0u8; 3]; 3]);
    let pat = Pattern {
        pattern: vec![px(n, 0, 5)],
    };
    let r = reconcile(&b, &pat, 0, 0);
    assert!(r.is_empty());

    let specs = vec![spec_of(vec![px(n, 0, 5)], 0, 0, 1)];
    let sched = BatchScheduler::new(&b, &specs, 10);
    assert!(sched.next_target().is_none());
    let (placed, cooldown) = sched.result();
    assert_eq!(placed, 0);
    assert_eq!(cooldown, None);
}

#[test]
fn negative_coordinates_are_skipped() {
    let b = board_of(vec![vec![0u8; 3]; 3]);
    let pat = Pattern {
        pattern: vec![px(-1, 0, 5), px(0, -1, 5), px(0, 0, 5)],
    };
    let r = reconcile(&b, &pat, 0, 0);
    assert_eq!(r.len(), 1);
    assert_eq!((r[0].x, r[0].y), (0, 0));
}

#[test]
fn priority_order_is_served_first() {
    // Priorities [2, 1, 3] and a budget smaller than the total mismatches:
    // the priority-1 pattern is fully serviced before priority-2, before
    // priority-3.
    let b = board_of(vec![vec![0u8; 3]; 3]);
    let a = spec_of(vec![px(0, 1, 2), px(1, 1, 2)], 0, 0, 2);
    let bspec = spec_of(vec![px(0, 0, 1), px(1, 0, 1)], 0, 0, 1);
    let c = spec_of(vec![px(0, 2, 3), px(1, 2, 3)], 0, 0, 3);
    let specs = sort_patterns(vec![a, bspec, c]);
    assert!(is_sorted_by_priority(&specs));

    let mut sched = BatchScheduler::new(&b, &specs, 3);
    let mut served: Vec<(usize, usize, u8)> = Vec::new();
    while let Some(t) = sched.next_target() {
        served.push((t.x, t.y, t.color));
        sched.record(true, None);
    }
    // Both cells of the priority-1 pattern, then one of priority-2.
    assert_eq!(served, vec![(0, 0, 1), (1, 0, 1), (0, 1, 2)]);
    let (placed, _) = sched.result();
    assert_eq!(placed, 3);
}

#[test]
fn budget_is_spent_on_successes_only() {
    let b = board_of(vec![vec![0u8; 3]; 3]);
    let pixels = vec![
        px(0, 0, 1),
        px(1, 0, 1),
        px(2, 0, 1),
        px(0, 1, 1),
        px(1, 1, 1),
    ];
    let specs = vec![spec_of(pixels, 0, 0, 1)];
    let mut sched = BatchScheduler::new(&b, &specs, 2);

    assert!(sched.next_target().is_some());
    sched.record(false, Some(90)); // rate limited: costs nothing
    assert!(sched.next_target().is_some());
    sched.record(true, None);
    assert!(sched.next_target().is_some());
    sched.record(false, None); // abandoned: costs nothing
    assert!(sched.next_target().is_some());
    sched.record(true, None);
    // Budget exhausted: two cells remain unserved but nothing is offered.
    assert!(sched.next_target().is_none());
    let (placed, cooldown) = sched.result();
    assert_eq!(placed, 2);
    assert_eq!(cooldown, Some(90));
}

#[test]
fn cooldown_minimum_aggregation() {
    // Per-cell cooldown signals [90s, none, 30s] aggregate to 30s.
    let b = board_of(vec![vec![0u8; 3]; 3]);
    let pixels = vec![px(0, 0, 1), px(1, 0, 1), px(2, 0, 1)];
    let specs = vec![spec_of(pixels, 0, 0, 1)];
    let mut sched = BatchScheduler::new(&b, &specs, 10);
    sched.record(false, Some(90));
    sched.record(true, None);
    sched.record(false, Some(30));
    let (_, cooldown) = sched.result();
    assert_eq!(cooldown, Some(30));
}

#[test]
fn rate_limit_does_not_halt_lower_priority_patterns() {
    let b = board_of(vec![vec![0u8; 3]; 3]);
    let first = spec_of(vec![px(0, 0, 1)], 0, 0, 1);
    let second = spec_of(vec![px(1, 0, 2)], 0, 0, 2);
    let mut sched = BatchScheduler::new(&b, &vec![first, second], 5);
    let t = sched.next_target().unwrap();
    assert_eq!((t.x, t.y), (0, 0));
    sched.record(false, Some(60)); // the first pattern's cell is throttled
    let t = sched.next_target().unwrap();
    assert_eq!((t.x, t.y), (1, 0)); // the second still gets its share
    sched.record(true, None);
    let (placed, cooldown) = sched.result();
    assert_eq!(placed, 1);
    assert_eq!(cooldown, Some(60));
}

#[test]
fn zero_budget_attempts_nothing() {
    let b = board_of(vec![vec![0u8; 3]; 3]);
    let specs = vec![spec_of(vec![px(0, 0, 1)], 0, 0, 1)];
    let sched = BatchScheduler::new(&b, &specs, 0);
    assert!(sched.next_target().is_none());
}

#[test]
fn sort_is_stable_for_equal_priorities() {
    let a = spec_of(vec![], 1, 0, 5);
    let b = spec_of(vec![], 2, 0, 5);
    let c = spec_of(vec![], 3, 0, 1);
    let sorted = sort_patterns(vec![a, b, c]);
    assert_eq!(sorted.len(), 3);
    assert_eq!(sorted[0].origin_x, 3);
    assert_eq!(sorted[1].origin_x, 1);
    assert_eq!(sorted[2].origin_x, 2);
    assert!(is_sorted_by_priority(&sorted));
}

#[test]
fn unsorted_specs_are_detected() {
    let a = spec_of(vec![], 0, 0, 2);
    let b = spec_of(vec![], 0, 0, 1);
    assert!(!is_sorted_by_priority(&vec![a, b]));
    assert!(is_sorted_by_priority(&Vec::new()));
}

#[test]
fn no_patterns_schedule_nothing() {
    let b = board_of(vec![vec![0u8; 2]; 2]);
    let sched = BatchScheduler::new(&b, &Vec::new(), 10);
    assert!(sched.next_target().is_none());
    assert_eq!(sched.result(), (0, None));
}
