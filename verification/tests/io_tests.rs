use why_linux::candidate::select_io_candidates;
use why_linux::io::detect_sustained_high_io;
use why_linux::io::io_delta;
use why_linux::io::IoReading;

fn reading(pid: u32, start_read: u64, end_read: u64, start_write: u64, end_write: u64) -> IoReading {
    IoReading {
        pid,
        name: format!("proc{}", pid),
        start_read,
        start_write,
        end_read,
        end_write,
    }
}

#[test]
fn delta_is_saturating_never_negative() {
    assert_eq!(io_delta(100, 40), 0);
    assert_eq!(io_delta(u64::MAX, 0), 0);
    assert_eq!(io_delta(40, 100), 60);
    assert_eq!(io_delta(7, 7), 0);
}

#[test]
fn io_single_spike_with_min_hits_one_fires() {
    // Read deltas 0, 0, 6 MB, 0, 0 for one candidate against a 5 MB/s
    // read threshold: one hit on tick 3, enough for a floor of one.
    let base = 1_000_000u64;
    let ticks = vec![
        vec![reading(7, base, base, 0, 0)],
        vec![reading(7, base, base, 0, 0)],
        vec![reading(7, base, base + 6_000_000, 0, 0)],
        vec![reading(7, base + 6_000_000, base + 6_000_000, 0, 0)],
        vec![reading(7, base + 6_000_000, base + 6_000_000, 0, 0)],
    ];
    let r = detect_sustained_high_io(&ticks, 5_000_000, 5_000_000, 1).unwrap();
    assert_eq!(r.pid, 7);
    assert_eq!(r.read_bps, 6_000_000);
    assert_eq!(r.write_bps, 0);
}

#[test]
fn io_below_min_hits_is_absent() {
    let ticks = vec![
        vec![reading(7, 0, 6_000_000, 0, 0)],
        vec![reading(7, 0, 0, 0, 0)],
    ];
    assert!(detect_sustained_high_io(&ticks, 5_000_000, 5_000_000, 2).is_none());
}

#[test]
fn io_threshold_is_met_or_exceeded() {
    // The I/O predicate is greater-or-equal, unlike the strict
    // percentage predicates.
    let ticks = vec![vec![reading(3, 0, 5_000_000, 0, 0)]];
    let r = detect_sustained_high_io(&ticks, 5_000_000, u64::MAX, 1).unwrap();
    assert_eq!(r.pid, 3);
}

#[test]
fn io_write_delta_counts_independently() {
    let ticks = vec![vec![reading(4, 0, 0, 0, 7_000_000)]];
    let r = detect_sustained_high_io(&ticks, u64::MAX, 5_000_000, 1).unwrap();
    assert_eq!(r.pid, 4);
    assert_eq!(r.write_bps, 7_000_000);
    assert_eq!(r.read_bps, 0);
}

#[test]
fn io_best_candidate_has_largest_combined_delta() {
    let ticks = vec![vec![
        reading(1, 0, 6_000_000, 0, 0),
        reading(2, 0, 9_000_000, 0, 0),
    ]];
    let r = detect_sustained_high_io(&ticks, 5_000_000, u64::MAX, 1).unwrap();
    assert_eq!(r.pid, 2);
    assert_eq!(r.read_bps, 9_000_000);
}

#[test]
fn io_tie_breaks_to_smaller_pid() {
    let ticks = vec![vec![
        reading(9, 0, 6_000_000, 0, 0),
        reading(2, 0, 6_000_000, 0, 0),
    ]];
    let r = detect_sustained_high_io(&ticks, 5_000_000, u64::MAX, 1).unwrap();
    assert_eq!(r.pid, 2);
}

#[test]
fn io_last_seen_delta_is_reported() {
    // The reported rates come from the candidate's last tick with any
    // activity, not from the hit tick.
    let ticks = vec![
        vec![reading(5, 0, 8_000_000, 0, 0)],
        vec![reading(5, 8_000_000, 8_000_100, 0, 0)],
    ];
    let r = detect_sustained_high_io(&ticks, 5_000_000, u64::MAX, 1).unwrap();
    assert_eq!(r.pid, 5);
    assert_eq!(r.read_bps, 100);
}

#[test]
fn io_backwards_counter_is_no_activity() {
    let ticks = vec![vec![reading(6, 9_000_000, 100, 9_000_000, 200)]];
    assert!(detect_sustained_high_io(&ticks, 0, 0, 1).is_none());
}

#[test]
fn candidates_are_top_k_by_total_descending() {
    let totals = vec![(10u32, 500u64), (11, 900), (12, 100), (13, 700)];
    let all: Vec<u32> = vec![1, 2, 3];
    let r = select_io_candidates(&totals, &all, 3);
    assert_eq!(r, vec![11, 13, 10]);
}

#[test]
fn candidates_cover_everything_when_k_is_large() {
    let totals = vec![(10u32, 500u64), (11, 900)];
    let all: Vec<u32> = vec![];
    let r = select_io_candidates(&totals, &all, 64);
    assert_eq!(r, vec![11, 10]);
}

#[test]
fn candidates_tie_breaks_to_smaller_pid() {
    let totals = vec![(22u32, 500u64), (21, 500), (23, 500)];
    let all: Vec<u32> = vec![];
    let r = select_io_candidates(&totals, &all, 2);
    assert_eq!(r, vec![21, 22]);
}

#[test]
fn empty_scan_falls_back_to_all_pids() {
    let totals: Vec<(u32, u64)> = Vec::new();
    let all: Vec<u32> = vec![4, 8, 15];
    let r = select_io_candidates(&totals, &all, 2);
    assert_eq!(r, vec![4, 8, 15]);
}
