use why_linux::offenders::OffenderBoard;

#[test]
fn aggregation_sums_maxes_and_counts() {
    // CPU shares 10 %, 10 %, 20 % for one pid: sum 40 %, max 20 %,
    // three samples, mean 13.33 % (hundredths round down).
    let mut board = OffenderBoard::new();
    board.update_offender(100, "worker", 1000);
    board.update_offender(100, "worker", 1000);
    board.update_offender(100, "worker", 2000);
    let rows = board.top_offenders(5);
    assert_eq!(rows.len(), 1);
    assert_eq!(rows[0].pid, 100);
    assert_eq!(rows[0].sum, 4000);
    assert_eq!(rows[0].max, 2000);
    assert_eq!(rows[0].avg, 1333);
    assert_eq!(rows[0].name, "worker");
}

#[test]
fn last_observed_name_wins() {
    let mut board = OffenderBoard::new();
    board.update_offender(7, "before", 100);
    board.update_offender(7, "after", 100);
    let rows = board.top_offenders(1);
    assert_eq!(rows[0].name, "after");
    assert_eq!(rows[0].sum, 200);
}

#[test]
fn top_n_length_is_min_of_limit_and_distinct_pids() {
    let mut board = OffenderBoard::new();
    board.update_offender(1, "a", 10);
    board.update_offender(2, "b", 20);
    board.update_offender(3, "c", 30);
    assert_eq!(board.top_offenders(5).len(), 3);
    assert_eq!(board.top_offenders(2).len(), 2);
    assert_eq!(board.top_offenders(0).len(), 0);
    assert_eq!(board.len(), 3);
}

#[test]
fn top_n_is_sorted_descending_by_sum() {
    let mut board = OffenderBoard::new();
    board.update_offender(1, "a", 300);
    board.update_offender(2, "b", 900);
    board.update_offender(3, "c", 600);
    let rows = board.top_offenders(3);
    let sums: Vec<u64> = rows.iter().map(|r| r.sum).collect();
    assert_eq!(sums, vec![900, 600, 300]);
    let top = board.top_offenders(2);
    assert_eq!(top[0].pid, 2);
    assert_eq!(top[1].pid, 3);
}

#[test]
fn top_n_equal_sums_order_by_ascending_pid() {
    let mut board = OffenderBoard::new();
    board.update_offender(30, "c", 500);
    board.update_offender(10, "a", 500);
    board.update_offender(20, "b", 500);
    let rows = board.top_offenders(3);
    let pids: Vec<u32> = rows.iter().map(|r| r.pid).collect();
    assert_eq!(pids, vec![10, 20, 30]);
}

#[test]
fn separate_pids_aggregate_independently() {
    let mut board = OffenderBoard::new();
    board.update_offender(1, "a", 100);
    board.update_offender(2, "b", 700);
    board.update_offender(1, "a", 50);
    let rows = board.top_offenders(2);
    assert_eq!(rows[0].pid, 2);
    assert_eq!(rows[0].sum, 700);
    assert_eq!(rows[1].pid, 1);
    assert_eq!(rows[1].sum, 150);
    assert_eq!(rows[1].max, 100);
}

#[test]
fn empty_board_answers_nothing() {
    let board = OffenderBoard::new();
    assert!(board.top_offenders(5).is_empty());
    assert_eq!(board.len(), 0);
}

#[test]
fn sum_saturates_at_the_top_of_its_range() {
    let mut board = OffenderBoard::new();
    board.update_offender(1, "a", u64::MAX - 5);
    board.update_offender(1, "a", 100);
    let rows = board.top_offenders(1);
    assert_eq!(rows[0].sum, u64::MAX);
    assert_eq!(rows[0].max, u64::MAX - 5);
}
