use disk_usage::counter::Counter;
use disk_usage::stats::{calculate_totals, collect_stats, RowData, UserTable, VisitRecord};
use disk_usage::walker::should_descend;

fn rec(path: &str, uid: u32, dev: u64, ino: u64, len: u64, blocks: u64) -> VisitRecord {
    VisitRecord { path: path.to_string(), uid, dev, ino, len, blocks }
}

#[test]
fn hardlinked_file_and_directory() {
    // One 4096-byte regular file owned by uid 1000, reachable by two
    // directory entries (one inode), plus one directory of its own.
    let records = vec![
        rec("a/file1", 1000, 1, 42, 4096, 8),
        rec("a/dir", 1000, 1, 7, 4096, 8),
        rec("a/file2", 1000, 1, 42, 4096, 8),
    ];
    let mut users = UserTable::new();
    let mut counter = Counter::new();
    collect_stats(&records, false, &mut users, &mut counter);
    let row = users.stats_for(1000).unwrap();
    assert_eq!(row, RowData { uid: 1000, n_files: 2, n_links: 1, n_bytes: 8192 });
    assert_eq!(counter.count, 3);
    assert_eq!(counter.total, 8192);

    // Apparent mode over the same records: the apparent lengths sum.
    let mut users2 = UserTable::new();
    let mut counter2 = Counter::new();
    collect_stats(&records, true, &mut users2, &mut counter2);
    let row2 = users2.stats_for(1000).unwrap();
    assert_eq!(row2, RowData { uid: 1000, n_files: 2, n_links: 1, n_bytes: 8192 });
}

#[test]
fn sparse_file_apparent_vs_allocated() {
    // Apparent length 1 GB, but only 10 KB allocated (20 blocks).
    let sparse = vec![rec("s", 1000, 1, 5, 1073741824, 20)];
    let mut allocated = UserTable::new();
    let mut c1 = Counter::new();
    collect_stats(&sparse, false, &mut allocated, &mut c1);
    assert_eq!(allocated.stats_for(1000).unwrap().n_bytes, 10240);

    let mut apparent = UserTable::new();
    let mut c2 = Counter::new();
    collect_stats(&sparse, true, &mut apparent, &mut c2);
    assert_eq!(apparent.stats_for(1000).unwrap().n_bytes, 1073741824);
}

#[test]
fn hardlink_counting_is_order_independent() {
    let a = rec("x/one", 500, 3, 9, 100, 2);
    let b = rec("x/two", 500, 3, 9, 100, 2);
    let c = rec("x/three", 500, 3, 9, 100, 2);
    let other = rec("y", 501, 3, 11, 50, 1);
    let order1 = vec![a, other, b, c];
    let a = rec("x/one", 500, 3, 9, 100, 2);
    let b = rec("x/two", 500, 3, 9, 100, 2);
    let c = rec("x/three", 500, 3, 9, 100, 2);
    let other = rec("y", 501, 3, 11, 50, 1);
    let order2 = vec![c, b, other, a];

    let mut u1 = UserTable::new();
    let mut c1 = Counter::new();
    collect_stats(&order1, true, &mut u1, &mut c1);
    let mut u2 = UserTable::new();
    let mut c2 = Counter::new();
    collect_stats(&order2, true, &mut u2, &mut c2);

    let expected = RowData { uid: 500, n_files: 1, n_links: 2, n_bytes: 100 };
    assert_eq!(u1.stats_for(500).unwrap(), expected);
    assert_eq!(u2.stats_for(500).unwrap(), expected);
    assert_eq!(u1.stats_for(501).unwrap(), u2.stats_for(501).unwrap());
}

#[test]
fn observe_reports_counted_bytes() {
    let mut users = UserTable::new();
    let first = rec("f", 7, 1, 1, 300, 1);
    let again = rec("f-link", 7, 1, 1, 300, 1);
    assert_eq!(users.observe(&first, true), 300);
    assert_eq!(users.observe(&again, true), 0);
    // Allocated mode on a fresh identity: blocks times 512.
    let blocky = rec("g", 7, 1, 2, 300, 3);
    let mut users2 = UserTable::new();
    assert_eq!(users2.observe(&blocky, false), 1536);
}

#[test]
fn same_inode_on_other_device_counts_separately() {
    let mut users = UserTable::new();
    users.observe(&rec("a", 1, 1, 99, 10, 1), true);
    users.observe(&rec("b", 1, 2, 99, 10, 1), true);
    let row = users.stats_for(1).unwrap();
    assert_eq!(row.n_files, 2);
    assert_eq!(row.n_links, 0);
    assert_eq!(row.n_bytes, 20);
}

#[test]
fn symlink_is_counted_but_not_descended() {
    // A symlink is a countable entry with its own apparent size; its
    // target is never entered through it.
    assert!(!should_descend(true, true));
    assert!(should_descend(true, false));
    assert!(!should_descend(false, false));
    assert!(!should_descend(false, true));

    let mut users = UserTable::new();
    let link = rec("ln", 1000, 1, 77, 11, 0);
    assert_eq!(users.observe(&link, true), 11);
    assert_eq!(users.stats_for(1000).unwrap().n_files, 1);
}

#[test]
fn totals_sum_over_owners() {
    let records = vec![
        rec("a", 1, 1, 1, 100, 1),
        rec("b", 2, 1, 2, 200, 1),
        rec("b2", 2, 1, 2, 200, 1),
        rec("c", 3, 1, 3, 300, 1),
    ];
    let mut users = UserTable::new();
    let mut counter = Counter::new();
    collect_stats(&records, true, &mut users, &mut counter);
    let total = calculate_totals(&users);
    assert_eq!(total.n_files, 3);
    assert_eq!(total.n_links, 1);
    assert_eq!(total.n_bytes, 600);

    let rows = users.user_rows();
    let sum_bytes: u64 = rows.iter().map(|r| r.n_bytes).sum();
    let sum_files: u64 = rows.iter().map(|r| r.n_files).sum();
    let sum_links: u64 = rows.iter().map(|r| r.n_links).sum();
    assert_eq!(total.n_bytes, sum_bytes);
    assert_eq!(total.n_files, sum_files);
    assert_eq!(total.n_links, sum_links);
}

#[test]
fn rerun_over_unchanged_records_is_identical() {
    let records = vec![
        rec("a", 1, 1, 1, 100, 1),
        rec("a2", 1, 1, 1, 100, 1),
        rec("b", 2, 1, 2, 200, 4),
    ];
    let mut u1 = UserTable::new();
    let mut c1 = Counter::new();
    collect_stats(&records, false, &mut u1, &mut c1);
    let mut u2 = UserTable::new();
    let mut c2 = Counter::new();
    collect_stats(&records, false, &mut u2, &mut c2);
    assert_eq!(u1.stats_for(1).unwrap(), u2.stats_for(1).unwrap());
    assert_eq!(u1.stats_for(2).unwrap(), u2.stats_for(2).unwrap());
    assert_eq!(c1.count, c2.count);
    assert_eq!(c1.total, c2.total);
}

#[test]
fn empty_run_yields_zero_statistics() {
    let records: Vec<VisitRecord> = Vec::new();
    let mut users = UserTable::new();
    let mut counter = Counter::new();
    let summary = collect_stats(&records, false, &mut users, &mut counter);
    assert_eq!(counter.count, 0);
    assert_eq!(counter.total, 0);
    assert!(users.stats_for(0).is_none());
    let total = calculate_totals(&users);
    assert_eq!(total.n_files, 0);
    assert_eq!(total.n_bytes, 0);
    let pad: String = " ".repeat(80);
    assert_eq!(summary, format!("\r0 files, 0  {}", pad));
}

#[test]
fn byte_totals_wrap_like_the_counters() {
    let mut users = UserTable::new();
    users.observe(&rec("big", 9, 1, 1, u64::MAX, 0), true);
    users.observe(&rec("more", 9, 1, 2, 2, 0), true);
    assert_eq!(users.stats_for(9).unwrap().n_bytes, 1);
}

#[test]
fn counter_emits_every_ten_thousandth() {
    let mut counter = Counter::new();
    for _ in 0..9999 {
        assert!(counter.inc("x", 0).is_none());
    }
    let line = counter.inc("x", 0).unwrap();
    let pad: String = " ".repeat(77);
    assert_eq!(line, format!("\r10000 files, 0: x{}..", pad));
    assert!(counter.inc("x", 0).is_none());
}

#[test]
fn counter_summary_line() {
    let mut counter = Counter::new();
    for _ in 0..5 {
        counter.inc("p", 410);
    }
    let pad: String = " ".repeat(80);
    assert_eq!(counter.finalize(), format!("\r5 files, 2.0 KB  {}", pad));
}

#[test]
fn progress_line_truncates_long_paths() {
    let mut counter = Counter::new();
    let long: String = "d".repeat(100);
    counter.count = 9999;
    let line = counter.inc(&long, 0).unwrap();
    let head: String = "d".repeat(78);
    assert_eq!(line, format!("\r10000 files, 0: {}..", head));
}
