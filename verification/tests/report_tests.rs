use disk_usage::counter::Counter;
use disk_usage::report::{
    get_username, header_line, owner_display, render_frac, render_report, render_row, sort_rows,
};
use disk_usage::stats::{calculate_totals, collect_stats, RowData, UserTable, VisitRecord};

#[test]
fn fraction_rendering() {
    assert_eq!(render_frac(0, 0), "0.000");
    assert_eq!(render_frac(0, 100), "0.000");
    assert_eq!(render_frac(100, 100), "1.000");
    assert_eq!(render_frac(1, 3), "0.333");
    assert_eq!(render_frac(2, 3), "0.667");
    assert_eq!(render_frac(512, 1024), "0.500");
    assert_eq!(render_frac(1, 8), "0.125");
}

#[test]
fn row_rendering() {
    let row = RowData { uid: 1, n_files: 2, n_links: 1, n_bytes: 8192 };
    assert_eq!(render_row("alice", row, 16384), "alice\t2\t1\t8.0 KB\t8192\t0.500");
    let zero = RowData { uid: 0, n_files: 0, n_links: 0, n_bytes: 0 };
    assert_eq!(render_row("*", zero, 0), "*\t0\t0\t0\t0\t0.000");
}

#[test]
fn header_row() {
    assert_eq!(header_line(), "User\tNFiles\tNLinks\tSize\tBytes\tFrac");
}

#[test]
fn sorting_ascends_by_bytes() {
    let rows = vec![
        RowData { uid: 1, n_files: 1, n_links: 0, n_bytes: 300 },
        RowData { uid: 2, n_files: 1, n_links: 0, n_bytes: 100 },
        RowData { uid: 3, n_files: 1, n_links: 0, n_bytes: 200 },
    ];
    let sorted = sort_rows(&rows);
    let bytes: Vec<u64> = sorted.iter().map(|r| r.n_bytes).collect();
    assert_eq!(bytes, vec![100, 200, 300]);
    let uids: Vec<u32> = sorted.iter().map(|r| r.uid).collect();
    assert_eq!(uids, vec![2, 3, 1]);
}

#[test]
fn owner_display_falls_back_to_numeric_id() {
    assert_eq!(owner_display(42, Ok("bob".to_string())), "bob");
    assert_eq!(owner_display(4242, Err("lookup failed".to_string())), "4242");
}

#[test]
fn username_lookup_runs() {
    // The outcome depends on the machine's user database; whatever
    // comes back, a resolved name is non-empty and the fallback is the
    // numeric id.
    match get_username(0) {
        Ok(name) => assert!(!name.is_empty()),
        Err(msg) => assert!(!msg.is_empty()),
    }
}

#[test]
fn report_for_unknown_owners() {
    // Owner ids far outside any real user database, so every name
    // falls back to the numeric id and the report is deterministic.
    let records = vec![
        VisitRecord { path: "a".to_string(), uid: 4000000001, dev: 1, ino: 1, len: 100, blocks: 1 },
        VisitRecord { path: "b".to_string(), uid: 4000000002, dev: 1, ino: 2, len: 300, blocks: 1 },
    ];
    let mut users = UserTable::new();
    let mut counter = Counter::new();
    collect_stats(&records, true, &mut users, &mut counter);
    let total = calculate_totals(&users);
    let lines = render_report(&users, &total);
    assert_eq!(lines.len(), 4);
    assert_eq!(lines[0], "User\tNFiles\tNLinks\tSize\tBytes\tFrac");
    assert_eq!(lines[1], "4000000001\t1\t0\t100\t100\t0.250");
    assert_eq!(lines[2], "4000000002\t1\t0\t300\t300\t0.750");
    assert_eq!(lines[3], "*\t2\t0\t400\t400\t1.000");
}

#[test]
fn empty_report_still_prints() {
    let users = UserTable::new();
    let total = calculate_totals(&users);
    let lines = render_report(&users, &total);
    assert_eq!(lines.len(), 2);
    assert_eq!(lines[0], "User\tNFiles\tNLinks\tSize\tBytes\tFrac");
    assert_eq!(lines[1], "*\t0\t0\t0\t0\t0.000");
}
