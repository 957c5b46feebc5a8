use ledger_sync::merge::{CategoryRow, TransactionRow};
use ledger_sync::paths::{map_receipt_path, missing_receipt_files, split_path_exec};
use ledger_sync::summary::{build_conflict_summary, get_last_change, AuditLogEntry};

fn entry(id: i64, ts: &str) -> AuditLogEntry {
    AuditLogEntry {
        id,
        ts: String::from(ts),
        actor: Some(String::from("sync")),
        action: String::from("CREATE"),
        entity_type: String::from("TRANSACTION"),
        entity_id: None,
        ref_id: None,
        payload_json: String::from("{}"),
        details: None,
    }
}

fn tx(public_id: &str, tx_type: &str, amount: i64, updated_at: &str) -> TransactionRow {
    TransactionRow {
        public_id: String::from(public_id),
        date: String::from("2024-01-02"),
        year: 2024,
        month: 1,
        tx_type: String::from(tx_type),
        payment_method: Some(String::from("BAR")),
        category_id: None,
        description: None,
        amount_cents: amount,
        mwst_rate_bp: 810,
        receipt_path: None,
        note: None,
        ref_public_id: None,
        created_at: String::from("2024-01-02T00:00:00Z"),
        updated_at: String::from(updated_at),
    }
}

#[test]
fn last_change_of_empty_log_is_epoch() {
    let log: Vec<AuditLogEntry> = Vec::new();
    assert_eq!(get_last_change(&log), "1970-01-01T00:00:00Z");
}

#[test]
fn last_change_is_the_greatest_stamp() {
    let log = vec![
        entry(1, "2024-01-02T00:00:00Z"),
        entry(2, "2024-03-01T00:00:00Z"),
        entry(3, "2024-02-15T00:00:00Z"),
    ];
    assert_eq!(get_last_change(&log), "2024-03-01T00:00:00Z");
}

#[test]
fn summary_counts_and_totals() {
    let txs = vec![
        tx("A-1", "INCOME", 1500, "2024-01-01T00:00:00Z"),
        tx("A-2", "EXPENSE", 700, "2024-01-02T00:00:00Z"),
        tx("A-3", "INCOME", 500, "2024-01-03T00:00:00Z"),
    ];
    let s = build_conflict_summary(&txs, &Vec::new());
    assert_eq!(s.tx_count, 3);
    assert_eq!(s.income_total_cents, 2000);
    assert_eq!(s.expense_total_cents, 700);
    assert_eq!(s.last_items.len(), 3);
}

#[test]
fn summary_lists_five_newest_first() {
    let mut txs = Vec::new();
    for i in 1..=7 {
        txs.push(tx(
            &format!("A-{i}"),
            "INCOME",
            100 * i,
            &format!("2024-01-0{i}T00:00:00Z"),
        ));
    }
    let s = build_conflict_summary(&txs, &Vec::new());
    assert_eq!(s.last_items.len(), 5);
    assert_eq!(s.last_items[0].amount_cents, 700);
    assert_eq!(s.last_items[1].amount_cents, 600);
    assert_eq!(s.last_items[4].amount_cents, 300);
}

#[test]
fn summary_label_falls_back() {
    let cats = vec![CategoryRow {
        id: 4,
        name: String::from("Strom"),
        description: None,
        mwst_rate_bp: 810,
        is_active: true,
    }];
    let mut a = tx("A-1", "EXPENSE", 100, "2024-01-04T00:00:00Z");
    a.description = Some(String::from("Rechnung"));
    let mut b = tx("A-2", "EXPENSE", 100, "2024-01-03T00:00:00Z");
    b.category_id = Some(4);
    let c = tx("A-3", "EXPENSE", 100, "2024-01-02T00:00:00Z");
    let mut d = tx("A-4", "EXPENSE", 100, "2024-01-01T00:00:00Z");
    d.payment_method = None;
    let s = build_conflict_summary(&vec![a, b, c, d], &cats);
    assert_eq!(s.last_items[0].label, "Rechnung");
    assert_eq!(s.last_items[1].label, "Strom");
    assert_eq!(s.last_items[2].label, "BAR");
    assert_eq!(s.last_items[3].label, "Buchung");
}

#[test]
fn split_path_handles_both_separators() {
    let comps = split_path_exec("C:\\Daten\\Belege/2024/01/a.pdf");
    let expect = vec!["C:", "Daten", "Belege", "2024", "01", "a.pdf"];
    assert_eq!(comps.len(), expect.len());
    for (c, e) in comps.iter().zip(expect.iter()) {
        assert_eq!(c, e);
    }
    assert!(split_path_exec("").is_empty());
    assert_eq!(split_path_exec("//a//b/").len(), 2);
}

#[test]
fn receipt_paths_rebase_under_the_attachment_directory() {
    let files = vec![
        String::from("2024/01/a.pdf"),
        String::from("2024/02/b.pdf"),
    ];
    let r = map_receipt_path("D:\\Alt\\Belege\\2024\\01\\a.pdf", "/base", &files);
    assert_eq!(r.as_deref(), Some("/base/2024/01/a.pdf"));
}

#[test]
fn receipt_paths_fall_back_to_file_name() {
    let files = vec![String::from("2023/12/b.pdf")];
    let r = map_receipt_path("/other/place/b.pdf", "/base", &files);
    assert_eq!(r.as_deref(), Some("/base/2023/12/b.pdf"));
    let none = map_receipt_path("/other/place/missing.pdf", "/base", &files);
    assert!(none.is_none());
}

#[test]
fn missing_files_are_exactly_the_new_ones() {
    let local = vec![String::from("2024/01/a.pdf")];
    let remote = vec![
        String::from("2024/01/a.pdf"),
        String::from("2024/01/b.pdf"),
        String::from("2024/02/c.pdf"),
    ];
    let plan = missing_receipt_files(remote, &local);
    assert_eq!(plan.len(), 2);
    assert_eq!(plan[0], "2024/01/b.pdf");
    assert_eq!(plan[1], "2024/02/c.pdf");
}
