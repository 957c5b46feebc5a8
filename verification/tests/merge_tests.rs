use ledger_sync::merge::{
    fix_receipt_paths, merge_categories, merge_month_closing, merge_transactions, CategoryRow,
    MonthClosingRow, TransactionRow,
};

fn cat(id: i64, name: &str) -> CategoryRow {
    CategoryRow {
        id,
        name: String::from(name),
        description: None,
        mwst_rate_bp: 810,
        is_active: true,
    }
}

fn month(year: i32, month: i32, closed: bool, at: Option<&str>) -> MonthClosingRow {
    MonthClosingRow {
        year,
        month,
        is_closed: closed,
        closed_at: at.map(String::from),
        closed_by: None,
    }
}

fn tx(public_id: &str, category_id: Option<i64>, amount: i64, updated_at: &str) -> TransactionRow {
    TransactionRow {
        public_id: String::from(public_id),
        date: String::from("2024-01-02"),
        year: 2024,
        month: 1,
        tx_type: String::from("INCOME"),
        payment_method: Some(String::from("BAR")),
        category_id,
        description: None,
        amount_cents: amount,
        mwst_rate_bp: 810,
        receipt_path: None,
        note: None,
        ref_public_id: None,
        created_at: String::from("2024-01-02T00:00:00Z"),
        updated_at: String::from(updated_at),
    }
}

#[test]
fn categories_insert_only_missing_names() {
    let local = vec![cat(1, "Lebensmittel"), cat(2, "Miete")];
    let remote = vec![cat(7, "Miete"), cat(8, "Strom"), cat(9, "Strom")];
    let inserted = merge_categories(&local, remote);
    // "Miete" exists locally; "Strom" is inserted once even though the
    // remote snapshot lists it twice.
    assert_eq!(inserted.len(), 1);
    assert_eq!(inserted[0].name, "Strom");
    assert_eq!(inserted[0].id, 8);
}

#[test]
fn categories_merge_twice_inserts_nothing() {
    let local = vec![cat(1, "Lebensmittel")];
    let remote = vec![cat(7, "Strom"), cat(8, "Wasser")];
    let first = merge_categories(&local, remote);
    assert_eq!(first.len(), 2);
    let mut local_after: Vec<CategoryRow> = local;
    for c in first {
        local_after.push(c);
    }
    let again = merge_categories(
        &local_after,
        vec![cat(7, "Strom"), cat(8, "Wasser")],
    );
    assert!(again.is_empty());
}

#[test]
fn months_insert_adopt_and_keep_later_stamp() {
    let mut local = vec![
        month(2024, 1, false, None),
        month(2024, 2, true, Some("2024-03-01T00:00:00Z")),
        month(2024, 3, true, Some("2024-04-01T00:00:00Z")),
    ];
    let remote = vec![
        // Local open, remote closed: adopt.
        month(2024, 1, true, Some("2024-02-01T00:00:00Z")),
        // Both closed, remote later: keep the later stamp.
        month(2024, 2, true, Some("2024-03-15T00:00:00Z")),
        // Both closed, remote earlier: unchanged.
        month(2024, 3, true, Some("2024-03-20T00:00:00Z")),
        // Absent locally: inserted verbatim.
        month(2024, 4, false, None),
    ];
    merge_month_closing(&mut local, remote);
    assert_eq!(local.len(), 4);
    assert!(local[0].is_closed);
    assert_eq!(local[0].closed_at.as_deref(), Some("2024-02-01T00:00:00Z"));
    assert_eq!(local[1].closed_at.as_deref(), Some("2024-03-15T00:00:00Z"));
    assert_eq!(local[2].closed_at.as_deref(), Some("2024-04-01T00:00:00Z"));
    assert_eq!(local[3].year, 2024);
    assert_eq!(local[3].month, 4);
    assert!(!local[3].is_closed);
}

#[test]
fn months_never_reopen() {
    let mut local = vec![month(2024, 5, true, Some("2024-06-01T00:00:00Z"))];
    merge_month_closing(&mut local, vec![month(2024, 5, false, None)]);
    assert!(local[0].is_closed);
    assert_eq!(local[0].closed_at.as_deref(), Some("2024-06-01T00:00:00Z"));
}

#[test]
fn months_merge_twice_equals_once() {
    let base = vec![
        month(2024, 1, false, None),
        month(2024, 2, true, Some("2024-03-01T00:00:00Z")),
    ];
    let remote = || {
        vec![
            month(2024, 1, true, Some("2024-02-01T00:00:00Z")),
            month(2024, 2, true, Some("2024-03-15T00:00:00Z")),
            month(2024, 6, true, Some("2024-07-01T00:00:00Z")),
        ]
    };
    let mut once = base.iter().map(|m| month(m.year, m.month, m.is_closed, m.closed_at.as_deref())).collect::<Vec<_>>();
    merge_month_closing(&mut once, remote());
    let mut twice = base;
    merge_month_closing(&mut twice, remote());
    merge_month_closing(&mut twice, remote());
    assert_eq!(once.len(), twice.len());
    for (a, b) in once.iter().zip(twice.iter()) {
        assert_eq!(a.year, b.year);
        assert_eq!(a.month, b.month);
        assert_eq!(a.is_closed, b.is_closed);
        assert_eq!(a.closed_at, b.closed_at);
    }
}

#[test]
fn transactions_last_write_wins() {
    // Local T1, remote T2: the row is replaced exactly when T2 > T1.
    let mut local = vec![tx("A-1", None, 1000, "2024-01-05T00:00:00Z")];
    let newer = tx("A-1", None, 2000, "2024-01-06T00:00:00Z");
    merge_transactions(&mut local, vec![newer], &Vec::new(), &Vec::new(), "/base", &Vec::new());
    assert_eq!(local.len(), 1);
    assert_eq!(local[0].amount_cents, 2000);
    assert_eq!(local[0].updated_at, "2024-01-06T00:00:00Z");

    let older = tx("A-1", None, 500, "2024-01-01T00:00:00Z");
    merge_transactions(&mut local, vec![older], &Vec::new(), &Vec::new(), "/base", &Vec::new());
    assert_eq!(local[0].amount_cents, 2000);

    let same = tx("A-1", None, 700, "2024-01-06T00:00:00Z");
    merge_transactions(&mut local, vec![same], &Vec::new(), &Vec::new(), "/base", &Vec::new());
    assert_eq!(local[0].amount_cents, 2000);
}

#[test]
fn transactions_absent_ids_are_inserted() {
    let mut local = vec![tx("A-1", None, 1000, "2024-01-05T00:00:00Z")];
    let incoming = tx("B-9", None, 300, "2024-01-02T00:00:00Z");
    merge_transactions(&mut local, vec![incoming], &Vec::new(), &Vec::new(), "/base", &Vec::new());
    assert_eq!(local.len(), 2);
    assert_eq!(local[1].public_id, "B-9");
    assert_eq!(local[1].amount_cents, 300);
}

#[test]
fn transactions_remap_categories_by_name() {
    let local_cats = vec![cat(11, "Strom")];
    let remote_cats = vec![cat(3, "Strom"), cat(4, "Unbekannt")];
    let mut local: Vec<TransactionRow> = Vec::new();
    let a = tx("A-1", Some(3), 100, "2024-01-01T00:00:00Z");
    let b = tx("A-2", Some(4), 100, "2024-01-01T00:00:00Z");
    let c = tx("A-3", Some(99), 100, "2024-01-01T00:00:00Z");
    merge_transactions(&mut local, vec![a, b, c], &local_cats, &remote_cats, "/base", &Vec::new());
    // Resolvable by name: remapped to the local id; otherwise dropped.
    assert_eq!(local[0].category_id, Some(11));
    assert_eq!(local[1].category_id, None);
    assert_eq!(local[2].category_id, None);
}

#[test]
fn transactions_remap_receipt_paths() {
    let files = vec![String::from("2024/01/Beleg_A-1.pdf")];
    let mut local: Vec<TransactionRow> = Vec::new();
    let mut incoming = tx("A-1", None, 100, "2024-01-01T00:00:00Z");
    incoming.receipt_path = Some(String::from("C:\\Daten\\Belege\\2024\\01\\Beleg_A-1.pdf"));
    merge_transactions(&mut local, vec![incoming], &Vec::new(), &Vec::new(), "/base", &files);
    assert_eq!(
        local[0].receipt_path.as_deref(),
        Some("/base/2024/01/Beleg_A-1.pdf")
    );
}

#[test]
fn overwrite_keeps_existing_receipt_when_remap_fails() {
    let mut local = vec![{
        let mut t = tx("A-1", None, 1000, "2024-01-05T00:00:00Z");
        t.receipt_path = Some(String::from("/base/2024/01/alt.pdf"));
        t
    }];
    let mut newer = tx("A-1", None, 2000, "2024-01-06T00:00:00Z");
    newer.receipt_path = Some(String::from("/elsewhere/Belege/2024/01/missing.pdf"));
    merge_transactions(&mut local, vec![newer], &Vec::new(), &Vec::new(), "/base", &Vec::new());
    assert_eq!(local[0].amount_cents, 2000);
    assert_eq!(local[0].receipt_path.as_deref(), Some("/base/2024/01/alt.pdf"));
}

#[test]
fn repair_remaps_foreign_paths_only() {
    let files = vec![String::from("2024/01/Beleg_A-1.pdf")];
    let mut rows = vec![
        {
            let mut t = tx("A-1", None, 100, "2024-01-01T00:00:00Z");
            t.receipt_path = Some(String::from("D:\\Alt\\Belege\\2024\\01\\Beleg_A-1.pdf"));
            t
        },
        {
            let mut t = tx("A-2", None, 100, "2024-01-01T00:00:00Z");
            t.receipt_path = Some(String::from("/base/2024/01/Beleg_A-1.pdf"));
            t
        },
        tx("A-3", None, 100, "2024-01-01T00:00:00Z"),
    ];
    fix_receipt_paths(&mut rows, "/base", &files);
    assert_eq!(
        rows[0].receipt_path.as_deref(),
        Some("/base/2024/01/Beleg_A-1.pdf")
    );
    assert_eq!(
        rows[1].receipt_path.as_deref(),
        Some("/base/2024/01/Beleg_A-1.pdf")
    );
    assert!(rows[2].receipt_path.is_none());
}

#[test]
fn merge_adopts_remote_closings_and_inserts_remote_ids() {
    // Resolving a conflict with a merge closes any remotely-closed month
    // not yet closed locally and inserts any remote transaction id
    // absent locally.
    let mut months = vec![month(2024, 1, false, None)];
    merge_month_closing(
        &mut months,
        vec![month(2024, 1, true, Some("2024-02-01T00:00:00Z"))],
    );
    assert!(months[0].is_closed);

    let mut txs = vec![tx("A-1", None, 100, "2024-01-01T00:00:00Z")];
    merge_transactions(
        &mut txs,
        vec![tx("B-7", None, 900, "2024-01-03T00:00:00Z")],
        &Vec::new(),
        &Vec::new(),
        "/base",
        &Vec::new(),
    );
    assert_eq!(txs.len(), 2);
    assert!(txs.iter().any(|t| t.public_id == "B-7"));
}

#[test]
fn month_status_defaults_to_open() {
    let ms = vec![month(2024, 2, true, Some("2024-03-01T00:00:00Z"))];
    assert!(ledger_sync::merge::is_month_closed(&ms, 2024, 2));
    assert!(!ledger_sync::merge::is_month_closed(&ms, 2024, 3));
    let st = ledger_sync::merge::get_month_status(&ms, 2024, 2);
    assert!(st.is_closed);
    assert_eq!(st.closed_at.as_deref(), Some("2024-03-01T00:00:00Z"));
    let st2 = ledger_sync::merge::get_month_status(&ms, 2024, 3);
    assert_eq!(st2.year, 2024);
    assert_eq!(st2.month, 3);
    assert!(!st2.is_closed);
    assert!(st2.closed_at.is_none());
}
