use ledger_sync::error::AppError;
use ledger_sync::receipts::unique_receipt_path;
use ledger_sync::rng::MockRng;
use ledger_sync::textfmt::{build_twint_fee_description, build_twint_note, escape_csv};
use ledger_sync::validate::{ensure_month, ensure_month_range, parse_date, Date};

#[test]
fn app_error_carries_code_and_message() {
    let e = AppError::new("SOME_CODE", "etwas ging schief");
    assert_eq!(e.code, "SOME_CODE");
    assert_eq!(e.message, "etwas ging schief");
    assert_eq!(e.display_string(), "SOME_CODE: etwas ging schief");
}

#[test]
fn csv_fields_pass_through_when_harmless() {
    assert_eq!(escape_csv("plain"), "plain");
    assert_eq!(escape_csv(""), "");
    assert_eq!(escape_csv("12.50"), "12.50");
}

#[test]
fn csv_fields_are_quoted_and_doubled() {
    assert_eq!(escape_csv("a,b"), "\"a,b\"");
    assert_eq!(escape_csv("say \"hi\""), "\"say \"\"hi\"\"\"");
    assert_eq!(escape_csv("line\nbreak"), "\"line\nbreak\"");
    assert_eq!(escape_csv("\""), "\"\"\"\"");
}

#[test]
fn twint_note_joins_reference_and_description() {
    assert_eq!(
        build_twint_note(Some("R-42"), Some("Pizza")).as_deref(),
        Some("TWINT Import: Ref R-42 | Pizza")
    );
    assert_eq!(
        build_twint_note(Some("  R-42  "), None).as_deref(),
        Some("TWINT Import: Ref R-42")
    );
    assert_eq!(
        build_twint_note(None, Some("Pizza")).as_deref(),
        Some("TWINT Import: Pizza")
    );
    assert_eq!(build_twint_note(None, None).as_deref(), Some("TWINT Import"));
    assert_eq!(
        build_twint_note(Some("   "), Some("  ")).as_deref(),
        Some("TWINT Import")
    );
}

#[test]
fn twint_fee_description_mentions_the_reference() {
    assert_eq!(build_twint_fee_description(Some("R-42")), "TWINT Gebuehr (R-42)");
    assert_eq!(build_twint_fee_description(Some("  ")), "TWINT Gebuehr");
    assert_eq!(build_twint_fee_description(None), "TWINT Gebuehr");
}

#[test]
fn month_bounds() {
    assert!(ensure_month(1).is_ok());
    assert!(ensure_month(12).is_ok());
    let e = ensure_month(0).err().expect("fails");
    assert_eq!(e.code, "INVALID_MONTH");
    assert!(ensure_month(13).is_err());
}

#[test]
fn month_ranges() {
    assert!(ensure_month_range(1, 12).is_ok());
    assert!(ensure_month_range(3, 3).is_ok());
    let e = ensure_month_range(0, 5).err().expect("fails");
    assert_eq!(e.code, "INVALID_MONTH");
    let e2 = ensure_month_range(5, 3).err().expect("fails");
    assert_eq!(e2.code, "INVALID_MONTH_RANGE");
    assert_eq!(e2.message, "Monatsbereich ungueltig");
}

#[test]
fn dates_parse_exactly() {
    assert_eq!(
        parse_date("2024-02-29").expect("valid"),
        Date { year: 2024, month: 2, day: 29 }
    );
    let e = parse_date("2023-02-29").err().expect("invalid");
    assert_eq!(e.code, "INVALID_DATE");
    assert_eq!(e.message, "Datum muss YYYY-MM-DD sein");
    assert!(parse_date("2024-1-02").is_err());
    assert!(parse_date("2024-01-02x").is_err());
    assert!(parse_date("2024-00-10").is_err());
    assert!(parse_date("2024-04-31").is_err());
}

#[test]
fn mock_rng_is_deterministic() {
    let mut a = MockRng::new(42);
    let mut b = MockRng::new(42);
    let expected_state = 42u64.wrapping_mul(6364136223846793005).wrapping_add(1);
    let first = a.next_u32();
    assert_eq!(first, (expected_state >> 32) as u32);
    assert_eq!(a.state, expected_state);
    assert_eq!(b.next_u32(), first);
    assert_eq!(a.next_u32(), b.next_u32());
    let mut c = MockRng::new(43);
    let _ = c.next_u32();
    assert_ne!(a.state, c.state);
}

#[test]
fn unique_names_avoid_existing_files() {
    let existing: Vec<String> = Vec::new();
    assert_eq!(unique_receipt_path("Beleg_A-1.pdf", &existing), "Beleg_A-1.pdf");

    let existing = vec![String::from("Beleg_A-1.pdf")];
    assert_eq!(unique_receipt_path("Beleg_A-1.pdf", &existing), "Beleg_A-1_1.pdf");

    let existing = vec![
        String::from("Beleg_A-1.pdf"),
        String::from("Beleg_A-1_1.pdf"),
        String::from("Beleg_A-1_2.pdf"),
    ];
    assert_eq!(unique_receipt_path("Beleg_A-1.pdf", &existing), "Beleg_A-1_3.pdf");
}

#[test]
fn unique_names_handle_missing_extensions() {
    let existing = vec![String::from("notes")];
    assert_eq!(unique_receipt_path("notes", &existing), "notes_1");
    let existing = vec![String::from(".hidden")];
    assert_eq!(unique_receipt_path(".hidden", &existing), ".hidden_1");
    let existing = vec![String::from("archive.tar.gz")];
    assert_eq!(unique_receipt_path("archive.tar.gz", &existing), "archive.tar_1.gz");
}
