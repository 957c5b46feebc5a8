use vstd::prelude::*;

verus! {

// The plain request and response records the operator-facing commands
// exchange with the surrounding application. They carry no behaviour of
// their own; the functions that act on them state the contracts.

/// A request to write a backup archive.
#[derive(Debug)]
pub struct BackupRequest {
    pub include_receipts: bool,
    pub output_path: Option<String>,
    pub actor: Option<String>,
}

/// A request to restore from a backup archive.
#[derive(Debug)]
pub struct RestoreRequest {
    pub archive_path: String,
    pub actor: Option<String>,
}

/// A request to export a bookkeeping period.
#[derive(Debug)]
pub struct ExportRequest {
    pub year: i32,
    pub month: Option<i32>,
    pub month_from: Option<i32>,
    pub month_to: Option<i32>,
    pub output_path: Option<String>,
    pub actor: Option<String>,
}

/// A transaction listing filter.
#[derive(Debug)]
pub struct TransactionFilter {
    pub year: i32,
    pub month: i32,
    pub tx_type: String,
    pub page: i64,
    pub page_size: i64,
    pub search: Option<String>,
}

/// One page of a listing, with the total count over all pages.
#[derive(Debug)]
pub struct Paginated<T> {
    pub total: i64,
    pub items: Vec<T>,
}

/// What an import of payment records reports back.
#[derive(Debug, PartialEq, Eq, Structural)]
pub struct TwintImportSummary {
    pub income_created: i64,
    pub fee_created: i64,
    pub skipped_duplicates: i64,
}

/// A file handed back for display, base64-encoded.
#[derive(Debug)]
pub struct ReadFileResponse {
    pub data_base64: String,
    pub content_type: String,
}

} // verus!
