//! The persisted entities of the ledger and the typed inputs of its
//! operations. Identifiers are opaque strings, timestamps and dates are
//! ISO-8601 strings, and money is held in integer minor units (cents).
use vstd::prelude::*;

verus! {

/// Root of all other entities; immutable once created.
#[derive(Debug)]
pub struct Company {
    pub id: String,
    pub name: String,
    pub org_number: Option<String>,
    pub fiscal_year_start: String,
    pub fiscal_year_end: String,
    pub created_at: String,
}

/// One account of the chart of accounts; deactivated rather than deleted,
/// because historical voucher rows reference it.
#[derive(Debug)]
pub struct Account {
    pub id: String,
    pub company_id: String,
    pub number: i64,
    pub name: String,
    pub account_type: String,
    pub vat_code: Option<String>,
    pub is_active: bool,
    pub created_at: String,
}

/// A named sequence handing out unique, gapless voucher numbers;
/// `next_number` advances exactly once per voucher committed in the series.
#[derive(Debug)]
pub struct VoucherSeries {
    pub id: String,
    pub company_id: String,
    pub code: String,
    pub description: String,
    pub next_number: i64,
}

/// One dated financial transaction with its rows and attachments loaded
/// eagerly. `posted_at` empty means draft; set means finalized and immutable.
#[derive(Debug)]
pub struct Voucher {
    pub id: String,
    pub company_id: String,
    pub series_id: String,
    pub voucher_number: i64,
    pub date: String,
    pub description: String,
    pub counterparty: Option<String>,
    pub created_at: String,
    pub created_by: String,
    pub posted_at: Option<String>,
    pub rows: Vec<VoucherRow>,
    pub attachments: Vec<Attachment>,
}

/// One debit/credit line of a voucher.
#[derive(Debug)]
pub struct VoucherRow {
    pub id: String,
    pub voucher_id: String,
    pub account_id: String,
    pub description: Option<String>,
    pub debit_cents: i64,
    pub credit_cents: i64,
    pub vat_code: Option<String>,
}

/// A reference attached to a voucher, such as a pointer to a receipt.
#[derive(Debug)]
pub struct Attachment {
    pub id: String,
    pub voucher_id: String,
    pub ref_type: String,
    pub ref_value: String,
    pub note: Option<String>,
    pub created_at: String,
}

/// An inclusive date range in which no voucher may be created or posted.
#[derive(Debug)]
pub struct PeriodLock {
    pub id: String,
    pub company_id: String,
    pub period_start: String,
    pub period_end: String,
    pub locked_at: String,
    pub locked_by: String,
}

/// An immutable record of one mutating action against the ledger.
#[derive(Debug)]
pub struct AuditEntry {
    pub id: String,
    pub company_id: String,
    pub entity_type: String,
    pub entity_id: String,
    pub action: String,
    pub payload_json: String,
    pub created_at: String,
    pub created_by: String,
}

/// One line of the voucher summary report; `total_cents` is the voucher's
/// total debit.
#[derive(Debug)]
pub struct VoucherListItem {
    pub id: String,
    pub voucher_number: i64,
    pub date: String,
    pub description: String,
    pub total_cents: i64,
}

/// One line of an account ledger report, with the running signed balance
/// (debit minus credit) accumulated in date and voucher-number order.
#[derive(Debug)]
pub struct LedgerRow {
    pub date: String,
    pub voucher_number: i64,
    pub description: String,
    pub debit_cents: i64,
    pub credit_cents: i64,
    pub balance_cents: i64,
}

/// Request to create a voucher.
#[derive(Debug)]
pub struct CreateVoucherInput {
    pub company_id: String,
    pub series_id: String,
    pub date: String,
    pub description: String,
    pub counterparty: Option<String>,
    pub rows: Vec<CreateVoucherRowInput>,
    pub attachments: Vec<CreateAttachmentInput>,
}

/// One requested voucher row.
#[derive(Debug)]
pub struct CreateVoucherRowInput {
    pub account_id: String,
    pub description: Option<String>,
    pub debit_cents: i64,
    pub credit_cents: i64,
    pub vat_code: Option<String>,
}

/// One requested attachment; dropped silently when `ref_value` is blank.
#[derive(Debug)]
pub struct CreateAttachmentInput {
    pub ref_type: String,
    pub ref_value: String,
    pub note: Option<String>,
}

/// Request to create a correction voucher reversing an original.
#[derive(Debug)]
pub struct CreateCorrectionInput {
    pub original_voucher_id: String,
    pub date: String,
    pub description: String,
}

/// Request to create or replace an account, keyed on `id`.
#[derive(Debug)]
pub struct UpsertAccountInput {
    pub id: Option<String>,
    pub company_id: String,
    pub number: i64,
    pub name: String,
    pub account_type: String,
    pub vat_code: Option<String>,
    pub is_active: bool,
}

/// Request to create a company.
#[derive(Debug)]
pub struct CreateCompanyInput {
    pub name: String,
    pub org_number: Option<String>,
}

/// Selects a company.
#[derive(Debug)]
pub struct CompanyIdInput {
    pub company_id: String,
}

/// Selects a company's vouchers, optionally restricted to a date range.
#[derive(Debug)]
pub struct ListVouchersInput {
    pub company_id: String,
    pub from_date: Option<String>,
    pub to_date: Option<String>,
}

/// Selects a voucher.
#[derive(Debug)]
pub struct VoucherIdInput {
    pub voucher_id: String,
}

/// Request to lock an inclusive date range of a company.
#[derive(Debug)]
pub struct LockPeriodInput {
    pub company_id: String,
    pub period_start: String,
    pub period_end: String,
}

/// Parameters of the voucher summary report.
#[derive(Debug)]
pub struct ReportVoucherListInput {
    pub company_id: String,
    pub from_date: Option<String>,
    pub to_date: Option<String>,
}

/// Parameters of the account ledger report.
#[derive(Debug)]
pub struct ReportLedgerInput {
    pub company_id: String,
    pub account_id: String,
    pub from_date: Option<String>,
    pub to_date: Option<String>,
}

/// Parameters of an export: which company, and where the caller wants the
/// files; the library only renders text, the caller writes it out.
#[derive(Debug)]
pub struct ExportInput {
    pub company_id: String,
    pub target_path: String,
}

/// Fresh identifiers a voucher creation consumes: one per row input, one per
/// attachment input (used only for the attachments that are kept), one for
/// the voucher itself and one for its audit entry.
#[derive(Debug)]
pub struct NewVoucherIds {
    pub voucher_id: String,
    pub row_ids: Vec<String>,
    pub attachment_ids: Vec<String>,
    pub audit_id: String,
}

/// Fresh identifiers the demo seed consumes.
#[derive(Debug)]
pub struct SeedIds {
    pub company_id: String,
    pub series_id: String,
    pub account_ids: Vec<String>,
    pub audit_id: String,
}

/// Why an operation was refused. Validation failures are detected before any
/// state change; `Infrastructure` stands for the store-level failures of the
/// design (an identifier collision, an exhausted counter, a sum outside the
/// representable range).
#[derive(PartialEq, Eq, Structural, Clone, Copy, Debug)]
pub enum LedgerError {
    EmptyVoucher,
    Unbalanced,
    PeriodLocked,
    SeriesMismatch,
    AlreadyPosted,
    NotFound,
    Infrastructure,
}

/// The message shown for each error, as the operations surface it.
pub open spec fn spec_error_message(e: LedgerError) -> Seq<char> {
    match e {
        LedgerError::EmptyVoucher => "Voucher must have rows"@,
        LedgerError::Unbalanced => "Voucher does not balance"@,
        LedgerError::PeriodLocked => "Period is locked"@,
        LedgerError::SeriesMismatch => "Series does not belong to company"@,
        LedgerError::AlreadyPosted => "Voucher is already posted"@,
        LedgerError::NotFound => "Not found"@,
        LedgerError::Infrastructure => "Infrastructure error"@,
    }
}

impl LedgerError {
    /// A human-readable message for the error.
    pub fn message(&self) -> (r: String)
        ensures
            r@ == spec_error_message(*self),
    {
        match self {
            LedgerError::EmptyVoucher => String::from_str("Voucher must have rows"),
            LedgerError::Unbalanced => String::from_str("Voucher does not balance"),
            LedgerError::PeriodLocked => String::from_str("Period is locked"),
            LedgerError::SeriesMismatch => String::from_str("Series does not belong to company"),
            LedgerError::AlreadyPosted => String::from_str("Voucher is already posted"),
            LedgerError::NotFound => String::from_str("Not found"),
            LedgerError::Infrastructure => String::from_str("Infrastructure error"),
        }
    }
}

/// The view of an optional string.
pub open spec fn opt_view(o: Option<String>) -> Option<Seq<char>> {
    match o {
        Option::Some(s) => Option::Some(s@),
        Option::None => Option::None,
    }
}

/// Duplicates an optional string.
pub fn opt_clone(o: &Option<String>) -> (r: Option<String>)
    ensures
        r == *o,
{
    match o {
        Option::Some(s) => Option::Some(s.clone()),
        Option::None => Option::None,
    }
}

} // verus!
