//! The ledger transaction engine: one in-memory state holding every
//! committed entity, and the operations that move it from one committed
//! state to the next. Every operation either applies completely or leaves
//! the state exactly as it was — there is no partially applied voucher.
use vstd::prelude::*;

use crate::model::Account;
use crate::model::Attachment;
use crate::model::AuditEntry;
use crate::model::Company;
use crate::model::CreateVoucherInput;
use crate::model::CreateVoucherRowInput;
use crate::model::LedgerError;
use crate::model::NewVoucherIds;
use crate::model::PeriodLock;
use crate::model::Voucher;
use crate::model::VoucherRow;
use crate::model::VoucherSeries;
use crate::model::opt_view;
use crate::text::lex_le;

verus! {

/// The committed state of one bookkeeping store.
pub struct Ledger {
    pub companies: Vec<Company>,
    pub accounts: Vec<Account>,
    pub series: Vec<VoucherSeries>,
    pub vouchers: Vec<Voucher>,
    pub locks: Vec<PeriodLock>,
    pub audit: Vec<AuditEntry>,
}

/// Index of the first element satisfying `p`, or -1 when none does.
pub open spec fn first_index<T>(s: Seq<T>, p: spec_fn(T) -> bool) -> int
    decreases s.len(),
{
    if s.len() == 0 {
        -1
    } else if p(s[0]) {
        0
    } else {
        let r = first_index(s.subrange(1, s.len() as int), p);
        if r < 0 {
            -1
        } else {
            r + 1
        }
    }
}

/// What `first_index` returns: either -1 and nothing satisfies `p`, or the
/// least index whose element satisfies `p`.
pub proof fn lemma_first_index<T>(s: Seq<T>, p: spec_fn(T) -> bool)
    ensures
        first_index(s, p) == -1 ==> forall|j: int| 0 <= j < s.len() ==> !p(#[trigger] s[j]),
        first_index(s, p) != -1 ==> {
            &&& 0 <= first_index(s, p) < s.len()
            &&& p(s[first_index(s, p)])
            &&& forall|j: int| 0 <= j < first_index(s, p) ==> !p(#[trigger] s[j])
        },
    decreases s.len(),
{
    if s.len() == 0 {
    } else if p(s[0]) {
    } else {
        let t = s.subrange(1, s.len() as int);
        lemma_first_index(t, p);
        assert(forall|j: int| 0 <= j < t.len() ==> #[trigger] t[j] == s[j + 1]);
        assert(forall|j: int| 1 <= j < s.len() ==> #[trigger] s[j] == t[j - 1]);
    }
}

/// `first_index` is determined by where the first satisfying element sits.
pub proof fn lemma_first_index_is<T>(s: Seq<T>, p: spec_fn(T) -> bool, i: int)
    requires
        0 <= i < s.len(),
        p(s[i]),
        forall|j: int| 0 <= j < i ==> !p(#[trigger] s[j]),
    ensures
        first_index(s, p) == i,
    decreases s.len(),
{
    if i == 0 {
    } else {
        let t = s.subrange(1, s.len() as int);
        assert(forall|j: int| 0 <= j < t.len() ==> #[trigger] t[j] == s[j + 1]);
        assert(forall|j: int| 1 <= j < s.len() ==> #[trigger] s[j] == t[j - 1]);
        lemma_first_index_is(t, p, i - 1);
    }
}

/// When nothing satisfies `p`, `first_index` is -1.
pub proof fn lemma_first_index_none<T>(s: Seq<T>, p: spec_fn(T) -> bool)
    requires
        forall|j: int| 0 <= j < s.len() ==> !p(#[trigger] s[j]),
    ensures
        first_index(s, p) == -1,
    decreases s.len(),
{
    if s.len() > 0 {
        let t = s.subrange(1, s.len() as int);
        assert(forall|j: int| 0 <= j < t.len() ==> #[trigger] t[j] == s[j + 1]);
        assert(forall|j: int| 1 <= j < s.len() ==> #[trigger] s[j] == t[j - 1]);
        lemma_first_index_none(t, p);
    }
}

/// Index of the series with the given id.
pub open spec fn series_index(series: Seq<VoucherSeries>, id: Seq<char>) -> int {
    first_index(series, |s: VoucherSeries| s.id@ == id)
}

/// Index of the voucher with the given id.
pub open spec fn voucher_index(vouchers: Seq<Voucher>, id: Seq<char>) -> int {
    first_index(vouchers, |v: Voucher| v.id@ == id)
}

/// Index of the account with the given id.
pub open spec fn account_index(accounts: Seq<Account>, id: Seq<char>) -> int {
    first_index(accounts, |a: Account| a.id@ == id)
}

/// Sum of the debit side of stored rows.
pub open spec fn row_sum_debits(rows: Seq<VoucherRow>) -> int
    decreases rows.len(),
{
    if rows.len() == 0 {
        0
    } else {
        row_sum_debits(rows.drop_last()) + rows.last().debit_cents
    }
}

/// Sum of the credit side of stored rows.
pub open spec fn row_sum_credits(rows: Seq<VoucherRow>) -> int
    decreases rows.len(),
{
    if rows.len() == 0 {
        0
    } else {
        row_sum_credits(rows.drop_last()) + rows.last().credit_cents
    }
}

/// Sum of the debit side of requested rows.
pub open spec fn input_sum_debits(rows: Seq<CreateVoucherRowInput>) -> int
    decreases rows.len(),
{
    if rows.len() == 0 {
        0
    } else {
        input_sum_debits(rows.drop_last()) + rows.last().debit_cents
    }
}

/// Sum of the credit side of requested rows.
pub open spec fn input_sum_credits(rows: Seq<CreateVoucherRowInput>) -> int
    decreases rows.len(),
{
    if rows.len() == 0 {
        0
    } else {
        input_sum_credits(rows.drop_last()) + rows.last().credit_cents
    }
}

/// A voucher's rows balance: total debit equals total credit.
pub open spec fn voucher_balanced(v: Voucher) -> bool {
    row_sum_debits(v.rows@) == row_sum_credits(v.rows@)
}

/// The lock covers the date for the company: the date falls inside the
/// inclusive range `[period_start, period_end]`.
pub open spec fn lock_covers(l: PeriodLock, company_id: Seq<char>, date: Seq<char>) -> bool {
    l.company_id@ == company_id && lex_le(l.period_start@, date) && lex_le(date, l.period_end@)
}

/// Some lock of the company covers the date.
pub open spec fn locked_in(locks: Seq<PeriodLock>, company_id: Seq<char>, date: Seq<char>) -> bool {
    exists|i: int| 0 <= i < locks.len() && lock_covers(#[trigger] locks[i], company_id, date)
}

/// Voucher numbers committed in the series with the given id, in storage
/// order.
pub open spec fn numbers_in_series(vouchers: Seq<Voucher>, sid: Seq<char>) -> Seq<int>
    decreases vouchers.len(),
{
    if vouchers.len() == 0 {
        Seq::empty()
    } else {
        let rest = numbers_in_series(vouchers.drop_last(), sid);
        if vouchers.last().series_id@ == sid {
            rest.push(vouchers.last().voucher_number as int)
        } else {
            rest
        }
    }
}

/// The numbers a series with the given `next_number` must have handed out:
/// `1, 2, ..., next_number - 1`.
pub open spec fn number_range(next: int) -> Seq<int> {
    Seq::new((next - 1) as nat, |i: int| i + 1)
}

/// A stored row carries exactly what its request asked, on the given voucher.
pub open spec fn row_matches_core(row: VoucherRow, inp: CreateVoucherRowInput, vid: Seq<char>) -> bool {
    &&& row.voucher_id@ == vid
    &&& row.account_id@ == inp.account_id@
    &&& opt_view(row.description) == opt_view(inp.description)
    &&& row.debit_cents == inp.debit_cents
    &&& row.credit_cents == inp.credit_cents
    &&& opt_view(row.vat_code) == opt_view(inp.vat_code)
}

/// Stored rows mirror the requested rows one for one, in order.
pub open spec fn rows_match_core(rows: Seq<VoucherRow>, ins: Seq<CreateVoucherRowInput>, vid: Seq<char>) -> bool {
    &&& rows.len() == ins.len()
    &&& forall|j: int| 0 <= j < ins.len() ==> row_matches_core(#[trigger] rows[j], ins[j], vid)
}

/// A stored attachment carries exactly what its request asked.
pub open spec fn attachment_matches_core(
    a: Attachment,
    inp: crate::model::CreateAttachmentInput,
    vid: Seq<char>,
    now: Seq<char>,
) -> bool {
    &&& a.voucher_id@ == vid
    &&& a.ref_type@ == inp.ref_type@
    &&& a.ref_value@ == inp.ref_value@
    &&& opt_view(a.note) == opt_view(inp.note)
    &&& a.created_at@ == now
}

/// Stored attachments are the requested ones whose reference value is not
/// blank, in request order; blank ones are silently dropped.
pub open spec fn attachments_match_core(
    outs: Seq<Attachment>,
    ins: Seq<crate::model::CreateAttachmentInput>,
    vid: Seq<char>,
    now: Seq<char>,
) -> bool
    decreases ins.len(),
{
    if ins.len() == 0 {
        outs.len() == 0
    } else if crate::text::is_blank(ins.last().ref_value@) {
        attachments_match_core(outs, ins.drop_last(), vid, now)
    } else {
        &&& outs.len() > 0
        &&& attachment_matches_core(outs.last(), ins.last(), vid, now)
        &&& attachments_match_core(outs.drop_last(), ins.drop_last(), vid, now)
    }
}

/// As `attachments_match_core`, and each kept attachment takes the fresh
/// identifier supplied for its request index.
pub open spec fn attachments_match(
    outs: Seq<Attachment>,
    ins: Seq<crate::model::CreateAttachmentInput>,
    ids: Seq<String>,
    vid: Seq<char>,
    now: Seq<char>,
) -> bool
    decreases ins.len(),
{
    if ins.len() == 0 {
        outs.len() == 0
    } else if crate::text::is_blank(ins.last().ref_value@) {
        attachments_match(outs, ins.drop_last(), ids.drop_last(), vid, now)
    } else {
        &&& outs.len() > 0
        &&& attachment_matches_core(outs.last(), ins.last(), vid, now)
        &&& outs.last().id@ == ids.last()@
        &&& attachments_match(outs.drop_last(), ins.drop_last(), ids.drop_last(), vid, now)
    }
}

/// The audit entry a successful voucher creation appends: tagged as the
/// creation of that voucher and carrying the assigned number.
pub open spec fn audit_create_core(a: AuditEntry, company_id: Seq<char>, vid: Seq<char>, num: int) -> bool {
    &&& a.company_id@ == company_id
    &&& a.entity_type@ == "voucher"@
    &&& a.entity_id@ == vid
    &&& a.action@ == "create"@
    &&& a.payload_json@ == "{\"voucher_number\":"@ + crate::text::dec_rep(num as nat) + "}"@
    &&& a.created_by@ == "local"@
}

/// Everything a freshly created voucher must hold, apart from which fresh
/// identifiers and timestamp it was given.
pub open spec fn new_voucher_core(nv: Voucher, input: CreateVoucherInput, num: int) -> bool {
    &&& nv.company_id@ == input.company_id@
    &&& nv.series_id@ == input.series_id@
    &&& nv.voucher_number == num
    &&& nv.date@ == input.date@
    &&& nv.description@ == input.description@
    &&& opt_view(nv.counterparty) == opt_view(input.counterparty)
    &&& nv.created_by@ == "local"@
    &&& nv.posted_at is None
    &&& rows_match_core(nv.rows@, input.rows@, nv.id@)
    &&& attachments_match_core(nv.attachments@, input.attachments@, nv.id@, nv.created_at@)
}

/// The returned voucher mirrors the stored one, except that it reports no
/// attachments (they are loaded on a point lookup, not returned on creation).
pub open spec fn returned_voucher_matches(ret: Voucher, nv: Voucher) -> bool {
    &&& ret.id@ == nv.id@
    &&& ret.company_id@ == nv.company_id@
    &&& ret.series_id@ == nv.series_id@
    &&& ret.voucher_number == nv.voucher_number
    &&& ret.date@ == nv.date@
    &&& ret.description@ == nv.description@
    &&& opt_view(ret.counterparty) == opt_view(nv.counterparty)
    &&& ret.created_at@ == nv.created_at@
    &&& ret.created_by@ == nv.created_by@
    &&& opt_view(ret.posted_at) == opt_view(nv.posted_at)
    &&& ret.rows@ == nv.rows@
    &&& ret.attachments@.len() == 0
}

/// Two vouchers carry the same data.
pub open spec fn voucher_alike(a: Voucher, b: Voucher) -> bool {
    &&& a.id@ == b.id@
    &&& a.company_id@ == b.company_id@
    &&& a.series_id@ == b.series_id@
    &&& a.voucher_number == b.voucher_number
    &&& a.date@ == b.date@
    &&& a.description@ == b.description@
    &&& opt_view(a.counterparty) == opt_view(b.counterparty)
    &&& a.created_at@ == b.created_at@
    &&& a.created_by@ == b.created_by@
    &&& opt_view(a.posted_at) == opt_view(b.posted_at)
    &&& a.rows@ == b.rows@
    &&& a.attachments@ == b.attachments@
}

/// The validation a voucher creation runs, in order, before it touches any
/// state; `None` means every check passed.
pub open spec fn create_validation(l: Ledger, input: CreateVoucherInput) -> Option<LedgerError> {
    if input.rows@.len() == 0 {
        Option::Some(LedgerError::EmptyVoucher)
    } else if input_sum_debits(input.rows@) != input_sum_credits(input.rows@) {
        Option::Some(LedgerError::Unbalanced)
    } else if locked_in(l.locks@, input.company_id@, input.date@) {
        Option::Some(LedgerError::PeriodLocked)
    } else if series_index(l.series@, input.series_id@) < 0 {
        Option::Some(LedgerError::NotFound)
    } else if l.series@[series_index(l.series@, input.series_id@)].company_id@ != input.company_id@ {
        Option::Some(LedgerError::SeriesMismatch)
    } else {
        Option::None
    }
}

/// The exact error a voucher creation with the given fresh identifiers
/// returns, or `None` when it must succeed: a validation failure, a voucher
/// identifier already in use, or an exhausted series counter.
pub open spec fn create_outcome_err(l: Ledger, input: CreateVoucherInput, ids: NewVoucherIds) -> Option<LedgerError> {
    match create_validation(l, input) {
        Option::Some(e) => Option::Some(e),
        Option::None => {
            if voucher_index(l.vouchers@, ids.voucher_id@) >= 0 {
                Option::Some(LedgerError::Infrastructure)
            } else if l.series@[series_index(l.series@, input.series_id@)].next_number
                == i64::MAX {
                Option::Some(LedgerError::Infrastructure)
            } else {
                Option::None
            }
        },
    }
}

/// What a successful voucher creation does to the state, apart from which
/// fresh identifiers and timestamp it consumed: the series counter advances
/// by exactly one, the new voucher is appended carrying the pre-increment
/// number, exactly one audit entry is appended, and nothing else changes.
pub open spec fn create_success(pre: Ledger, post: Ledger, input: CreateVoucherInput, ret: Voucher) -> bool {
    let k = series_index(pre.series@, input.series_id@);
    let num = pre.series@[k].next_number as int;
    let nv = post.vouchers@.last();
    let a = post.audit@.last();
    &&& post.companies@ == pre.companies@
    &&& post.accounts@ == pre.accounts@
    &&& post.locks@ == pre.locks@
    &&& post.series@ == pre.series@.update(
        k,
        VoucherSeries { next_number: (num + 1) as i64, ..pre.series@[k] },
    )
    &&& post.vouchers@.len() == pre.vouchers@.len() + 1
    &&& post.vouchers@ == pre.vouchers@.push(nv)
    &&& new_voucher_core(nv, input, num)
    &&& post.audit@.len() == pre.audit@.len() + 1
    &&& post.audit@ == pre.audit@.push(a)
    &&& audit_create_core(a, input.company_id@, nv.id@, num)
    &&& a.created_at@ == nv.created_at@
    &&& returned_voucher_matches(ret, nv)
}

/// Identified attachments also match without regard to their identifiers.
proof fn lemma_attachments_match_core(
    outs: Seq<Attachment>,
    ins: Seq<crate::model::CreateAttachmentInput>,
    ids: Seq<String>,
    vid: Seq<char>,
    now: Seq<char>,
)
    requires
        attachments_match(outs, ins, ids, vid, now),
    ensures
        attachments_match_core(outs, ins, vid, now),
    decreases ins.len(),
{
    if ins.len() == 0 {
    } else if crate::text::is_blank(ins.last().ref_value@) {
        lemma_attachments_match_core(outs, ins.drop_last(), ids.drop_last(), vid, now);
    } else {
        lemma_attachments_match_core(outs.drop_last(), ins.drop_last(), ids.drop_last(), vid, now);
    }
}

/// Matching stored rows sum to the same totals as their requests.
proof fn lemma_sums_of_matching(rows: Seq<VoucherRow>, ins: Seq<CreateVoucherRowInput>)
    requires
        rows.len() == ins.len(),
        forall|j: int|
            0 <= j < ins.len() ==> (#[trigger] rows[j]).debit_cents == ins[j].debit_cents
                && rows[j].credit_cents == ins[j].credit_cents,
    ensures
        row_sum_debits(rows) == input_sum_debits(ins),
        row_sum_credits(rows) == input_sum_credits(ins),
    decreases rows.len(),
{
    if rows.len() > 0 {
        lemma_sums_of_matching(rows.drop_last(), ins.drop_last());
    }
}

/// Appending a voucher extends exactly its own series' number list.
proof fn lemma_numbers_push(vs: Seq<Voucher>, nv: Voucher, sid: Seq<char>)
    ensures
        numbers_in_series(vs.push(nv), sid) == if nv.series_id@ == sid {
            numbers_in_series(vs, sid).push(nv.voucher_number as int)
        } else {
            numbers_in_series(vs, sid)
        },
{
    assert(vs.push(nv).drop_last() =~= vs);
}

/// Replacing a voucher without touching its series or number leaves every
/// series' number list unchanged.
proof fn lemma_numbers_update_same(vs: Seq<Voucher>, i: int, v2: Voucher, sid: Seq<char>)
    requires
        0 <= i < vs.len(),
        v2.series_id@ == vs[i].series_id@,
        v2.voucher_number == vs[i].voucher_number,
    ensures
        numbers_in_series(vs.update(i, v2), sid) == numbers_in_series(vs, sid),
    decreases vs.len(),
{
    let w = vs.update(i, v2);
    if i == vs.len() - 1 {
        assert(w.drop_last() =~= vs.drop_last());
        assert(w.last() == v2);
    } else {
        assert(w.drop_last() =~= vs.drop_last().update(i, v2));
        lemma_numbers_update_same(vs.drop_last(), i, v2, sid);
        assert(w.last() == vs.last());
    }
}

/// The gapless range grows by exactly its old upper bound.
proof fn lemma_number_range_push(next: int)
    requires
        next >= 1,
    ensures
        number_range(next + 1) == number_range(next).push(next),
{
    assert(number_range(next + 1) =~= number_range(next).push(next));
}

/// Index of the company with the given id.
pub open spec fn company_index(companies: Seq<Company>, id: Seq<char>) -> int {
    first_index(companies, |c: Company| c.id@ == id)
}

impl Ledger {
    /// No two companies, vouchers, series or accounts share an identifier.
    pub open spec fn ids_unique(self) -> bool {
        &&& forall|i: int, j: int|
            0 <= i < j < self.companies@.len() ==> (#[trigger] self.companies@[i]).id@ != (
            #[trigger] self.companies@[j]).id@
        &&& forall|i: int, j: int|
            0 <= i < j < self.vouchers@.len() ==> (#[trigger] self.vouchers@[i]).id@ != (
            #[trigger] self.vouchers@[j]).id@
        &&& forall|i: int, j: int|
            0 <= i < j < self.series@.len() ==> (#[trigger] self.series@[i]).id@ != (
            #[trigger] self.series@[j]).id@
        &&& forall|i: int, j: int|
            0 <= i < j < self.accounts@.len() ==> (#[trigger] self.accounts@[i]).id@ != (
            #[trigger] self.accounts@[j]).id@
    }

    /// Every committed voucher balances.
    pub open spec fn vouchers_balanced(self) -> bool {
        forall|i: int|
            0 <= i < self.vouchers@.len() ==> voucher_balanced(#[trigger] self.vouchers@[i])
    }

    /// Every series has handed out exactly the numbers `1 .. next_number`,
    /// each once: no gap, no repeat, none reused.
    pub open spec fn series_gapless(self) -> bool {
        forall|k: int|
            0 <= k < self.series@.len() ==> {
                let s = #[trigger] self.series@[k];
                s.next_number >= 1 && numbers_in_series(self.vouchers@, s.id@).to_multiset()
                    == number_range(s.next_number as int).to_multiset()
            }
    }

    /// The ledger's global invariant, established by the empty ledger and
    /// preserved by every operation.
    pub open spec fn wf(self) -> bool {
        self.ids_unique() && self.vouchers_balanced() && self.series_gapless()
    }

    /// An empty, well-formed ledger.
    pub fn new() -> (r: Ledger)
        ensures
            r.wf(),
            r.companies@.len() == 0,
            r.accounts@.len() == 0,
            r.series@.len() == 0,
            r.vouchers@.len() == 0,
            r.locks@.len() == 0,
            r.audit@.len() == 0,
    {
        let r = Ledger {
            companies: Vec::new(),
            accounts: Vec::new(),
            series: Vec::new(),
            vouchers: Vec::new(),
            locks: Vec::new(),
            audit: Vec::new(),
        };
        proof {
            assert forall|k: int| 0 <= k < r.series@.len() implies {
                let s = #[trigger] r.series@[k];
                s.next_number >= 1 && numbers_in_series(r.vouchers@, s.id@).to_multiset()
                    == number_range(s.next_number as int).to_multiset()
            } by {}
        }
        r
    }

    /// True iff some period lock of the company covers the date; evaluated
    /// against the current committed state, with no side effect.
    pub fn is_period_locked(&self, company_id: &String, date: &String) -> (r: bool)
        ensures
            r == locked_in(self.locks@, company_id@, date@),
    {
        let n = self.locks.len();
        let mut i: usize = 0;
        while i < n
            invariant
                i <= n == self.locks@.len(),
                forall|j: int| 0 <= j < i ==> !lock_covers(#[trigger] self.locks@[j], company_id@, date@),
            decreases n - i,
        {
            let l = &self.locks[i];
            if l.company_id == *company_id {
                if crate::text::str_lex_le(l.period_start.as_str(), date.as_str()) {
                    if crate::text::str_lex_le(date.as_str(), l.period_end.as_str()) {
                        return true;
                    }
                }
            }
            i = i + 1;
        }
        false
    }

    /// Finds the voucher with the given id.
    fn find_voucher(&self, id: &String) -> (r: Option<usize>)
        ensures
            match r {
                Option::Some(i) => {
                    &&& voucher_index(self.vouchers@, id@) == i
                    &&& i < self.vouchers@.len()
                    &&& self.vouchers@[i as int].id@ == id@
                    &&& forall|j: int| 0 <= j < i ==> (#[trigger] self.vouchers@[j]).id@ != id@
                },
                Option::None => {
                    &&& voucher_index(self.vouchers@, id@) == -1
                    &&& forall|j: int|
                        0 <= j < self.vouchers@.len() ==> (#[trigger] self.vouchers@[j]).id@ != id@
                },
            },
    {
        let n = self.vouchers.len();
        let mut i: usize = 0;
        while i < n
            invariant
                i <= n == self.vouchers@.len(),
                forall|j: int| 0 <= j < i ==> (#[trigger] self.vouchers@[j]).id@ != id@,
            decreases n - i,
        {
            if self.vouchers[i].id == *id {
                proof {
                    lemma_first_index_is(self.vouchers@, |v: Voucher| v.id@ == id@, i as int);
                }
                return Option::Some(i);
            }
            i = i + 1;
        }
        proof {
            lemma_first_index_none(self.vouchers@, |v: Voucher| v.id@ == id@);
        }
        Option::None
    }

    /// Finds the series with the given id.
    fn find_series(&self, id: &String) -> (r: Option<usize>)
        ensures
            match r {
                Option::Some(i) => {
                    &&& series_index(self.series@, id@) == i
                    &&& i < self.series@.len()
                    &&& self.series@[i as int].id@ == id@
                },
                Option::None => {
                    &&& series_index(self.series@, id@) == -1
                    &&& forall|j: int|
                        0 <= j < self.series@.len() ==> (#[trigger] self.series@[j]).id@ != id@
                },
            },
    {
        let n = self.series.len();
        let mut i: usize = 0;
        while i < n
            invariant
                i <= n == self.series@.len(),
                forall|j: int| 0 <= j < i ==> (#[trigger] self.series@[j]).id@ != id@,
            decreases n - i,
        {
            if self.series[i].id == *id {
                proof {
                    lemma_first_index_is(self.series@, |s: VoucherSeries| s.id@ == id@, i as int);
                }
                return Option::Some(i);
            }
            i = i + 1;
        }
        proof {
            lemma_first_index_none(self.series@, |s: VoucherSeries| s.id@ == id@);
        }
        Option::None
    }

    /// Validates and commits a new voucher at an explicit timestamp with
    /// explicit fresh identifiers. The checks run in order — rows present,
    /// balance, period lock, series existence and ownership — before any
    /// state changes; a failed check leaves the ledger exactly as it was.
    /// On success the series counter advances by one atomically with the
    /// voucher taking the pre-increment number, non-blank attachments are
    /// kept, exactly one audit entry is appended, and the materialized
    /// voucher is returned.
    pub fn create_voucher_at(
        &mut self,
        input: &CreateVoucherInput,
        now: &String,
        ids: &NewVoucherIds,
    ) -> (r: Result<Voucher, LedgerError>)
        requires
            old(self).wf(),
            ids.row_ids@.len() == input.rows@.len(),
            ids.attachment_ids@.len() == input.attachments@.len(),
        ensures
            final(self).wf(),
            match r {
                Result::Err(e) => {
                    &&& *final(self) == *old(self)
                    &&& create_outcome_err(*old(self), *input, *ids) == Option::Some(e)
                },
                Result::Ok(ret) => {
                    &&& create_outcome_err(*old(self), *input, *ids) == Option::<LedgerError>::None
                    &&& create_success(*old(self), *final(self), *input, ret)
                    &&& final(self).vouchers@.last().id@ == ids.voucher_id@
                    &&& final(self).vouchers@.last().created_at@ == now@
                    &&& (forall|j: int|
                        0 <= j < input.rows@.len()
                            ==> (#[trigger] final(self).vouchers@.last().rows@[j]).id@
                            == ids.row_ids@[j]@)
                    &&& attachments_match(
                        final(self).vouchers@.last().attachments@,
                        input.attachments@,
                        ids.attachment_ids@,
                        ids.voucher_id@,
                        now@,
                    )
                    &&& final(self).audit@.last().id@ == ids.audit_id@
                    &&& final(self).audit@.last().created_at@ == now@
                },
            },
    {
        // Validation, in order; nothing below mutates until every check is done.
        if input.rows.len() == 0 {
            return Result::Err(LedgerError::EmptyVoucher);
        }
        let nrows = input.rows.len();
        let mut sum_d: i128 = 0;
        let mut sum_c: i128 = 0;
        let mut j: usize = 0;
        while j < nrows
            invariant
                j <= nrows == input.rows@.len(),
                sum_d == input_sum_debits(input.rows@.take(j as int)),
                sum_c == input_sum_credits(input.rows@.take(j as int)),
                -0x8000_0000_0000_0000 * (j as int) <= sum_d <= 0x7fff_ffff_ffff_ffff * (
                j as int),
                -0x8000_0000_0000_0000 * (j as int) <= sum_c <= 0x7fff_ffff_ffff_ffff * (
                j as int),
            decreases nrows - j,
        {
            proof {
                assert((j as int) * 0x7fff_ffff_ffff_ffff <= 0xffff_ffff_ffff_ffff
                    * 0x7fff_ffff_ffff_ffff && (j as int) * -0x8000_0000_0000_0000
                    >= 0xffff_ffff_ffff_ffff * -0x8000_0000_0000_0000) by (nonlinear_arith)
                    requires
                        0 <= j as int <= 0xffff_ffff_ffff_ffff,
                ;
                assert(input.rows@.take(j as int + 1).drop_last() =~= input.rows@.take(j as int));
                assert(input.rows@.take(j as int + 1).last() == input.rows@[j as int]);
            }
            let row = &input.rows[j];
            sum_d = sum_d + (row.debit_cents as i128);
            sum_c = sum_c + (row.credit_cents as i128);
            j = j + 1;
        }
        proof {
            assert(input.rows@.take(nrows as int) =~= input.rows@);
        }
        if sum_d != sum_c {
            return Result::Err(LedgerError::Unbalanced);
        }
        if self.is_period_locked(&input.company_id, &input.date) {
            return Result::Err(LedgerError::PeriodLocked);
        }
        let k = match self.find_series(&input.series_id) {
            Option::None => {
                return Result::Err(LedgerError::NotFound);
            },
            Option::Some(k) => k,
        };
        if !(self.series[k].company_id == input.company_id) {
            return Result::Err(LedgerError::SeriesMismatch);
        }
        if self.find_voucher(&ids.voucher_id).is_some() {
            return Result::Err(LedgerError::Infrastructure);
        }
        let num = self.series[k].next_number;
        if num == i64::MAX {
            return Result::Err(LedgerError::Infrastructure);
        }

        // Every check passed: commit. Advance the series counter first, as
        // part of the same state transition that consumes the number.
        let ghost pre = *self;
        let mut s = self.series.remove(k);
        s.next_number = num + 1;
        self.series.insert(k, s);
        proof {
            assert(self.series@ =~= pre.series@.update(
                k as int,
                VoucherSeries { next_number: (num + 1) as i64, ..pre.series@[k as int] },
            ));
        }

        let mut rows: Vec<VoucherRow> = Vec::new();
        let mut j: usize = 0;
        while j < nrows
            invariant
                j <= nrows == input.rows@.len() == ids.row_ids@.len(),
                rows@.len() == j,
                forall|t: int|
                    0 <= t < j ==> row_matches_core(
                        #[trigger] rows@[t],
                        input.rows@[t],
                        ids.voucher_id@,
                    ) && rows@[t].id@ == ids.row_ids@[t]@,
            decreases nrows - j,
        {
            let inp = &input.rows[j];
            rows.push(
                VoucherRow {
                    id: ids.row_ids[j].clone(),
                    voucher_id: ids.voucher_id.clone(),
                    account_id: inp.account_id.clone(),
                    description: crate::model::opt_clone(&inp.description),
                    debit_cents: inp.debit_cents,
                    credit_cents: inp.credit_cents,
                    vat_code: crate::model::opt_clone(&inp.vat_code),
                },
            );
            j = j + 1;
        }

        let natt = input.attachments.len();
        let mut atts: Vec<Attachment> = Vec::new();
        let mut j: usize = 0;
        while j < natt
            invariant
                j <= natt == input.attachments@.len() == ids.attachment_ids@.len(),
                attachments_match(
                    atts@,
                    input.attachments@.take(j as int),
                    ids.attachment_ids@.take(j as int),
                    ids.voucher_id@,
                    now@,
                ),
            decreases natt - j,
        {
            proof {
                assert(input.attachments@.take(j as int + 1).drop_last()
                    =~= input.attachments@.take(j as int));
                assert(ids.attachment_ids@.take(j as int + 1).drop_last()
                    =~= ids.attachment_ids@.take(j as int));
                assert(input.attachments@.take(j as int + 1).last() == input.attachments@[j as int]);
                assert(ids.attachment_ids@.take(j as int + 1).last() == ids.attachment_ids@[
                    j as int]);
            }
            let ghost prev_atts = atts@;
            let inp = &input.attachments[j];
            if !crate::text::str_is_blank(inp.ref_value.as_str()) {
                atts.push(
                    Attachment {
                        id: ids.attachment_ids[j].clone(),
                        voucher_id: ids.voucher_id.clone(),
                        ref_type: inp.ref_type.clone(),
                        ref_value: inp.ref_value.clone(),
                        note: crate::model::opt_clone(&inp.note),
                        created_at: now.clone(),
                    },
                );
                proof {
                    assert(atts@.drop_last() =~= prev_atts);
                }
            }
            j = j + 1;
        }
        proof {
            assert(input.attachments@.take(natt as int) =~= input.attachments@);
            assert(ids.attachment_ids@.take(natt as int) =~= ids.attachment_ids@);
        }

        let nv = Voucher {
            id: ids.voucher_id.clone(),
            company_id: input.company_id.clone(),
            series_id: input.series_id.clone(),
            voucher_number: num,
            date: input.date.clone(),
            description: input.description.clone(),
            counterparty: crate::model::opt_clone(&input.counterparty),
            created_at: now.clone(),
            created_by: String::from_str("local"),
            posted_at: Option::None,
            rows,
            attachments: atts,
        };
        let ret = Voucher {
            id: ids.voucher_id.clone(),
            company_id: input.company_id.clone(),
            series_id: input.series_id.clone(),
            voucher_number: num,
            date: input.date.clone(),
            description: input.description.clone(),
            counterparty: crate::model::opt_clone(&input.counterparty),
            created_at: now.clone(),
            created_by: String::from_str("local"),
            posted_at: Option::None,
            rows: clone_rows(&nv.rows),
            attachments: Vec::new(),
        };
        self.vouchers.push(nv);

        let mut payload = String::from_str("{\"voucher_number\":");
        crate::text::append_dec_u64(&mut payload, num as u64);
        payload.append("}");
        let entry = AuditEntry {
            id: ids.audit_id.clone(),
            company_id: input.company_id.clone(),
            entity_type: String::from_str("voucher"),
            entity_id: ids.voucher_id.clone(),
            action: String::from_str("create"),
            payload_json: payload,
            created_at: now.clone(),
            created_by: String::from_str("local"),
        };
        self.audit.push(entry);

        proof {
            broadcast use vstd::seq_lib::group_to_multiset_ensures;

            let post = *self;
            let nv = post.vouchers@.last();
            lemma_attachments_match_core(
                nv.attachments@,
                input.attachments@,
                ids.attachment_ids@,
                ids.voucher_id@,
                now@,
            );
            assert(post.vouchers@.drop_last() =~= pre.vouchers@);
            assert(post.vouchers@ =~= pre.vouchers@.push(nv));
            assert(post.audit@ =~= pre.audit@.push(post.audit@.last()));
            lemma_sums_of_matching(nv.rows@, input.rows@);
            // Uniqueness of identifiers is preserved: the new voucher's id
            // matched nothing that was already stored.
            assert forall|i: int, j: int|
                0 <= i < j < post.vouchers@.len() implies (#[trigger] post.vouchers@[i]).id@ != (
            #[trigger] post.vouchers@[j]).id@ by {
                if j < post.vouchers@.len() - 1 {
                    assert(post.vouchers@[i] == pre.vouchers@[i]);
                    assert(post.vouchers@[j] == pre.vouchers@[j]);
                }
            }
            // Every series still holds exactly the numbers 1 .. next_number.
            assert forall|t: int| 0 <= t < post.series@.len() implies {
                let s = #[trigger] post.series@[t];
                s.next_number >= 1 && numbers_in_series(post.vouchers@, s.id@).to_multiset()
                    == number_range(s.next_number as int).to_multiset()
            } by {
                let s = post.series@[t];
                lemma_numbers_push(pre.vouchers@, nv, s.id@);
                if t == k as int {
                    lemma_number_range_push(num as int);
                } else {
                    assert(s == pre.series@[t]);
                    assert(pre.series@[k as int].id@ != s.id@);
                }
            }
        }
        Result::Ok(ret)
    }
}

/// The error a posting returns, or `None` when it must succeed: the voucher
/// must exist, must still be a draft, and its date must not have been locked
/// since — the lock is evaluated at posting time, not at creation time.
pub open spec fn post_outcome_err(l: Ledger, vid: Seq<char>) -> Option<LedgerError> {
    let i = voucher_index(l.vouchers@, vid);
    if i < 0 {
        Option::Some(LedgerError::NotFound)
    } else if l.vouchers@[i].posted_at is Some {
        Option::Some(LedgerError::AlreadyPosted)
    } else if locked_in(l.locks@, l.vouchers@[i].company_id@, l.vouchers@[i].date@) {
        Option::Some(LedgerError::PeriodLocked)
    } else {
        Option::None
    }
}

impl Ledger {
    /// Point lookup of a voucher with its rows and attachments.
    pub fn get_voucher(&self, voucher_id: &String) -> (r: Result<Voucher, LedgerError>)
        ensures
            match r {
                Result::Err(e) => {
                    &&& e == LedgerError::NotFound
                    &&& voucher_index(self.vouchers@, voucher_id@) == -1
                },
                Result::Ok(v) => {
                    &&& voucher_index(self.vouchers@, voucher_id@) >= 0
                    &&& voucher_alike(
                        v,
                        self.vouchers@[voucher_index(self.vouchers@, voucher_id@)],
                    )
                },
            },
    {
        match self.find_voucher(voucher_id) {
            Option::None => Result::Err(LedgerError::NotFound),
            Option::Some(i) => Result::Ok(clone_voucher(&self.vouchers[i])),
        }
    }

    /// Locks an inclusive date range of a company, permanently: from here on
    /// no voucher dated inside it can be created or posted.
    pub fn lock_period(
        &mut self,
        input: &crate::model::LockPeriodInput,
        now: &String,
        lock_id: &String,
    ) -> (r: PeriodLock)
        requires
            old(self).wf(),
        ensures
            final(self).wf(),
            final(self).locks@ == old(self).locks@.push(final(self).locks@.last()),
            final(self).locks@.last().id@ == lock_id@,
            final(self).locks@.last().company_id@ == input.company_id@,
            final(self).locks@.last().period_start@ == input.period_start@,
            final(self).locks@.last().period_end@ == input.period_end@,
            final(self).locks@.last().locked_at@ == now@,
            final(self).locks@.last().locked_by@ == "local"@,
            final(self).companies@ == old(self).companies@,
            final(self).accounts@ == old(self).accounts@,
            final(self).series@ == old(self).series@,
            final(self).vouchers@ == old(self).vouchers@,
            final(self).audit@ == old(self).audit@,
            lock_alike(r, final(self).locks@.last()),
    {
        let lock = PeriodLock {
            id: lock_id.clone(),
            company_id: input.company_id.clone(),
            period_start: input.period_start.clone(),
            period_end: input.period_end.clone(),
            locked_at: now.clone(),
            locked_by: String::from_str("local"),
        };
        let ret = PeriodLock {
            id: lock_id.clone(),
            company_id: input.company_id.clone(),
            period_start: input.period_start.clone(),
            period_end: input.period_end.clone(),
            locked_at: now.clone(),
            locked_by: String::from_str("local"),
        };
        self.locks.push(lock);
        proof {
            assert(self.locks@.drop_last() =~= old(self).locks@);
            assert(self.locks@ =~= old(self).locks@.push(self.locks@.last()));
        }
        ret
    }

    /// Posts a voucher at an explicit timestamp: the one-way transition from
    /// draft to finalized. Only `posted_at` changes, so the voucher's data
    /// becomes immutable; there is no way back.
    pub fn post_voucher_at(&mut self, voucher_id: &String, now: &String) -> (r: Result<
        Voucher,
        LedgerError,
    >)
        requires
            old(self).wf(),
        ensures
            final(self).wf(),
            match r {
                Result::Err(e) => {
                    &&& *final(self) == *old(self)
                    &&& post_outcome_err(*old(self), voucher_id@) == Option::Some(e)
                },
                Result::Ok(ret) => {
                    let i = voucher_index(old(self).vouchers@, voucher_id@);
                    &&& post_outcome_err(*old(self), voucher_id@) == Option::<LedgerError>::None
                    &&& final(self).vouchers@ == old(self).vouchers@.update(
                        i,
                        Voucher { posted_at: Option::Some(*now), ..old(self).vouchers@[i] },
                    )
                    &&& final(self).companies@ == old(self).companies@
                    &&& final(self).accounts@ == old(self).accounts@
                    &&& final(self).series@ == old(self).series@
                    &&& final(self).locks@ == old(self).locks@
                    &&& final(self).audit@ == old(self).audit@
                    &&& voucher_alike(ret, final(self).vouchers@[i])
                },
            },
    {
        let k = match self.find_voucher(voucher_id) {
            Option::None => {
                return Result::Err(LedgerError::NotFound);
            },
            Option::Some(k) => k,
        };
        if self.vouchers[k].posted_at.is_some() {
            return Result::Err(LedgerError::AlreadyPosted);
        }
        let locked = self.is_period_locked(&self.vouchers[k].company_id, &self.vouchers[k].date);
        if locked {
            return Result::Err(LedgerError::PeriodLocked);
        }
        let ghost pre = *self;
        let mut v = self.vouchers.remove(k);
        v.posted_at = Option::Some(now.clone());
        let ghost v2 = v;
        self.vouchers.insert(k, v);
        proof {
            assert(self.vouchers@ =~= pre.vouchers@.update(k as int, v2));
            assert forall|t: int| 0 <= t < self.series@.len() implies {
                let s = #[trigger] self.series@[t];
                s.next_number >= 1 && numbers_in_series(self.vouchers@, s.id@).to_multiset()
                    == number_range(s.next_number as int).to_multiset()
            } by {
                lemma_numbers_update_same(pre.vouchers@, k as int, v2, self.series@[t].id@);
            }
        }
        Result::Ok(clone_voucher(&self.vouchers[k]))
    }
}

/// Two period locks carry the same data.
pub open spec fn lock_alike(a: PeriodLock, b: PeriodLock) -> bool {
    &&& a.id@ == b.id@
    &&& a.company_id@ == b.company_id@
    &&& a.period_start@ == b.period_start@
    &&& a.period_end@ == b.period_end@
    &&& a.locked_at@ == b.locked_at@
    &&& a.locked_by@ == b.locked_by@
}

/// The description a correction voucher carries: the caller's text followed
/// by a reference to the original's number.
pub open spec fn correction_description(desc: Seq<char>, num: int) -> Seq<char> {
    desc + " (Correction of "@ + crate::text::dec_int(num) + ")"@
}

/// A correction row is the exact debit/credit swap of the original row it
/// reverses, on the new voucher.
pub open spec fn corr_row_matches(row: VoucherRow, orig: VoucherRow, vid: Seq<char>) -> bool {
    &&& row.voucher_id@ == vid
    &&& row.account_id@ == orig.account_id@
    &&& opt_view(row.description) == opt_view(orig.description)
    &&& row.debit_cents == orig.credit_cents
    &&& row.credit_cents == orig.debit_cents
    &&& opt_view(row.vat_code) == opt_view(orig.vat_code)
}

/// The correction's rows swap the original's rows one for one, in order.
pub open spec fn corr_rows_match(rows: Seq<VoucherRow>, origs: Seq<VoucherRow>, vid: Seq<char>) -> bool {
    &&& rows.len() == origs.len()
    &&& forall|j: int| 0 <= j < origs.len() ==> corr_row_matches(#[trigger] rows[j], origs[j], vid)
}

/// The validation a correction runs before building anything: the original
/// must exist, and the correction's date must not fall inside a lock of the
/// original's company.
pub open spec fn correction_validation(l: Ledger, input: crate::model::CreateCorrectionInput) -> Option<LedgerError> {
    let i = voucher_index(l.vouchers@, input.original_voucher_id@);
    if i < 0 {
        Option::Some(LedgerError::NotFound)
    } else if locked_in(l.locks@, l.vouchers@[i].company_id@, input.date@) {
        Option::Some(LedgerError::PeriodLocked)
    } else {
        Option::None
    }
}

/// The exact error the delegated creation then returns, or `None` when the
/// correction must succeed. Assumes `correction_validation` passed.
pub open spec fn correction_create_err(
    l: Ledger,
    input: crate::model::CreateCorrectionInput,
    ids: NewVoucherIds,
) -> Option<LedgerError> {
    let orig = l.vouchers@[voucher_index(l.vouchers@, input.original_voucher_id@)];
    let k = series_index(l.series@, orig.series_id@);
    if orig.rows@.len() == 0 {
        Option::Some(LedgerError::EmptyVoucher)
    } else if row_sum_credits(orig.rows@) != row_sum_debits(orig.rows@) {
        Option::Some(LedgerError::Unbalanced)
    } else if k < 0 {
        Option::Some(LedgerError::NotFound)
    } else if l.series@[k].company_id@ != orig.company_id@ {
        Option::Some(LedgerError::SeriesMismatch)
    } else if voucher_index(l.vouchers@, ids.voucher_id@) >= 0 {
        Option::Some(LedgerError::Infrastructure)
    } else if l.series@[k].next_number == i64::MAX {
        Option::Some(LedgerError::Infrastructure)
    } else {
        Option::None
    }
}

/// As `correction_create_err`, for a caller that does not pick the fresh
/// identifiers: every cause except an identifier collision.
pub open spec fn correction_create_err_core(
    l: Ledger,
    input: crate::model::CreateCorrectionInput,
) -> Option<LedgerError> {
    let orig = l.vouchers@[voucher_index(l.vouchers@, input.original_voucher_id@)];
    let k = series_index(l.series@, orig.series_id@);
    if orig.rows@.len() == 0 {
        Option::Some(LedgerError::EmptyVoucher)
    } else if row_sum_credits(orig.rows@) != row_sum_debits(orig.rows@) {
        Option::Some(LedgerError::Unbalanced)
    } else if k < 0 {
        Option::Some(LedgerError::NotFound)
    } else if l.series@[k].company_id@ != orig.company_id@ {
        Option::Some(LedgerError::SeriesMismatch)
    } else if l.series@[k].next_number == i64::MAX {
        Option::Some(LedgerError::Infrastructure)
    } else {
        Option::None
    }
}

/// What a successful correction does: a brand-new voucher in the original's
/// company and series, carrying the next number of that series, dated as
/// requested, whose rows swap the original's debits and credits one for one;
/// the original itself — like every other stored voucher — is untouched.
pub open spec fn correction_success(
    pre: Ledger,
    post: Ledger,
    input: crate::model::CreateCorrectionInput,
    ret: Voucher,
) -> bool {
    let i = voucher_index(pre.vouchers@, input.original_voucher_id@);
    let orig = pre.vouchers@[i];
    let k = series_index(pre.series@, orig.series_id@);
    let num = pre.series@[k].next_number as int;
    let nv = post.vouchers@.last();
    let a = post.audit@.last();
    &&& post.companies@ == pre.companies@
    &&& post.accounts@ == pre.accounts@
    &&& post.locks@ == pre.locks@
    &&& post.series@ == pre.series@.update(
        k,
        VoucherSeries { next_number: (num + 1) as i64, ..pre.series@[k] },
    )
    &&& post.vouchers@ == pre.vouchers@.push(nv)
    &&& nv.company_id@ == orig.company_id@
    &&& nv.series_id@ == orig.series_id@
    &&& nv.voucher_number == num
    &&& nv.date@ == input.date@
    &&& nv.description@ == correction_description(input.description@, orig.voucher_number as int)
    &&& nv.counterparty is None
    &&& nv.created_by@ == "local"@
    &&& nv.posted_at is None
    &&& corr_rows_match(nv.rows@, orig.rows@, nv.id@)
    &&& nv.attachments@.len() == 0
    &&& post.audit@ == pre.audit@.push(a)
    &&& audit_create_core(a, orig.company_id@, nv.id@, num)
    &&& returned_voucher_matches(ret, nv)
}

/// Swapped requests sum crosswise: their debit total is the rows' credit
/// total and the other way round.
proof fn lemma_sums_of_swapped(ins: Seq<CreateVoucherRowInput>, rows: Seq<VoucherRow>)
    requires
        ins.len() == rows.len(),
        forall|j: int|
            0 <= j < rows.len() ==> (#[trigger] ins[j]).debit_cents == rows[j].credit_cents
                && ins[j].credit_cents == rows[j].debit_cents,
    ensures
        input_sum_debits(ins) == row_sum_credits(rows),
        input_sum_credits(ins) == row_sum_debits(rows),
    decreases ins.len(),
{
    if ins.len() > 0 {
        lemma_sums_of_swapped(ins.drop_last(), rows.drop_last());
    }
}

impl Ledger {
    /// Builds and commits the correction of an existing voucher at an
    /// explicit timestamp with explicit fresh identifiers: a new voucher in
    /// the original's company and series whose rows are the exact
    /// debit/credit swap of the original's, with the description rewritten
    /// to reference the original's number. The original is never mutated.
    pub fn create_correction_voucher_at(
        &mut self,
        input: &crate::model::CreateCorrectionInput,
        now: &String,
        ids: &NewVoucherIds,
    ) -> (r: Result<Voucher, LedgerError>)
        requires
            old(self).wf(),
            voucher_index(old(self).vouchers@, input.original_voucher_id@) >= 0
                ==> ids.row_ids@.len() == old(self).vouchers@[voucher_index(
                old(self).vouchers@,
                input.original_voucher_id@,
            )].rows@.len(),
            ids.attachment_ids@.len() == 0,
        ensures
            final(self).wf(),
            match r {
                Result::Err(e) => {
                    &&& *final(self) == *old(self)
                    &&& match correction_validation(*old(self), *input) {
                        Option::Some(v) => e == v,
                        Option::None => correction_create_err(*old(self), *input, *ids)
                            == Option::Some(e),
                    }
                },
                Result::Ok(ret) => {
                    &&& correction_validation(*old(self), *input) is None
                    &&& correction_create_err(*old(self), *input, *ids) is None
                    &&& correction_success(*old(self), *final(self), *input, ret)
                    &&& final(self).vouchers@.last().id@ == ids.voucher_id@
                    &&& final(self).vouchers@.last().created_at@ == now@
                    &&& final(self).audit@.last().id@ == ids.audit_id@
                },
            },
    {
        let k = match self.find_voucher(&input.original_voucher_id) {
            Option::None => {
                return Result::Err(LedgerError::NotFound);
            },
            Option::Some(k) => k,
        };
        let locked = self.is_period_locked(&self.vouchers[k].company_id, &input.date);
        if locked {
            return Result::Err(LedgerError::PeriodLocked);
        }

        let orig = &self.vouchers[k];
        let norig = orig.rows.len();
        let mut swapped: Vec<CreateVoucherRowInput> = Vec::new();
        let mut j: usize = 0;
        while j < norig
            invariant
                j <= norig == orig.rows@.len(),
                swapped@.len() == j,
                forall|t: int|
                    0 <= t < j ==> {
                        let x = #[trigger] swapped@[t];
                        &&& x.account_id@ == orig.rows@[t].account_id@
                        &&& opt_view(x.description) == opt_view(orig.rows@[t].description)
                        &&& x.debit_cents == orig.rows@[t].credit_cents
                        &&& x.credit_cents == orig.rows@[t].debit_cents
                        &&& opt_view(x.vat_code) == opt_view(orig.rows@[t].vat_code)
                    },
            decreases norig - j,
        {
            let x = &orig.rows[j];
            swapped.push(
                CreateVoucherRowInput {
                    account_id: x.account_id.clone(),
                    description: crate::model::opt_clone(&x.description),
                    debit_cents: x.credit_cents,
                    credit_cents: x.debit_cents,
                    vat_code: crate::model::opt_clone(&x.vat_code),
                },
            );
            j = j + 1;
        }

        let mut description = input.description.clone();
        description.append(" (Correction of ");
        let num_text = crate::text::i64_to_string(orig.voucher_number);
        description.append(num_text.as_str());
        description.append(")");

        let ci = CreateVoucherInput {
            company_id: orig.company_id.clone(),
            series_id: orig.series_id.clone(),
            date: input.date.clone(),
            description,
            counterparty: Option::None,
            rows: swapped,
            attachments: Vec::new(),
        };
        proof {
            lemma_sums_of_swapped(ci.rows@, old(self).vouchers@[k as int].rows@);
        }
        let r = self.create_voucher_at(&ci, now, ids);
        proof {
            let pre = *old(self);
            let origg = pre.vouchers@[k as int];
            if r is Ok {
                let post = *self;
                let nv = post.vouchers@.last();
                assert(rows_match_core(nv.rows@, ci.rows@, nv.id@));
                assert forall|t: int| 0 <= t < origg.rows@.len() implies corr_row_matches(
                    #[trigger] nv.rows@[t],
                    origg.rows@[t],
                    nv.id@,
                ) by {
                    assert(row_matches_core(nv.rows@[t], ci.rows@[t], nv.id@));
                }
            }
        }
        r
    }

    /// As `create_correction_voucher_at`, drawing the timestamp from the
    /// system clock and the fresh identifiers from the random identifier
    /// source.
    pub fn create_correction_voucher(&mut self, input: &crate::model::CreateCorrectionInput) -> (r:
        Result<Voucher, LedgerError>)
        requires
            old(self).wf(),
        ensures
            final(self).wf(),
            match r {
                Result::Err(e) => {
                    &&& *final(self) == *old(self)
                    &&& match correction_validation(*old(self), *input) {
                        Option::Some(v) => e == v,
                        Option::None => match correction_create_err_core(*old(self), *input) {
                            Option::Some(v) => e == v,
                            Option::None => e == LedgerError::Infrastructure,
                        },
                    }
                },
                Result::Ok(ret) => {
                    &&& correction_validation(*old(self), *input) is None
                    &&& correction_success(*old(self), *final(self), *input, ret)
                },
            },
    {
        let now = current_time_rfc3339();
        let nrows = match self.find_voucher(&input.original_voucher_id) {
            Option::None => 0,
            Option::Some(k) => self.vouchers[k].rows.len(),
        };
        let mut row_ids: Vec<String> = Vec::new();
        while row_ids.len() < nrows
            invariant
                row_ids@.len() <= nrows,
            decreases nrows - row_ids@.len(),
        {
            row_ids.push(random_id());
        }
        let ids = NewVoucherIds {
            voucher_id: random_id(),
            row_ids,
            attachment_ids: Vec::new(),
            audit_id: random_id(),
        };
        self.create_correction_voucher_at(input, &now, &ids)
    }
}

/// A series nobody references holds no numbers.
proof fn lemma_numbers_none(vs: Seq<Voucher>, sid: Seq<char>)
    requires
        forall|j: int| 0 <= j < vs.len() ==> (#[trigger] vs[j]).series_id@ != sid,
    ensures
        numbers_in_series(vs, sid) == Seq::<int>::empty(),
    decreases vs.len(),
{
    if vs.len() > 0 {
        lemma_numbers_none(vs.drop_last(), sid);
    }
}

/// Two companies carry the same data.
pub open spec fn company_alike(a: Company, b: Company) -> bool {
    &&& a.id@ == b.id@
    &&& a.name@ == b.name@
    &&& opt_view(a.org_number) == opt_view(b.org_number)
    &&& a.fiscal_year_start@ == b.fiscal_year_start@
    &&& a.fiscal_year_end@ == b.fiscal_year_end@
    &&& a.created_at@ == b.created_at@
}

/// Two accounts carry the same data.
pub open spec fn account_alike(a: Account, b: Account) -> bool {
    &&& a.id@ == b.id@
    &&& a.company_id@ == b.company_id@
    &&& a.number == b.number
    &&& a.name@ == b.name@
    &&& a.account_type@ == b.account_type@
    &&& opt_view(a.vat_code) == opt_view(b.vat_code)
    &&& a.is_active == b.is_active
    &&& a.created_at@ == b.created_at@
}

impl Ledger {
    /// Finds the account with the given id.
    fn find_account(&self, id: &String) -> (r: Option<usize>)
        ensures
            match r {
                Option::Some(i) => {
                    &&& account_index(self.accounts@, id@) == i
                    &&& i < self.accounts@.len()
                    &&& self.accounts@[i as int].id@ == id@
                },
                Option::None => {
                    &&& account_index(self.accounts@, id@) == -1
                    &&& forall|j: int|
                        0 <= j < self.accounts@.len() ==> (#[trigger] self.accounts@[j]).id@ != id@
                },
            },
    {
        let n = self.accounts.len();
        let mut i: usize = 0;
        while i < n
            invariant
                i <= n == self.accounts@.len(),
                forall|j: int| 0 <= j < i ==> (#[trigger] self.accounts@[j]).id@ != id@,
            decreases n - i,
        {
            if self.accounts[i].id == *id {
                proof {
                    lemma_first_index_is(self.accounts@, |a: Account| a.id@ == id@, i as int);
                }
                return Option::Some(i);
            }
            i = i + 1;
        }
        proof {
            lemma_first_index_none(self.accounts@, |a: Account| a.id@ == id@);
        }
        Option::None
    }

    /// True iff some committed voucher belongs to the series with this id.
    fn series_referenced(&self, sid: &String) -> (r: bool)
        ensures
            r == exists|j: int|
                0 <= j < self.vouchers@.len() && (#[trigger] self.vouchers@[j]).series_id@ == sid@,
    {
        let n = self.vouchers.len();
        let mut i: usize = 0;
        while i < n
            invariant
                i <= n == self.vouchers@.len(),
                forall|j: int| 0 <= j < i ==> (#[trigger] self.vouchers@[j]).series_id@ != sid@,
            decreases n - i,
        {
            if self.vouchers[i].series_id == *sid {
                return true;
            }
            i = i + 1;
        }
        false
    }

    /// Finds the company with the given id.
    fn find_company(&self, id: &String) -> (r: Option<usize>)
        ensures
            match r {
                Option::Some(i) => {
                    &&& company_index(self.companies@, id@) == i
                    &&& i < self.companies@.len()
                    &&& self.companies@[i as int].id@ == id@
                },
                Option::None => {
                    &&& company_index(self.companies@, id@) == -1
                    &&& forall|j: int|
                        0 <= j < self.companies@.len() ==> (#[trigger] self.companies@[j]).id@
                            != id@
                },
            },
    {
        let n = self.companies.len();
        let mut i: usize = 0;
        while i < n
            invariant
                i <= n == self.companies@.len(),
                forall|j: int| 0 <= j < i ==> (#[trigger] self.companies@[j]).id@ != id@,
            decreases n - i,
        {
            if self.companies[i].id == *id {
                proof {
                    lemma_first_index_is(self.companies@, |c: Company| c.id@ == id@, i as int);
                }
                return Option::Some(i);
            }
            i = i + 1;
        }
        proof {
            lemma_first_index_none(self.companies@, |c: Company| c.id@ == id@);
        }
        Option::None
    }

    /// Creates a company at an explicit timestamp with explicit fresh
    /// identifiers, together with its main voucher series "A" whose counter
    /// starts at 1. Fails only when an identifier is already taken.
    pub fn create_company_at(
        &mut self,
        input: &crate::model::CreateCompanyInput,
        now: &String,
        company_id: &String,
        series_id: &String,
    ) -> (r: Result<Company, LedgerError>)
        requires
            old(self).wf(),
        ensures
            final(self).wf(),
            match r {
                Result::Err(e) => {
                    &&& *final(self) == *old(self)
                    &&& e == LedgerError::Infrastructure
                    &&& (company_index(old(self).companies@, company_id@) >= 0 || series_index(
                        old(self).series@,
                        series_id@,
                    ) >= 0 || exists|j: int|
                        0 <= j < old(self).vouchers@.len() && (
                        #[trigger] old(self).vouchers@[j]).series_id@ == series_id@)
                },
                Result::Ok(ret) => {
                    &&& company_index(old(self).companies@, company_id@) == -1
                    &&& series_index(old(self).series@, series_id@) == -1
                    &&& final(self).companies@ == old(self).companies@.push(
                        final(self).companies@.last(),
                    )
                    &&& final(self).companies@.last().id@ == company_id@
                    &&& final(self).companies@.last().name@ == input.name@
                    &&& opt_view(final(self).companies@.last().org_number) == opt_view(
                        input.org_number,
                    )
                    &&& final(self).companies@.last().fiscal_year_start@ == "2024-01-01"@
                    &&& final(self).companies@.last().fiscal_year_end@ == "2024-12-31"@
                    &&& final(self).companies@.last().created_at@ == now@
                    &&& final(self).series@ == old(self).series@.push(final(self).series@.last())
                    &&& final(self).series@.last().id@ == series_id@
                    &&& final(self).series@.last().company_id@ == company_id@
                    &&& final(self).series@.last().code@ == "A"@
                    &&& final(self).series@.last().description@ == "Main series"@
                    &&& final(self).series@.last().next_number == 1
                    &&& final(self).accounts@ == old(self).accounts@
                    &&& final(self).vouchers@ == old(self).vouchers@
                    &&& final(self).locks@ == old(self).locks@
                    &&& final(self).audit@ == old(self).audit@
                    &&& company_alike(ret, final(self).companies@.last())
                },
            },
    {
        if self.find_company(company_id).is_some() {
            return Result::Err(LedgerError::Infrastructure);
        }
        if self.find_series(series_id).is_some() {
            return Result::Err(LedgerError::Infrastructure);
        }
        if self.series_referenced(series_id) {
            return Result::Err(LedgerError::Infrastructure);
        }
        let company = Company {
            id: company_id.clone(),
            name: input.name.clone(),
            org_number: crate::model::opt_clone(&input.org_number),
            fiscal_year_start: String::from_str("2024-01-01"),
            fiscal_year_end: String::from_str("2024-12-31"),
            created_at: now.clone(),
        };
        let ret = Company {
            id: company_id.clone(),
            name: input.name.clone(),
            org_number: crate::model::opt_clone(&input.org_number),
            fiscal_year_start: String::from_str("2024-01-01"),
            fiscal_year_end: String::from_str("2024-12-31"),
            created_at: now.clone(),
        };
        let series = VoucherSeries {
            id: series_id.clone(),
            company_id: company_id.clone(),
            code: String::from_str("A"),
            description: String::from_str("Main series"),
            next_number: 1,
        };
        let ghost pre = *self;
        self.companies.push(company);
        self.series.push(series);
        proof {
            broadcast use vstd::seq_lib::group_to_multiset_ensures;

            assert(self.companies@.drop_last() =~= pre.companies@);
            assert(self.companies@ =~= pre.companies@.push(self.companies@.last()));
            assert(self.series@.drop_last() =~= pre.series@);
            assert(self.series@ =~= pre.series@.push(self.series@.last()));
            assert forall|i: int, j: int|
                0 <= i < j < self.companies@.len() implies (#[trigger] self.companies@[i]).id@ != (
            #[trigger] self.companies@[j]).id@ by {
                if j < self.companies@.len() - 1 {
                    assert(self.companies@[i] == pre.companies@[i]);
                    assert(self.companies@[j] == pre.companies@[j]);
                } else {
                    assert(self.companies@[i] == pre.companies@[i]);
                    assert(self.companies@[j].id@ == company_id@);
                }
            }
            assert forall|t: int| 0 <= t < self.series@.len() implies {
                let s = #[trigger] self.series@[t];
                s.next_number >= 1 && numbers_in_series(self.vouchers@, s.id@).to_multiset()
                    == number_range(s.next_number as int).to_multiset()
            } by {
                if t == self.series@.len() - 1 {
                    lemma_numbers_none(self.vouchers@, series_id@);
                    assert(number_range(1) =~= Seq::<int>::empty());
                } else {
                    assert(self.series@[t] == pre.series@[t]);
                }
            }
        }
        Result::Ok(ret)
    }

    /// Creates or replaces an account, keyed on its id. A replacement keeps
    /// the stored owner and creation time and overwrites the rest; an insert
    /// stores the input as given. The returned account always mirrors the
    /// input (with the creation time of this call), as the caller submitted
    /// it — even when the stored row kept its original owner and creation
    /// time. No usage check guards a type change or a deactivation.
    pub fn upsert_account_at(
        &mut self,
        input: &crate::model::UpsertAccountInput,
        now: &String,
        fresh_id: &String,
    ) -> (ret: Account)
        requires
            old(self).wf(),
        ensures
            final(self).wf(),
            final(self).companies@ == old(self).companies@,
            final(self).series@ == old(self).series@,
            final(self).vouchers@ == old(self).vouchers@,
            final(self).locks@ == old(self).locks@,
            final(self).audit@ == old(self).audit@,
            ({
                let id_v = match input.id {
                    Option::Some(s) => s@,
                    Option::None => fresh_id@,
                };
                let i = account_index(old(self).accounts@, id_v);
                &&& (i >= 0 ==> final(self).accounts@ == old(self).accounts@.update(
                    i,
                    Account {
                        number: input.number,
                        name: input.name,
                        account_type: input.account_type,
                        vat_code: input.vat_code,
                        is_active: input.is_active,
                        ..old(self).accounts@[i]
                    },
                ))
                &&& (i < 0 ==> {
                    &&& final(self).accounts@ == old(self).accounts@.push(
                        final(self).accounts@.last(),
                    )
                    &&& account_alike(
                        final(self).accounts@.last(),
                        Account {
                            id: ret.id,
                            company_id: input.company_id,
                            number: input.number,
                            name: input.name,
                            account_type: input.account_type,
                            vat_code: input.vat_code,
                            is_active: input.is_active,
                            created_at: *now,
                        },
                    )
                })
                &&& ret.id@ == id_v
                &&& ret.company_id@ == input.company_id@
                &&& ret.number == input.number
                &&& ret.name@ == input.name@
                &&& ret.account_type@ == input.account_type@
                &&& opt_view(ret.vat_code) == opt_view(input.vat_code)
                &&& ret.is_active == input.is_active
                &&& ret.created_at@ == now@
            }),
    {
        let account_id: String = match &input.id {
            Option::Some(s) => s.clone(),
            Option::None => fresh_id.clone(),
        };
        let ret = Account {
            id: account_id.clone(),
            company_id: input.company_id.clone(),
            number: input.number,
            name: input.name.clone(),
            account_type: input.account_type.clone(),
            vat_code: crate::model::opt_clone(&input.vat_code),
            is_active: input.is_active,
            created_at: now.clone(),
        };
        let ghost pre = *self;
        match self.find_account(&account_id) {
            Option::Some(i) => {
                let mut a = self.accounts.remove(i);
                a.number = input.number;
                a.name = input.name.clone();
                a.account_type = input.account_type.clone();
                a.vat_code = crate::model::opt_clone(&input.vat_code);
                a.is_active = input.is_active;
                let ghost a2 = a;
                self.accounts.insert(i, a);
                proof {
                    assert(self.accounts@ =~= pre.accounts@.update(i as int, a2));
                }
            },
            Option::None => {
                let a = Account {
                    id: account_id,
                    company_id: input.company_id.clone(),
                    number: input.number,
                    name: input.name.clone(),
                    account_type: input.account_type.clone(),
                    vat_code: crate::model::opt_clone(&input.vat_code),
                    is_active: input.is_active,
                    created_at: now.clone(),
                };
                self.accounts.push(a);
                proof {
                    assert(self.accounts@.drop_last() =~= pre.accounts@);
                    assert(self.accounts@ =~= pre.accounts@.push(self.accounts@.last()));
                }
            },
        }
        ret
    }
}

/// The account number of the j-th seed account.
pub open spec fn seed_number(j: int) -> int {
    if j == 0 {
        1930
    } else if j == 1 {
        3010
    } else if j == 2 {
        4010
    } else if j == 3 {
        2641
    } else {
        2611
    }
}

/// The display name of the j-th seed account.
pub open spec fn seed_name(j: int) -> Seq<char> {
    if j == 0 {
        "Bankkonto"@
    } else if j == 1 {
        "Försäljning"@
    } else if j == 2 {
        "Varuinköp"@
    } else if j == 3 {
        "Ingående moms"@
    } else {
        "Utgående moms"@
    }
}

/// The type of the j-th seed account.
pub open spec fn seed_type(j: int) -> Seq<char> {
    if j == 0 {
        "Asset"@
    } else if j == 1 {
        "Income"@
    } else if j == 2 {
        "Expense"@
    } else if j == 3 {
        "Asset"@
    } else {
        "Liability"@
    }
}

/// A collision that would stop the demo seed: the series identifier is in
/// use or referenced, or an account identifier is taken or repeated.
pub open spec fn seed_collision(l: Ledger, ids: crate::model::SeedIds) -> bool {
    ||| series_index(l.series@, ids.series_id@) >= 0
    ||| exists|j: int|
        0 <= j < l.vouchers@.len() && (#[trigger] l.vouchers@[j]).series_id@ == ids.series_id@
    ||| exists|j: int|
        0 <= j < 5 && account_index(l.accounts@, (#[trigger] ids.account_ids@[j])@) >= 0
    ||| exists|j: int, t: int|
        0 <= j < t < 5 && (#[trigger] ids.account_ids@[j])@ == (#[trigger] ids.account_ids@[t])@
}

/// What the demo seed commits when it runs: one company, its main series
/// with the counter at 1, five standard accounts, one seed audit entry, and
/// nothing else.
pub open spec fn seed_applied(pre: Ledger, post: Ledger, ids: crate::model::SeedIds, now: Seq<char>) -> bool {
    &&& pre.companies@.len() == 0
    &&& !seed_collision(pre, ids)
    &&& post.companies@ == pre.companies@.push(post.companies@.last())
    &&& post.companies@.last().id@ == ids.company_id@
    &&& post.companies@.last().name@ == "Demo AB"@
    &&& post.companies@.last().org_number is None
    &&& post.companies@.last().fiscal_year_start@ == "2024-01-01"@
    &&& post.companies@.last().fiscal_year_end@ == "2024-12-31"@
    &&& post.companies@.last().created_at@ == now
    &&& post.series@ == pre.series@.push(post.series@.last())
    &&& post.series@.last().id@ == ids.series_id@
    &&& post.series@.last().company_id@ == ids.company_id@
    &&& post.series@.last().code@ == "A"@
    &&& post.series@.last().description@ == "Main series"@
    &&& post.series@.last().next_number == 1
    &&& post.accounts@.len() == pre.accounts@.len() + 5
    &&& (forall|t: int|
        0 <= t < pre.accounts@.len() ==> #[trigger] post.accounts@[t] == pre.accounts@[t])
    &&& (forall|j: int|
        0 <= j < 5 ==> {
            let a = #[trigger] post.accounts@[pre.accounts@.len() + j];
            &&& a.id@ == ids.account_ids@[j]@
            &&& a.company_id@ == ids.company_id@
            &&& a.number == seed_number(j)
            &&& a.name@ == seed_name(j)
            &&& a.account_type@ == seed_type(j)
            &&& a.vat_code is None
            &&& a.is_active == true
            &&& a.created_at@ == now
        })
    &&& post.vouchers@ == pre.vouchers@
    &&& post.locks@ == pre.locks@
    &&& post.audit@ == pre.audit@.push(post.audit@.last())
    &&& post.audit@.last().id@ == ids.audit_id@
    &&& post.audit@.last().company_id@ == ids.company_id@
    &&& post.audit@.last().entity_type@ == "company"@
    &&& post.audit@.last().entity_id@ == ids.company_id@
    &&& post.audit@.last().action@ == "seed"@
    &&& post.audit@.last().payload_json@ == "{}"@
    &&& post.audit@.last().created_at@ == now
    &&& post.audit@.last().created_by@ == "local"@
}

impl Ledger {
    /// Ensures a demo company exists: when the ledger holds no company at
    /// all, seeds one with its main series "A", five standard accounts and a
    /// seed audit entry, atomically; otherwise does nothing. Returns whether
    /// it seeded.
    #[verifier::loop_isolation(false)]
    pub fn seed_if_needed(&mut self, now: &String, ids: &crate::model::SeedIds) -> (r: Result<
        bool,
        LedgerError,
    >)
        requires
            old(self).wf(),
            ids.account_ids@.len() == 5,
        ensures
            final(self).wf(),
            match r {
                Result::Err(e) => {
                    &&& *final(self) == *old(self)
                    &&& old(self).companies@.len() == 0
                    &&& e == LedgerError::Infrastructure
                    &&& seed_collision(*old(self), *ids)
                },
                Result::Ok(seeded) => {
                    &&& (!seeded ==> *final(self) == *old(self) && old(self).companies@.len() > 0)
                    &&& (seeded ==> seed_applied(*old(self), *final(self), *ids, now@))
                },
            },
    {
        if self.companies.len() > 0 {
            return Result::Ok(false);
        }
        let ghost init = *self;
        // All-or-nothing: every identifier is checked before anything is
        // inserted, so a collision leaves the state untouched.
        if self.find_series(&ids.series_id).is_some() {
            return Result::Err(LedgerError::Infrastructure);
        }
        if self.series_referenced(&ids.series_id) {
            return Result::Err(LedgerError::Infrastructure);
        }
        let mut j: usize = 0;
        while j < 5
            invariant
                *self == init,
                init == *old(self),
                j <= 5,
                ids.account_ids@.len() == 5,
                forall|t: int|
                    0 <= t < j ==> account_index(self.accounts@, (#[trigger] ids.account_ids@[t])@)
                        == -1,
            decreases 5 - j,
        {
            if self.find_account(&ids.account_ids[j]).is_some() {
                proof {
                    assert(account_index(old(self).accounts@, ids.account_ids@[j as int]@) >= 0);
                    assert(seed_collision(*old(self), *ids));
                }
                return Result::Err(LedgerError::Infrastructure);
            }
            j = j + 1;
        }
        let mut j: usize = 0;
        while j < 5
            invariant
                *self == init,
                init == *old(self),
                j <= 5,
                ids.account_ids@.len() == 5,
                forall|a: int, b: int|
                    0 <= a < b < 5 && a < j ==> (#[trigger] ids.account_ids@[a])@ != (
                    #[trigger] ids.account_ids@[b])@,
            decreases 5 - j,
        {
            let mut t: usize = j + 1;
            while t < 5
                invariant
                    *self == init,
                    init == *old(self),
                    j < t <= 5,
                    ids.account_ids@.len() == 5,
                    forall|b: int|
                        j < b < t ==> (#[trigger] ids.account_ids@[b])@ != ids.account_ids@[
                            j as int]@,
                decreases 5 - t,
            {
                if ids.account_ids[j] == ids.account_ids[t] {
                    proof {
                        assert(ids.account_ids@[j as int]@ == ids.account_ids@[t as int]@);
                        assert(seed_collision(*old(self), *ids));
                    }
                    return Result::Err(LedgerError::Infrastructure);
                }
                t = t + 1;
            }
            j = j + 1;
        }

        let ghost pre = *self;
        self.companies.push(
            Company {
                id: ids.company_id.clone(),
                name: String::from_str("Demo AB"),
                org_number: Option::None,
                fiscal_year_start: String::from_str("2024-01-01"),
                fiscal_year_end: String::from_str("2024-12-31"),
                created_at: now.clone(),
            },
        );
        self.series.push(
            VoucherSeries {
                id: ids.series_id.clone(),
                company_id: ids.company_id.clone(),
                code: String::from_str("A"),
                description: String::from_str("Main series"),
                next_number: 1,
            },
        );
        proof {
            assert(self.companies@.drop_last() =~= pre.companies@);
            assert(self.companies@ =~= pre.companies@.push(self.companies@.last()));
            assert(self.series@.drop_last() =~= pre.series@);
            assert(self.series@ =~= pre.series@.push(self.series@.last()));
        }
        let ghost mid = *self;
        let mut j: usize = 0;
        while j < 5
            invariant
                j <= 5,
                ids.account_ids@.len() == 5,
                self.accounts@.len() == pre.accounts@.len() + j,
                forall|t: int|
                    0 <= t < pre.accounts@.len() ==> #[trigger] self.accounts@[t]
                        == pre.accounts@[t],
                forall|t: int|
                    0 <= t < j ==> {
                        let a = #[trigger] self.accounts@[pre.accounts@.len() + t];
                        &&& a.id@ == ids.account_ids@[t]@
                        &&& a.company_id@ == ids.company_id@
                        &&& a.number == seed_number(t)
                        &&& a.name@ == seed_name(t)
                        &&& a.account_type@ == seed_type(t)
                        &&& a.vat_code is None
                        &&& a.is_active == true
                        &&& a.created_at@ == now@
                    },
                self.companies@ == mid.companies@,
                self.series@ == mid.series@,
                self.vouchers@ == mid.vouchers@,
                self.locks@ == mid.locks@,
                self.audit@ == mid.audit@,
            decreases 5 - j,
        {
            let number: i64 = if j == 0 {
                1930
            } else if j == 1 {
                3010
            } else if j == 2 {
                4010
            } else if j == 3 {
                2641
            } else {
                2611
            };
            let name: String = if j == 0 {
                String::from_str("Bankkonto")
            } else if j == 1 {
                String::from_str("Försäljning")
            } else if j == 2 {
                String::from_str("Varuinköp")
            } else if j == 3 {
                String::from_str("Ingående moms")
            } else {
                String::from_str("Utgående moms")
            };
            let account_type: String = if j == 0 {
                String::from_str("Asset")
            } else if j == 1 {
                String::from_str("Income")
            } else if j == 2 {
                String::from_str("Expense")
            } else if j == 3 {
                String::from_str("Asset")
            } else {
                String::from_str("Liability")
            };
            self.accounts.push(
                Account {
                    id: ids.account_ids[j].clone(),
                    company_id: ids.company_id.clone(),
                    number,
                    name,
                    account_type,
                    vat_code: Option::None,
                    is_active: true,
                    created_at: now.clone(),
                },
            );
            j = j + 1;
        }
        self.audit.push(
            AuditEntry {
                id: ids.audit_id.clone(),
                company_id: ids.company_id.clone(),
                entity_type: String::from_str("company"),
                entity_id: ids.company_id.clone(),
                action: String::from_str("seed"),
                payload_json: String::from_str("{}"),
                created_at: now.clone(),
                created_by: String::from_str("local"),
            },
        );
        proof {
            broadcast use vstd::seq_lib::group_to_multiset_ensures;

            assert(self.audit@.drop_last() =~= pre.audit@);
            assert(self.audit@ =~= pre.audit@.push(self.audit@.last()));
            assert forall|a: int, b: int|
                0 <= a < b < self.accounts@.len() implies (#[trigger] self.accounts@[a]).id@ != (
            #[trigger] self.accounts@[b]).id@ by {
                let n0 = pre.accounts@.len() as int;
                if b >= n0 {
                    assert(self.accounts@[n0 + (b - n0)].id@ == ids.account_ids@[b - n0]@);
                    lemma_first_index(
                        pre.accounts@,
                        |x: Account| x.id@ == ids.account_ids@[b - n0]@,
                    );
                    if a >= n0 {
                        assert(self.accounts@[n0 + (a - n0)].id@ == ids.account_ids@[a - n0]@);
                        assert(ids.account_ids@[a - n0]@ != ids.account_ids@[b - n0]@);
                    } else {
                        assert(self.accounts@[a] == pre.accounts@[a]);
                        assert(account_index(pre.accounts@, ids.account_ids@[b - n0]@) == -1);
                        assert(pre.accounts@[a].id@ != ids.account_ids@[b - n0]@);
                    }
                } else {
                    assert(self.accounts@[a] == pre.accounts@[a]);
                    assert(self.accounts@[b] == pre.accounts@[b]);
                }
            }
            assert forall|t: int| 0 <= t < self.series@.len() implies {
                let s = #[trigger] self.series@[t];
                s.next_number >= 1 && numbers_in_series(self.vouchers@, s.id@).to_multiset()
                    == number_range(s.next_number as int).to_multiset()
            } by {
                assert(self.vouchers@ == pre.vouchers@);
                if t == self.series@.len() - 1 {
                    assert(self.series@[t] == self.series@.last());
                    assert(self.series@[t].id@ == ids.series_id@);
                    assert(forall|v: int|
                        0 <= v < pre.vouchers@.len() ==> (#[trigger] pre.vouchers@[v]).series_id@
                            != ids.series_id@);
                    lemma_numbers_none(self.vouchers@, ids.series_id@);
                    assert(numbers_in_series(self.vouchers@, self.series@[t].id@)
                        == Seq::<int>::empty());
                    assert(number_range(1) =~= Seq::<int>::empty());
                } else {
                    assert(self.series@[t] == pre.series@[t]);
                    assert(pre.wf());
                    assert(numbers_in_series(pre.vouchers@, pre.series@[t].id@).to_multiset()
                        == number_range(pre.series@[t].next_number as int).to_multiset());
                }
            }
        }
        Result::Ok(true)
    }
}

impl Ledger {
    /// As `lock_period` with an explicit timestamp and identifier, drawing
    /// both from the system clock and the random identifier source.
    pub fn lock_period_now(&mut self, input: &crate::model::LockPeriodInput) -> (r: PeriodLock)
        requires
            old(self).wf(),
        ensures
            final(self).wf(),
            final(self).locks@ == old(self).locks@.push(final(self).locks@.last()),
            final(self).locks@.last().company_id@ == input.company_id@,
            final(self).locks@.last().period_start@ == input.period_start@,
            final(self).locks@.last().period_end@ == input.period_end@,
            final(self).locks@.last().locked_by@ == "local"@,
            final(self).companies@ == old(self).companies@,
            final(self).accounts@ == old(self).accounts@,
            final(self).series@ == old(self).series@,
            final(self).vouchers@ == old(self).vouchers@,
            final(self).audit@ == old(self).audit@,
            lock_alike(r, final(self).locks@.last()),
    {
        let now = current_time_rfc3339();
        let id = random_id();
        self.lock_period(input, &now, &id)
    }

    /// As `create_company_at`, drawing the timestamp from the system clock
    /// and the fresh identifiers from the random identifier source.
    pub fn create_company(&mut self, input: &crate::model::CreateCompanyInput) -> (r: Result<
        Company,
        LedgerError,
    >)
        requires
            old(self).wf(),
        ensures
            final(self).wf(),
            match r {
                Result::Err(e) => {
                    &&& *final(self) == *old(self)
                    &&& e == LedgerError::Infrastructure
                },
                Result::Ok(ret) => {
                    &&& final(self).companies@ == old(self).companies@.push(
                        final(self).companies@.last(),
                    )
                    &&& final(self).companies@.last().name@ == input.name@
                    &&& opt_view(final(self).companies@.last().org_number) == opt_view(
                        input.org_number,
                    )
                    &&& final(self).companies@.last().fiscal_year_start@ == "2024-01-01"@
                    &&& final(self).companies@.last().fiscal_year_end@ == "2024-12-31"@
                    &&& final(self).series@ == old(self).series@.push(final(self).series@.last())
                    &&& final(self).series@.last().company_id@
                        == final(self).companies@.last().id@
                    &&& final(self).series@.last().code@ == "A"@
                    &&& final(self).series@.last().next_number == 1
                    &&& final(self).accounts@ == old(self).accounts@
                    &&& final(self).vouchers@ == old(self).vouchers@
                    &&& final(self).locks@ == old(self).locks@
                    &&& final(self).audit@ == old(self).audit@
                    &&& company_alike(ret, final(self).companies@.last())
                },
            },
    {
        let now = current_time_rfc3339();
        let company_id = random_id();
        let series_id = random_id();
        self.create_company_at(input, &now, &company_id, &series_id)
    }

    /// As `upsert_account_at`, drawing the timestamp and — when the input
    /// names no id — the fresh identifier from the outside sources. When the
    /// input names an id, the exact replace-or-insert contract holds; with a
    /// generated id, which stored account the call hits depends on the drawn
    /// value, so only the frame and the returned value are pinned.
    pub fn upsert_account(&mut self, input: &crate::model::UpsertAccountInput) -> (ret: Account)
        requires
            old(self).wf(),
        ensures
            final(self).wf(),
            final(self).companies@ == old(self).companies@,
            final(self).series@ == old(self).series@,
            final(self).vouchers@ == old(self).vouchers@,
            final(self).locks@ == old(self).locks@,
            final(self).audit@ == old(self).audit@,
            ret.company_id@ == input.company_id@,
            ret.number == input.number,
            ret.name@ == input.name@,
            ret.account_type@ == input.account_type@,
            opt_view(ret.vat_code) == opt_view(input.vat_code),
            ret.is_active == input.is_active,
            input.id is Some ==> ret.id@ == input.id->Some_0@,
            ({
                let i = account_index(old(self).accounts@, ret.id@);
                &&& (i >= 0 ==> final(self).accounts@ == old(self).accounts@.update(
                    i,
                    Account {
                        number: input.number,
                        name: input.name,
                        account_type: input.account_type,
                        vat_code: input.vat_code,
                        is_active: input.is_active,
                        ..old(self).accounts@[i]
                    },
                ))
                &&& (i < 0 ==> final(self).accounts@ == old(self).accounts@.push(
                    final(self).accounts@.last(),
                ) && account_alike(
                    final(self).accounts@.last(),
                    Account {
                        id: ret.id,
                        company_id: input.company_id,
                        number: input.number,
                        name: input.name,
                        account_type: input.account_type,
                        vat_code: input.vat_code,
                        is_active: input.is_active,
                        created_at: ret.created_at,
                    },
                ))
            }),
    {
        let now = current_time_rfc3339();
        let fresh = random_id();
        self.upsert_account_at(input, &now, &fresh)
    }

    /// As `seed_if_needed` with explicit identifiers, drawing the timestamp
    /// and the identifiers from the outside sources.
    pub fn seed(&mut self) -> (r: Result<bool, LedgerError>)
        requires
            old(self).wf(),
        ensures
            final(self).wf(),
            match r {
                Result::Err(e) => {
                    &&& *final(self) == *old(self)
                    &&& old(self).companies@.len() == 0
                    &&& e == LedgerError::Infrastructure
                },
                Result::Ok(seeded) => {
                    &&& (!seeded ==> *final(self) == *old(self) && old(self).companies@.len() > 0)
                    &&& (seeded ==> exists|ids: crate::model::SeedIds, ts: Seq<char>|
                        seed_applied(*old(self), *final(self), ids, ts))
                },
            },
    {
        let now = current_time_rfc3339();
        let mut account_ids: Vec<String> = Vec::new();
        while account_ids.len() < 5
            invariant
                account_ids@.len() <= 5,
            decreases 5 - account_ids@.len(),
        {
            account_ids.push(random_id());
        }
        let ids = crate::model::SeedIds {
            company_id: random_id(),
            series_id: random_id(),
            account_ids,
            audit_id: random_id(),
        };
        let r = self.seed_if_needed(&now, &ids);
        proof {
            if r is Ok && r->Ok_0 == true {
                assert(seed_applied(*old(self), *self, ids, now@));
            }
        }
        r
    }
}

/// Duplicates stored attachments.
pub fn clone_attachments(atts: &Vec<Attachment>) -> (r: Vec<Attachment>)
    ensures
        r@ == atts@,
{
    let mut r: Vec<Attachment> = Vec::new();
    let n = atts.len();
    let mut i: usize = 0;
    while i < n
        invariant
            i <= n == atts@.len(),
            r@.len() == i,
            forall|j: int| 0 <= j < i ==> #[trigger] r@[j] == atts@[j],
        decreases n - i,
    {
        let x = &atts[i];
        r.push(
            Attachment {
                id: x.id.clone(),
                voucher_id: x.voucher_id.clone(),
                ref_type: x.ref_type.clone(),
                ref_value: x.ref_value.clone(),
                note: crate::model::opt_clone(&x.note),
                created_at: x.created_at.clone(),
            },
        );
        i = i + 1;
    }
    proof {
        assert(r@ =~= atts@);
    }
    r
}

/// Duplicates a stored voucher, rows and attachments included.
pub fn clone_voucher(v: &Voucher) -> (r: Voucher)
    ensures
        voucher_alike(r, *v),
{
    Voucher {
        id: v.id.clone(),
        company_id: v.company_id.clone(),
        series_id: v.series_id.clone(),
        voucher_number: v.voucher_number,
        date: v.date.clone(),
        description: v.description.clone(),
        counterparty: crate::model::opt_clone(&v.counterparty),
        created_at: v.created_at.clone(),
        created_by: v.created_by.clone(),
        posted_at: crate::model::opt_clone(&v.posted_at),
        rows: clone_rows(&v.rows),
        attachments: clone_attachments(&v.attachments),
    }
}

/// Relies on uuid::Uuid::new_v4 and its hyphenated rendering: a freshly
/// generated random identifier. Nothing can be promised of the value.
#[verifier::external_body]
fn random_id() -> (r: String) {
    uuid::Uuid::new_v4().to_string()
}

/// Relies on chrono::Utc::now().to_rfc3339(): the current UTC time rendered
/// as an ISO-8601/RFC 3339 timestamp. Nothing can be promised of the value.
#[verifier::external_body]
fn current_time_rfc3339() -> (r: String) {
    chrono::Utc::now().to_rfc3339()
}

impl Ledger {
    /// As `create_voucher_at`, drawing the timestamp from the system clock
    /// and the fresh identifiers from the random identifier source. Whatever
    /// identifiers come back, a validation failure returns exactly the
    /// validation error and changes nothing; on success the full creation
    /// contract holds. An identifier collision or an exhausted counter
    /// surfaces as `Infrastructure`.
    pub fn create_voucher(&mut self, input: &CreateVoucherInput) -> (r: Result<
        Voucher,
        LedgerError,
    >)
        requires
            old(self).wf(),
        ensures
            final(self).wf(),
            match r {
                Result::Err(e) => {
                    &&& *final(self) == *old(self)
                    &&& match create_validation(*old(self), *input) {
                        Option::Some(v) => e == v,
                        Option::None => e == LedgerError::Infrastructure,
                    }
                },
                Result::Ok(ret) => {
                    &&& create_validation(*old(self), *input) is None
                    &&& create_success(*old(self), *final(self), *input, ret)
                },
            },
    {
        let now = current_time_rfc3339();
        let mut row_ids: Vec<String> = Vec::new();
        let n = input.rows.len();
        while row_ids.len() < n
            invariant
                row_ids@.len() <= n,
            decreases n - row_ids@.len(),
        {
            row_ids.push(random_id());
        }
        let mut attachment_ids: Vec<String> = Vec::new();
        let m = input.attachments.len();
        while attachment_ids.len() < m
            invariant
                attachment_ids@.len() <= m,
            decreases m - attachment_ids@.len(),
        {
            attachment_ids.push(random_id());
        }
        let ids = NewVoucherIds {
            voucher_id: random_id(),
            row_ids,
            attachment_ids,
            audit_id: random_id(),
        };
        self.create_voucher_at(input, &now, &ids)
    }

    /// As `post_voucher_at`, drawing the timestamp from the system clock.
    pub fn post_voucher(&mut self, voucher_id: &String) -> (r: Result<Voucher, LedgerError>)
        requires
            old(self).wf(),
        ensures
            final(self).wf(),
            match r {
                Result::Err(e) => {
                    &&& *final(self) == *old(self)
                    &&& post_outcome_err(*old(self), voucher_id@) == Option::Some(e)
                },
                Result::Ok(ret) => {
                    let i = voucher_index(old(self).vouchers@, voucher_id@);
                    &&& post_outcome_err(*old(self), voucher_id@) == Option::<LedgerError>::None
                    &&& final(self).vouchers@ == old(self).vouchers@.update(
                        i,
                        Voucher {
                            posted_at: final(self).vouchers@[i].posted_at,
                            ..old(self).vouchers@[i]
                        },
                    )
                    &&& final(self).vouchers@[i].posted_at is Some
                    &&& final(self).companies@ == old(self).companies@
                    &&& final(self).accounts@ == old(self).accounts@
                    &&& final(self).series@ == old(self).series@
                    &&& final(self).locks@ == old(self).locks@
                    &&& final(self).audit@ == old(self).audit@
                    &&& voucher_alike(ret, final(self).vouchers@[i])
                },
            },
    {
        let now = current_time_rfc3339();
        proof {
            lemma_first_index(old(self).vouchers@, |v: Voucher| v.id@ == voucher_id@);
        }
        self.post_voucher_at(voucher_id, &now)
    }
}

/// Duplicates stored voucher rows.
pub fn clone_rows(rows: &Vec<VoucherRow>) -> (r: Vec<VoucherRow>)
    ensures
        r@ == rows@,
{
    let mut r: Vec<VoucherRow> = Vec::new();
    let n = rows.len();
    let mut i: usize = 0;
    while i < n
        invariant
            i <= n == rows@.len(),
            r@.len() == i,
            forall|j: int| 0 <= j < i ==> #[trigger] r@[j] == rows@[j],
        decreases n - i,
    {
        let x = &rows[i];
        r.push(
            VoucherRow {
                id: x.id.clone(),
                voucher_id: x.voucher_id.clone(),
                account_id: x.account_id.clone(),
                description: crate::model::opt_clone(&x.description),
                debit_cents: x.debit_cents,
                credit_cents: x.credit_cents,
                vat_code: crate::model::opt_clone(&x.vat_code),
            },
        );
        i = i + 1;
    }
    proof {
        assert(r@ =~= rows@);
    }
    r
}

} // verus!
