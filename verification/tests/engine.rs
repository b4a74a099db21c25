use bokforing::ledger::Ledger;
use bokforing::model::Attachment;
use bokforing::model::CreateAttachmentInput;
use bokforing::model::CreateCompanyInput;
use bokforing::model::CreateCorrectionInput;
use bokforing::model::CreateVoucherInput;
use bokforing::model::CreateVoucherRowInput;
use bokforing::model::LedgerError;
use bokforing::model::LockPeriodInput;
use bokforing::model::NewVoucherIds;
use bokforing::model::SeedIds;
use bokforing::model::UpsertAccountInput;

fn s(x: &str) -> String {
    x.to_string()
}

fn now() -> String {
    s("2024-03-01T12:00:00Z")
}

fn setup() -> Ledger {
    let mut l = Ledger::new();
    let c = l
        .create_company_at(
            &CreateCompanyInput { name: s("Acme AB"), org_number: Some(s("556000-0000")) },
            &now(),
            &s("c1"),
            &s("s1"),
        )
        .unwrap();
    assert_eq!(c.id, s("c1"));
    assert_eq!(c.fiscal_year_start, s("2024-01-01"));
    l
}

fn row(acct: &str, d: i64, c: i64) -> CreateVoucherRowInput {
    CreateVoucherRowInput {
        account_id: s(acct),
        description: None,
        debit_cents: d,
        credit_cents: c,
        vat_code: None,
    }
}

fn input(date: &str, rows: Vec<CreateVoucherRowInput>) -> CreateVoucherInput {
    CreateVoucherInput {
        company_id: s("c1"),
        series_id: s("s1"),
        date: s(date),
        description: s("test voucher"),
        counterparty: None,
        rows,
        attachments: Vec::new(),
    }
}

fn ids(tag: &str, nrows: usize, natts: usize) -> NewVoucherIds {
    NewVoucherIds {
        voucher_id: format!("v-{}", tag),
        row_ids: (0..nrows).map(|k| format!("r-{}-{}", tag, k)).collect(),
        attachment_ids: (0..natts).map(|k| format!("a-{}-{}", tag, k)).collect(),
        audit_id: format!("au-{}", tag),
    }
}

#[test]
fn create_voucher_assigns_gapless_numbers() {
    let mut l = setup();
    for k in 0..3 {
        let v = l
            .create_voucher_at(
                &input("2024-03-01", vec![row("a1", 500, 0), row("a2", 0, 500)]),
                &now(),
                &ids(&format!("{}", k), 2, 0),
            )
            .unwrap();
        assert_eq!(v.voucher_number, (k + 1) as i64);
        assert_eq!(v.posted_at, None);
        assert_eq!(v.rows.len(), 2);
    }
    assert_eq!(l.series[0].next_number, 4);
    assert_eq!(l.vouchers.len(), 3);
}

#[test]
fn unbalanced_voucher_is_rejected_and_counter_untouched() {
    let mut l = setup();
    let r = l.create_voucher_at(
        &input("2024-03-01", vec![row("a1", 1000, 0), row("a2", 0, 900)]),
        &now(),
        &ids("x", 2, 0),
    );
    assert_eq!(r.unwrap_err(), LedgerError::Unbalanced);
    assert_eq!(l.series[0].next_number, 1);
    assert_eq!(l.vouchers.len(), 0);
    assert_eq!(l.audit.len(), 0);
}

#[test]
fn empty_voucher_is_rejected() {
    let mut l = setup();
    let r = l.create_voucher_at(&input("2024-03-01", vec![]), &now(), &ids("x", 0, 0));
    assert_eq!(r.unwrap_err(), LedgerError::EmptyVoucher);
}

#[test]
fn unknown_series_is_not_found() {
    let mut l = setup();
    let mut i = input("2024-03-01", vec![row("a1", 1, 0), row("a2", 0, 1)]);
    i.series_id = s("nope");
    let r = l.create_voucher_at(&i, &now(), &ids("x", 2, 0));
    assert_eq!(r.unwrap_err(), LedgerError::NotFound);
}

#[test]
fn foreign_series_is_a_mismatch() {
    let mut l = setup();
    l.create_company_at(
        &CreateCompanyInput { name: s("Other AB"), org_number: None },
        &now(),
        &s("c2"),
        &s("s2"),
    )
    .unwrap();
    let mut i = input("2024-03-01", vec![row("a1", 1, 0), row("a2", 0, 1)]);
    i.series_id = s("s2");
    let r = l.create_voucher_at(&i, &now(), &ids("x", 2, 0));
    assert_eq!(r.unwrap_err(), LedgerError::SeriesMismatch);
}

#[test]
fn locked_period_blocks_creation_and_later_date_passes() {
    let mut l = setup();
    l.lock_period(
        &LockPeriodInput {
            company_id: s("c1"),
            period_start: s("2024-01-01"),
            period_end: s("2024-01-31"),
        },
        &now(),
        &s("lock1"),
    );
    let r = l.create_voucher_at(
        &input("2024-01-15", vec![row("a1", 100, 0), row("a2", 0, 100)]),
        &now(),
        &ids("in", 2, 0),
    );
    assert_eq!(r.unwrap_err(), LedgerError::PeriodLocked);
    let ok = l.create_voucher_at(
        &input("2024-02-01", vec![row("a1", 100, 0), row("a2", 0, 100)]),
        &now(),
        &ids("out", 2, 0),
    );
    assert!(ok.is_ok());
}

#[test]
fn period_lock_bounds_are_inclusive() {
    let mut l = setup();
    l.lock_period(
        &LockPeriodInput {
            company_id: s("c1"),
            period_start: s("2024-01-01"),
            period_end: s("2024-01-31"),
        },
        &now(),
        &s("lock1"),
    );
    assert!(l.is_period_locked(&s("c1"), &s("2024-01-01")));
    assert!(l.is_period_locked(&s("c1"), &s("2024-01-31")));
    assert!(!l.is_period_locked(&s("c1"), &s("2023-12-31")));
    assert!(!l.is_period_locked(&s("c1"), &s("2024-02-01")));
    assert!(!l.is_period_locked(&s("c2"), &s("2024-01-15")));
}

#[test]
fn posting_is_one_way() {
    let mut l = setup();
    l.create_voucher_at(
        &input("2024-03-01", vec![row("a1", 100, 0), row("a2", 0, 100)]),
        &now(),
        &ids("p", 2, 0),
    )
    .unwrap();
    let v = l.post_voucher_at(&s("v-p"), &s("2024-03-02T08:00:00Z")).unwrap();
    assert_eq!(v.posted_at, Some(s("2024-03-02T08:00:00Z")));
    let again = l.post_voucher_at(&s("v-p"), &s("2024-03-03T08:00:00Z"));
    assert_eq!(again.unwrap_err(), LedgerError::AlreadyPosted);
    assert_eq!(l.vouchers[0].posted_at, Some(s("2024-03-02T08:00:00Z")));
}

#[test]
fn posting_checks_locks_at_post_time() {
    let mut l = setup();
    l.create_voucher_at(
        &input("2024-03-01", vec![row("a1", 100, 0), row("a2", 0, 100)]),
        &now(),
        &ids("p", 2, 0),
    )
    .unwrap();
    // The lock arrives after the draft was created; posting must still fail.
    l.lock_period(
        &LockPeriodInput {
            company_id: s("c1"),
            period_start: s("2024-03-01"),
            period_end: s("2024-03-31"),
        },
        &now(),
        &s("lock1"),
    );
    let r = l.post_voucher_at(&s("v-p"), &s("2024-04-01T08:00:00Z"));
    assert_eq!(r.unwrap_err(), LedgerError::PeriodLocked);
    assert_eq!(l.vouchers[0].posted_at, None);
}

#[test]
fn posting_missing_voucher_is_not_found() {
    let mut l = setup();
    let r = l.post_voucher_at(&s("ghost"), &now());
    assert_eq!(r.unwrap_err(), LedgerError::NotFound);
}

#[test]
fn correction_swaps_rows_and_leaves_original_untouched() {
    let mut l = setup();
    let mut i = input("2024-03-01", vec![row("A", 500, 0), row("B", 0, 500)]);
    i.description = s("original entry");
    l.create_voucher_at(&i, &now(), &ids("orig", 2, 0)).unwrap();
    let c = l
        .create_correction_voucher_at(
            &CreateCorrectionInput {
                original_voucher_id: s("v-orig"),
                date: s("2024-03-05"),
                description: s("undo"),
            },
            &now(),
            &ids("corr", 2, 0),
        )
        .unwrap();
    assert_eq!(c.voucher_number, 2);
    assert_eq!(c.description, s("undo (Correction of 1)"));
    assert_eq!(c.counterparty, None);
    assert_eq!(c.rows.len(), 2);
    assert_eq!(c.rows[0].account_id, s("A"));
    assert_eq!(c.rows[0].debit_cents, 0);
    assert_eq!(c.rows[0].credit_cents, 500);
    assert_eq!(c.rows[1].account_id, s("B"));
    assert_eq!(c.rows[1].debit_cents, 500);
    assert_eq!(c.rows[1].credit_cents, 0);
    // The original is byte for byte as it was.
    let orig = &l.vouchers[0];
    assert_eq!(orig.id, s("v-orig"));
    assert_eq!(orig.voucher_number, 1);
    assert_eq!(orig.description, s("original entry"));
    assert_eq!(orig.rows[0].debit_cents, 500);
    assert_eq!(orig.rows[0].credit_cents, 0);
    assert_eq!(orig.rows[1].debit_cents, 0);
    assert_eq!(orig.rows[1].credit_cents, 500);
}

#[test]
fn correction_of_missing_voucher_is_not_found() {
    let mut l = setup();
    let r = l.create_correction_voucher_at(
        &CreateCorrectionInput {
            original_voucher_id: s("ghost"),
            date: s("2024-03-05"),
            description: s("undo"),
        },
        &now(),
        &ids("corr", 0, 0),
    );
    assert_eq!(r.unwrap_err(), LedgerError::NotFound);
}

#[test]
fn correction_into_locked_period_is_blocked() {
    let mut l = setup();
    l.create_voucher_at(
        &input("2024-03-01", vec![row("A", 500, 0), row("B", 0, 500)]),
        &now(),
        &ids("orig", 2, 0),
    )
    .unwrap();
    l.lock_period(
        &LockPeriodInput {
            company_id: s("c1"),
            period_start: s("2024-03-01"),
            period_end: s("2024-03-31"),
        },
        &now(),
        &s("lock1"),
    );
    let r = l.create_correction_voucher_at(
        &CreateCorrectionInput {
            original_voucher_id: s("v-orig"),
            date: s("2024-03-05"),
            description: s("undo"),
        },
        &now(),
        &ids("corr", 2, 0),
    );
    assert_eq!(r.unwrap_err(), LedgerError::PeriodLocked);
}

#[test]
fn audit_written_exactly_once_per_creation() {
    let mut l = setup();
    l.create_voucher_at(
        &input("2024-03-01", vec![row("a1", 100, 0), row("a2", 0, 100)]),
        &now(),
        &ids("ok", 2, 0),
    )
    .unwrap();
    assert_eq!(l.audit.len(), 1);
    assert_eq!(l.audit[0].entity_type, s("voucher"));
    assert_eq!(l.audit[0].action, s("create"));
    assert_eq!(l.audit[0].entity_id, s("v-ok"));
    assert_eq!(l.audit[0].payload_json, s("{\"voucher_number\":1}"));
    // A failed attempt writes none.
    let r = l.create_voucher_at(
        &input("2024-03-01", vec![row("a1", 1, 0)]),
        &now(),
        &ids("bad", 1, 0),
    );
    assert_eq!(r.unwrap_err(), LedgerError::Unbalanced);
    assert_eq!(l.audit.len(), 1);
}

#[test]
fn blank_attachments_are_dropped() {
    let mut l = setup();
    let mut i = input("2024-03-01", vec![row("a1", 100, 0), row("a2", 0, 100)]);
    i.attachments = vec![
        CreateAttachmentInput { ref_type: s("receipt"), ref_value: s("   "), note: None },
        CreateAttachmentInput {
            ref_type: s("receipt"),
            ref_value: s("kvitto-17"),
            note: Some(s("lunch")),
        },
    ];
    l.create_voucher_at(&i, &now(), &ids("att", 2, 2)).unwrap();
    let atts: &Vec<Attachment> = &l.vouchers[0].attachments;
    assert_eq!(atts.len(), 1);
    assert_eq!(atts[0].ref_value, s("kvitto-17"));
    assert_eq!(atts[0].note, Some(s("lunch")));
    assert_eq!(atts[0].id, s("a-att-1"));
}

#[test]
fn get_voucher_finds_and_misses() {
    let mut l = setup();
    l.create_voucher_at(
        &input("2024-03-01", vec![row("a1", 100, 0), row("a2", 0, 100)]),
        &now(),
        &ids("g", 2, 0),
    )
    .unwrap();
    let v = l.get_voucher(&s("v-g")).unwrap();
    assert_eq!(v.voucher_number, 1);
    assert_eq!(v.rows.len(), 2);
    assert_eq!(l.get_voucher(&s("ghost")).unwrap_err(), LedgerError::NotFound);
}

#[test]
fn duplicate_voucher_id_is_an_infrastructure_error() {
    let mut l = setup();
    l.create_voucher_at(
        &input("2024-03-01", vec![row("a1", 100, 0), row("a2", 0, 100)]),
        &now(),
        &ids("dup", 2, 0),
    )
    .unwrap();
    let r = l.create_voucher_at(
        &input("2024-03-02", vec![row("a1", 100, 0), row("a2", 0, 100)]),
        &now(),
        &ids("dup", 2, 0),
    );
    assert_eq!(r.unwrap_err(), LedgerError::Infrastructure);
    assert_eq!(l.series[0].next_number, 2);
}

#[test]
fn upsert_account_inserts_then_replaces() {
    let mut l = setup();
    let a = l.upsert_account_at(
        &UpsertAccountInput {
            id: None,
            company_id: s("c1"),
            number: 1930,
            name: s("Bank"),
            account_type: s("Asset"),
            vat_code: None,
            is_active: true,
        },
        &now(),
        &s("acct-1"),
    );
    assert_eq!(a.id, s("acct-1"));
    assert_eq!(l.accounts.len(), 1);
    let b = l.upsert_account_at(
        &UpsertAccountInput {
            id: Some(s("acct-1")),
            company_id: s("c1"),
            number: 1940,
            name: s("Bank 2"),
            account_type: s("Asset"),
            vat_code: None,
            is_active: false,
        },
        &s("2024-04-01T00:00:00Z"),
        &s("unused"),
    );
    assert_eq!(b.number, 1940);
    assert_eq!(l.accounts.len(), 1);
    assert_eq!(l.accounts[0].number, 1940);
    assert_eq!(l.accounts[0].name, s("Bank 2"));
    assert!(!l.accounts[0].is_active);
    // The stored row keeps its original creation time; the returned value
    // carries the time of this call.
    assert_eq!(l.accounts[0].created_at, now());
    assert_eq!(b.created_at, s("2024-04-01T00:00:00Z"));
}

#[test]
fn seed_runs_once_and_only_on_empty_state() {
    let mut l = Ledger::new();
    let ids = SeedIds {
        company_id: s("seed-c"),
        series_id: s("seed-s"),
        account_ids: vec![s("k1"), s("k2"), s("k3"), s("k4"), s("k5")],
        audit_id: s("seed-a"),
    };
    assert_eq!(l.seed_if_needed(&now(), &ids), Ok(true));
    assert_eq!(l.companies.len(), 1);
    assert_eq!(l.companies[0].name, s("Demo AB"));
    assert_eq!(l.series.len(), 1);
    assert_eq!(l.series[0].next_number, 1);
    assert_eq!(l.accounts.len(), 5);
    assert_eq!(l.accounts[0].number, 1930);
    assert_eq!(l.accounts[4].number, 2611);
    assert_eq!(l.audit.len(), 1);
    assert_eq!(l.audit[0].action, s("seed"));
    assert_eq!(l.audit[0].payload_json, s("{}"));
    // A second run changes nothing.
    assert_eq!(l.seed_if_needed(&now(), &ids), Ok(false));
    assert_eq!(l.accounts.len(), 5);
}

#[test]
fn generated_identifiers_commit_vouchers_too() {
    // Exercises the clock- and identifier-drawing paths end to end.
    let mut l = Ledger::new();
    assert_eq!(l.seed(), Ok(true));
    let company_id = l.companies[0].id.clone();
    let series_id = l.series[0].id.clone();
    let account_id = l.accounts[0].id.clone();
    let v = l
        .create_voucher(&CreateVoucherInput {
            company_id: company_id.clone(),
            series_id,
            date: s("2024-05-01"),
            description: s("generated"),
            counterparty: None,
            rows: vec![row(&account_id, 250, 0), row(&account_id, 0, 250)],
            attachments: Vec::new(),
        })
        .unwrap();
    assert_eq!(v.voucher_number, 1);
    let posted = l.post_voucher(&v.id).unwrap();
    assert!(posted.posted_at.is_some());
    let corr = l
        .create_correction_voucher(&CreateCorrectionInput {
            original_voucher_id: v.id.clone(),
            date: s("2024-05-02"),
            description: s("undo"),
        })
        .unwrap();
    assert_eq!(corr.voucher_number, 2);
    assert_eq!(corr.description, s("undo (Correction of 1)"));
}

#[test]
fn error_messages_match_the_surface() {
    assert_eq!(LedgerError::Unbalanced.message(), s("Voucher does not balance"));
    assert_eq!(LedgerError::EmptyVoucher.message(), s("Voucher must have rows"));
    assert_eq!(LedgerError::PeriodLocked.message(), s("Period is locked"));
    assert_eq!(LedgerError::SeriesMismatch.message(), s("Series does not belong to company"));
    assert_eq!(LedgerError::AlreadyPosted.message(), s("Voucher is already posted"));
}

#[test]
fn series_of_different_companies_number_independently() {
    let mut l = setup();
    l.create_company_at(
        &CreateCompanyInput { name: s("Other AB"), org_number: None },
        &now(),
        &s("c2"),
        &s("s2"),
    )
    .unwrap();
    let mut i1 = input("2024-03-01", vec![row("a1", 10, 0), row("a2", 0, 10)]);
    i1.company_id = s("c1");
    i1.series_id = s("s1");
    let v1 = l.create_voucher_at(&i1, &now(), &ids("one", 2, 0)).unwrap();
    let mut i2 = input("2024-03-01", vec![row("a1", 10, 0), row("a2", 0, 10)]);
    i2.company_id = s("c2");
    i2.series_id = s("s2");
    let v2 = l.create_voucher_at(&i2, &now(), &ids("two", 2, 0)).unwrap();
    assert_eq!(v1.voucher_number, 1);
    assert_eq!(v2.voucher_number, 1);
    assert_eq!(l.series[0].next_number, 2);
    assert_eq!(l.series[1].next_number, 2);
}

#[test]
fn account_numbers_may_repeat_across_distinct_ids() {
    // Replacement is keyed on id alone; nothing rejects two accounts sharing
    // a displayed number.
    let mut l = setup();
    for id in ["k1", "k2"] {
        l.upsert_account_at(
            &UpsertAccountInput {
                id: Some(s(id)),
                company_id: s("c1"),
                number: 1930,
                name: s("acct"),
                account_type: s("Asset"),
                vat_code: None,
                is_active: true,
            },
            &now(),
            &s("unused"),
        );
    }
    assert_eq!(l.accounts.len(), 2);
    assert_eq!(l.accounts[0].number, 1930);
    assert_eq!(l.accounts[1].number, 1930);
}

#[test]
fn duplicate_company_id_is_an_infrastructure_error() {
    let mut l = setup();
    let r = l.create_company_at(
        &CreateCompanyInput { name: s("Impostor AB"), org_number: None },
        &now(),
        &s("c1"),
        &s("s9"),
    );
    assert_eq!(r.unwrap_err(), LedgerError::Infrastructure);
    assert_eq!(l.companies.len(), 1);
    assert_eq!(l.companies[0].name, s("Acme AB"));
}

#[test]
fn blankness_covers_all_whitespace() {
    // Any reference value that trims to empty is dropped, whatever kind of
    // whitespace it holds — vertical tab and no-break space included.
    let mut l = setup();
    let mut i = input("2024-03-01", vec![row("a1", 100, 0), row("a2", 0, 100)]);
    i.attachments = vec![
        CreateAttachmentInput { ref_type: s("receipt"), ref_value: s("\u{000B}"), note: None },
        CreateAttachmentInput { ref_type: s("receipt"), ref_value: s("\u{00A0}\u{2003}"), note: None },
        CreateAttachmentInput { ref_type: s("receipt"), ref_value: s("\u{00A0}x"), note: None },
    ];
    l.create_voucher_at(&i, &now(), &ids("ws", 2, 3)).unwrap();
    let atts = &l.vouchers[0].attachments;
    assert_eq!(atts.len(), 1);
    assert_eq!(atts[0].ref_value, s("\u{00A0}x"));
}
