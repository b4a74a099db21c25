use bokforing::ledger::Ledger;
use bokforing::model::CreateCompanyInput;
use bokforing::model::CreateVoucherInput;
use bokforing::model::CreateVoucherRowInput;
use bokforing::model::LockPeriodInput;
use bokforing::model::NewVoucherIds;
use bokforing::model::UpsertAccountInput;
use bokforing::text::i64_to_string;
use bokforing::text::str_is_blank;
use bokforing::text::str_lex_le;

fn s(x: &str) -> String {
    x.to_string()
}

fn now() -> String {
    s("2024-03-01T12:00:00Z")
}

fn setup() -> Ledger {
    let mut l = Ledger::new();
    l.create_company_at(
        &CreateCompanyInput { name: s("Acme AB"), org_number: None },
        &now(),
        &s("c1"),
        &s("s1"),
    )
    .unwrap();
    l
}

fn row(acct: &str, d: i64, c: i64) -> CreateVoucherRowInput {
    CreateVoucherRowInput {
        account_id: s(acct),
        description: None,
        debit_cents: d,
        credit_cents: c,
        vat_code: None,
    }
}

fn add_voucher(l: &mut Ledger, tag: &str, date: &str, rows: Vec<CreateVoucherRowInput>) {
    let n = rows.len();
    l.create_voucher_at(
        &CreateVoucherInput {
            company_id: s("c1"),
            series_id: s("s1"),
            date: s(date),
            description: format!("voucher {}", tag),
            counterparty: None,
            rows,
            attachments: Vec::new(),
        },
        &now(),
        &NewVoucherIds {
            voucher_id: format!("v-{}", tag),
            row_ids: (0..n).map(|k| format!("r-{}-{}", tag, k)).collect(),
            attachment_ids: Vec::new(),
            audit_id: format!("au-{}", tag),
        },
    )
    .unwrap();
}

#[test]
fn ledger_report_accumulates_running_balance() {
    let mut l = setup();
    add_voucher(&mut l, "1", "2024-03-01", vec![row("K", 100, 0), row("X", 0, 100)]);
    add_voucher(&mut l, "2", "2024-03-02", vec![row("X", 40, 0), row("K", 0, 40)]);
    let rows = l
        .report_ledger_for_account(&s("c1"), &s("K"), &None, &None)
        .unwrap();
    assert_eq!(rows.len(), 2);
    assert_eq!(rows[0].debit_cents, 100);
    assert_eq!(rows[0].credit_cents, 0);
    assert_eq!(rows[0].balance_cents, 100);
    assert_eq!(rows[1].debit_cents, 0);
    assert_eq!(rows[1].credit_cents, 40);
    assert_eq!(rows[1].balance_cents, 60);
}

#[test]
fn ledger_report_orders_by_date_then_number() {
    let mut l = setup();
    // Created out of date order on purpose.
    add_voucher(&mut l, "late", "2024-03-09", vec![row("K", 7, 0), row("X", 0, 7)]);
    add_voucher(&mut l, "early", "2024-03-01", vec![row("K", 5, 0), row("X", 0, 5)]);
    let rows = l
        .report_ledger_for_account(&s("c1"), &s("K"), &None, &None)
        .unwrap();
    assert_eq!(rows[0].date, s("2024-03-01"));
    assert_eq!(rows[0].balance_cents, 5);
    assert_eq!(rows[1].date, s("2024-03-09"));
    assert_eq!(rows[1].balance_cents, 12);
}

#[test]
fn ledger_report_respects_date_bounds() {
    let mut l = setup();
    add_voucher(&mut l, "1", "2024-01-15", vec![row("K", 1, 0), row("X", 0, 1)]);
    add_voucher(&mut l, "2", "2024-02-15", vec![row("K", 2, 0), row("X", 0, 2)]);
    add_voucher(&mut l, "3", "2024-03-15", vec![row("K", 4, 0), row("X", 0, 4)]);
    let rows = l
        .report_ledger_for_account(
            &s("c1"),
            &s("K"),
            &Some(s("2024-02-01")),
            &Some(s("2024-02-28")),
        )
        .unwrap();
    assert_eq!(rows.len(), 1);
    assert_eq!(rows[0].debit_cents, 2);
}

#[test]
fn voucher_list_sums_debits_per_voucher() {
    let mut l = setup();
    add_voucher(&mut l, "1", "2024-03-02", vec![row("K", 100, 0), row("X", 0, 100)]);
    add_voucher(&mut l, "2", "2024-03-01", vec![
        row("K", 30, 0),
        row("K", 20, 0),
        row("X", 0, 50),
    ]);
    let items = l.report_voucher_list(&s("c1"), &None, &None).unwrap();
    assert_eq!(items.len(), 2);
    assert_eq!(items[0].date, s("2024-03-01"));
    assert_eq!(items[0].total_cents, 50);
    assert_eq!(items[1].date, s("2024-03-02"));
    assert_eq!(items[1].total_cents, 100);
}

#[test]
fn list_vouchers_is_newest_first() {
    let mut l = setup();
    add_voucher(&mut l, "1", "2024-03-01", vec![row("K", 1, 0), row("X", 0, 1)]);
    add_voucher(&mut l, "2", "2024-03-05", vec![row("K", 1, 0), row("X", 0, 1)]);
    add_voucher(&mut l, "3", "2024-03-03", vec![row("K", 1, 0), row("X", 0, 1)]);
    let vs = l.list_vouchers(&s("c1"), &None, &None);
    assert_eq!(vs.len(), 3);
    assert_eq!(vs[0].date, s("2024-03-05"));
    assert_eq!(vs[1].date, s("2024-03-03"));
    assert_eq!(vs[2].date, s("2024-03-01"));
    assert_eq!(vs[0].rows.len(), 2);
}

#[test]
fn list_accounts_orders_by_number() {
    let mut l = setup();
    for (id, number) in [("a1", 4010i64), ("a2", 1930), ("a3", 3010)] {
        l.upsert_account_at(
            &UpsertAccountInput {
                id: Some(s(id)),
                company_id: s("c1"),
                number,
                name: s("acct"),
                account_type: s("Asset"),
                vat_code: None,
                is_active: true,
            },
            &now(),
            &s("unused"),
        );
    }
    let accs = l.list_accounts(&s("c1"));
    assert_eq!(accs.len(), 3);
    assert_eq!(accs[0].number, 1930);
    assert_eq!(accs[1].number, 3010);
    assert_eq!(accs[2].number, 4010);
}

#[test]
fn list_period_locks_is_newest_start_first() {
    let mut l = setup();
    for (id, start, end) in [
        ("l1", "2024-01-01", "2024-01-31"),
        ("l2", "2024-03-01", "2024-03-31"),
        ("l3", "2024-02-01", "2024-02-29"),
    ] {
        l.lock_period(
            &LockPeriodInput {
                company_id: s("c1"),
                period_start: s(start),
                period_end: s(end),
            },
            &now(),
            &s(id),
        );
    }
    let locks = l.list_period_locks(&s("c1"));
    assert_eq!(locks.len(), 3);
    assert_eq!(locks[0].period_start, s("2024-03-01"));
    assert_eq!(locks[1].period_start, s("2024-02-01"));
    assert_eq!(locks[2].period_start, s("2024-01-01"));
}

#[test]
fn listings_filter_by_company() {
    let mut l = setup();
    l.create_company_at(
        &CreateCompanyInput { name: s("Other AB"), org_number: None },
        &now(),
        &s("c2"),
        &s("s2"),
    )
    .unwrap();
    assert_eq!(l.list_companies().len(), 2);
    assert_eq!(l.list_voucher_series(&s("c1")).len(), 1);
    assert_eq!(l.list_voucher_series(&s("c1"))[0].id, s("s1"));
    assert_eq!(l.list_voucher_series(&s("c2"))[0].id, s("s2"));
    assert_eq!(l.list_accounts(&s("c2")).len(), 0);
}

#[test]
fn csv_export_renders_exact_lines() {
    let mut l = setup();
    let mut input = CreateVoucherInput {
        company_id: s("c1"),
        series_id: s("s1"),
        date: s("2024-03-01"),
        description: s("coffee, beans"),
        counterparty: Some(s("Cafe, Inc")),
        rows: vec![row("K", 100, 0), row("X", 0, 100)],
        attachments: Vec::new(),
    };
    input.rows[0].description = Some(s("a,b"));
    input.rows[0].vat_code = Some(s("SE25"));
    l.create_voucher_at(
        &input,
        &now(),
        &NewVoucherIds {
            voucher_id: s("v-1"),
            row_ids: vec![s("r-1"), s("r-2")],
            attachment_ids: Vec::new(),
            audit_id: s("au-1"),
        },
    )
    .unwrap();
    let (vlines, rlines) = l.export_csv_lines(&s("c1"));
    assert_eq!(vlines.len(), 2);
    assert_eq!(vlines[0], s("id,voucher_number,date,description,counterparty,posted_at"));
    assert_eq!(vlines[1], s("v-1,1,2024-03-01,coffee  beans,Cafe  Inc,"));
    assert_eq!(rlines.len(), 3);
    assert_eq!(
        rlines[0],
        s("voucher_id,account_id,description,debit_cents,credit_cents,vat_code")
    );
    assert_eq!(rlines[1], s("v-1,K,a b,100,0,SE25"));
    assert_eq!(rlines[2], s("v-1,X,,0,100,"));
}

#[test]
fn sie_export_renders_exact_lines() {
    let mut l = setup();
    l.upsert_account_at(
        &UpsertAccountInput {
            id: Some(s("K")),
            company_id: s("c1"),
            number: 1930,
            name: s("Bankkonto"),
            account_type: s("Asset"),
            vat_code: None,
            is_active: true,
        },
        &now(),
        &s("unused"),
    );
    add_voucher(&mut l, "1", "2024-03-01", vec![row("K", 100, 0), row("Y", 0, 100)]);
    let lines = l.export_sie_lines(&s("c1"));
    assert_eq!(lines[0], s("#FLAGGA 0"));
    assert_eq!(lines[1], s("#PROGRAM Bokforingsprogram 0.1"));
    assert_eq!(lines[2], s("#FORMAT PC8"));
    assert_eq!(lines[3], s("#SIETYP 4"));
    assert_eq!(lines[4], s("#TODO Implement full SIE4 export"));
    assert_eq!(lines[5], s("#KONTO 1930 \"Bankkonto\""));
    assert_eq!(
        lines[6],
        s("#VER A 1 2024-03-01 \"voucher 1\" 2024-03-01T12:00:00Z")
    );
    assert_eq!(lines[7], s("#TRANS 1930 100 0"));
    // The second row's account is not in the chart; its number renders as 0.
    assert_eq!(lines[8], s("#TRANS 0 0 100"));
    assert_eq!(lines.len(), 9);
}

#[test]
fn decimal_rendering_matches() {
    assert_eq!(i64_to_string(0), s("0"));
    assert_eq!(i64_to_string(7), s("7"));
    assert_eq!(i64_to_string(1930), s("1930"));
    assert_eq!(i64_to_string(-250), s("-250"));
    assert_eq!(i64_to_string(i64::MAX), s("9223372036854775807"));
    assert_eq!(i64_to_string(i64::MIN), s("-9223372036854775808"));
}

#[test]
fn date_order_is_lexicographic() {
    assert!(str_lex_le("2024-01-01", "2024-01-02"));
    assert!(str_lex_le("2024-01-01", "2024-01-01"));
    assert!(!str_lex_le("2024-02-01", "2024-01-31"));
    assert!(str_lex_le("", "a"));
    assert!(!str_lex_le("ab", "a"));
}

#[test]
fn blankness_is_whitespace_only() {
    assert!(str_is_blank(""));
    assert!(str_is_blank(" \t\r\n"));
    assert!(!str_is_blank(" x "));
}

#[test]
fn seed_names_carry_their_diacritics() {
    let mut l = Ledger::new();
    assert_eq!(l.seed(), Ok(true));
    let names: Vec<String> = l.accounts.iter().map(|a| a.name.clone()).collect();
    assert_eq!(
        names,
        vec![
            s("Bankkonto"),
            s("F\u{00F6}rs\u{00E4}ljning"),
            s("Varuink\u{00F6}p"),
            s("Ing\u{00E5}ende moms"),
            s("Utg\u{00E5}ende moms"),
        ]
    );
}
