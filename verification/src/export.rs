//! Text renderings of the committed state for export. The library renders
//! the lines; where they go on disk is the caller's business. Commas inside
//! free-text fields are replaced by spaces rather than quoted — lossy but
//! deterministic, and kept exactly so for compatibility.
use vstd::prelude::*;

use crate::ledger::Ledger;
use crate::ledger::first_index;
use crate::model::Account;
use crate::reports::RowData;
use crate::reports::VoucherData;
use crate::reports::selected_accounts;
use crate::reports::selected_vouchers_data;
use crate::text::dec_int;
use crate::text::sanitized;

verus! {

/// An optional text, or nothing.
pub open spec fn opt_or_empty(o: Option<Seq<char>>) -> Seq<char> {
    match o {
        Option::Some(s) => s,
        Option::None => Seq::empty(),
    }
}

/// One line of the voucher CSV file.
pub open spec fn csv_voucher_line(d: VoucherData) -> Seq<char> {
    d.id + ","@ + dec_int(d.number) + ","@ + d.date + ","@ + sanitized(d.description) + ","@
        + sanitized(opt_or_empty(d.counterparty)) + ","@ + opt_or_empty(d.posted_at)
}

/// One line of the voucher-row CSV file.
pub open spec fn csv_row_line(vid: Seq<char>, r: RowData) -> Seq<char> {
    vid + ","@ + r.account_id + ","@ + sanitized(opt_or_empty(r.description)) + ","@ + dec_int(
        r.debit,
    ) + ","@ + dec_int(r.credit) + ","@ + opt_or_empty(r.vat_code)
}

/// The whole voucher CSV file, line by line: the fixed header, then one line
/// per voucher.
pub open spec fn csv_voucher_lines_spec(vds: Seq<VoucherData>) -> Seq<Seq<char>> {
    seq!["id,voucher_number,date,description,counterparty,posted_at"@] + vds.map_values(
        |d: VoucherData| csv_voucher_line(d),
    )
}

/// The row lines of the given vouchers, voucher by voucher, in order.
pub open spec fn csv_row_lines_of(vds: Seq<VoucherData>) -> Seq<Seq<char>>
    decreases vds.len(),
{
    if vds.len() == 0 {
        Seq::empty()
    } else {
        csv_row_lines_of(vds.drop_last()) + vds.last().rows.map_values(
            |r: RowData| csv_row_line(vds.last().id, r),
        )
    }
}

/// The whole voucher-row CSV file, line by line.
pub open spec fn csv_row_lines_spec(vds: Seq<VoucherData>) -> Seq<Seq<char>> {
    seq!["voucher_id,account_id,description,debit_cents,credit_cents,vat_code"@]
        + csv_row_lines_of(vds)
}

/// The views of rendered lines.
pub open spec fn lines_view(v: Seq<String>) -> Seq<Seq<char>> {
    v.map_values(|s: String| s@)
}

/// The number of the account with this id, or 0 when the id is unknown.
pub open spec fn account_number_of(accs: Seq<Account>, id: Seq<char>) -> int {
    let i = first_index(accs, |a: Account| a.id@ == id);
    if i < 0 {
        0
    } else {
        accs[i].number as int
    }
}

/// One account line of the interchange stub.
pub open spec fn konto_line(a: Account) -> Seq<char> {
    "#KONTO "@ + dec_int(a.number as int) + " \""@ + a.name@ + "\""@
}

/// One voucher header line of the interchange stub.
pub open spec fn ver_line(d: VoucherData) -> Seq<char> {
    "#VER A "@ + dec_int(d.number) + " "@ + d.date + " \""@ + d.description + "\" "@ + d.created_at
}

/// One transaction line of the interchange stub.
pub open spec fn trans_line(accs: Seq<Account>, r: RowData) -> Seq<char> {
    "#TRANS "@ + dec_int(account_number_of(accs, r.account_id)) + " "@ + dec_int(r.debit) + " "@
        + dec_int(r.credit)
}

/// The voucher and transaction lines of the interchange stub, in order.
pub open spec fn ver_trans_lines(vds: Seq<VoucherData>, accs: Seq<Account>) -> Seq<Seq<char>>
    decreases vds.len(),
{
    if vds.len() == 0 {
        Seq::empty()
    } else {
        ver_trans_lines(vds.drop_last(), accs) + seq![ver_line(vds.last())]
            + vds.last().rows.map_values(|r: RowData| trans_line(accs, r))
    }
}

/// The whole interchange stub, line by line: the fixed prologue, the chart
/// of accounts, then each voucher with its transactions. The rendering is an
/// acknowledged stub, incomplete relative to the real interchange format.
pub open spec fn sie_lines_spec(accs: Seq<Account>, vds: Seq<VoucherData>) -> Seq<Seq<char>> {
    seq![
        "#FLAGGA 0"@,
        "#PROGRAM Bokforingsprogram 0.1"@,
        "#FORMAT PC8"@,
        "#SIETYP 4"@,
        "#TODO Implement full SIE4 export"@,
    ] + accs.map_values(|a: Account| konto_line(a)) + ver_trans_lines(vds, accs)
}

impl Ledger {
    /// Renders the two CSV files of a company's vouchers, line by line: the
    /// voucher file and the voucher-row file, over the same vouchers the
    /// voucher listing reports, newest first.
    #[verifier::loop_isolation(false)]
    pub fn export_csv_lines(&self, company_id: &String) -> (r: (Vec<String>, Vec<String>))
        ensures
            exists|vds: Seq<VoucherData>|
                {
                    &&& #[trigger] vds.to_multiset() == selected_vouchers_data(
                        self.vouchers@,
                        company_id@,
                        Option::None,
                        Option::None,
                    ).to_multiset()
                    &&& (forall|i: int, j: int|
                        0 <= i < j < vds.len() ==> crate::reports::voucher_data_le(
                            #[trigger] vds[j],
                            #[trigger] vds[i],
                        ))
                    &&& lines_view(r.0@) == csv_voucher_lines_spec(vds)
                    &&& lines_view(r.1@) == csv_row_lines_spec(vds)
                },
    {
        let vouchers = self.list_vouchers(company_id, &Option::None, &Option::None);
        let ghost vds = vouchers@.map_values(|x: crate::model::Voucher| crate::reports::voucher_data(x));

        let mut voucher_lines: Vec<String> = Vec::new();
        voucher_lines.push(String::from_str("id,voucher_number,date,description,counterparty,posted_at"));
        let mut row_lines: Vec<String> = Vec::new();
        row_lines.push(String::from_str("voucher_id,account_id,description,debit_cents,credit_cents,vat_code"));
        proof {
            assert(lines_view(voucher_lines@) =~= csv_voucher_lines_spec(vds.take(0)));
            assert(csv_row_lines_of(vds.take(0)) =~= Seq::<Seq<char>>::empty());
            assert(lines_view(row_lines@) =~= csv_row_lines_spec(vds.take(0)));
        }
        let n = vouchers.len();
        let mut i: usize = 0;
        while i < n
            invariant
                i <= n == vouchers@.len(),
                vds == vouchers@.map_values(
                    |x: crate::model::Voucher| crate::reports::voucher_data(x),
                ),
                lines_view(voucher_lines@) == csv_voucher_lines_spec(vds.take(i as int)),
                lines_view(row_lines@) == csv_row_lines_spec(vds.take(i as int)),
            decreases n - i,
        {
            let v = &vouchers[i];
            let mut line = String::new();
            line.append(v.id.as_str());
            line.append(",");
            crate::text::append_dec_i64(&mut line, v.voucher_number);
            line.append(",");
            line.append(v.date.as_str());
            line.append(",");
            crate::text::append_sanitized(&mut line, v.description.as_str());
            line.append(",");
            match &v.counterparty {
                Option::Some(c) => crate::text::append_sanitized(&mut line, c.as_str()),
                Option::None => {},
            }
            line.append(",");
            match &v.posted_at {
                Option::Some(p) => line.append(p.as_str()),
                Option::None => {},
            }
            proof {
                let d = vds[i as int];
                assert(sanitized(Seq::<char>::empty()) =~= Seq::<char>::empty());
                assert(line@ == csv_voucher_line(d));
                assert(vds.take(i as int + 1).drop_last() =~= vds.take(i as int));
                assert(vds.take(i as int + 1).last() == vds[i as int]);
                assert(csv_voucher_lines_spec(vds.take(i as int + 1)) =~= csv_voucher_lines_spec(
                    vds.take(i as int),
                ).push(csv_voucher_line(d)));
            }
            let ghost before_vl = voucher_lines@;
            voucher_lines.push(line);
            proof {
                assert(lines_view(voucher_lines@) =~= lines_view(before_vl).push(
                    voucher_lines@.last()@,
                ));
            }

            let nr = v.rows.len();
            let mut j: usize = 0;
            let ghost row_base = lines_view(row_lines@);
            proof {
                assert(row_base + vds[i as int].rows.take(0).map_values(
                    |r: RowData| csv_row_line(vds[i as int].id, r),
                ) =~= row_base);
            }
            while j < nr
                invariant
                    j <= nr == v.rows@.len(),
                    *v == vouchers@[i as int],
                    0 <= i < vouchers@.len(),
                    vds == vouchers@.map_values(
                        |x: crate::model::Voucher| crate::reports::voucher_data(x),
                    ),
                    vds[i as int] == crate::reports::voucher_data(vouchers@[i as int]),
                    nr == vds[i as int].rows.len(),
                    lines_view(row_lines@) == row_base + vds[i as int].rows.take(
                        j as int,
                    ).map_values(|r: RowData| csv_row_line(vds[i as int].id, r)),
                decreases nr - j,
            {
                let row = &v.rows[j];
                let mut rl = String::new();
                rl.append(v.id.as_str());
                rl.append(",");
                rl.append(row.account_id.as_str());
                rl.append(",");
                match &row.description {
                    Option::Some(d) => crate::text::append_sanitized(&mut rl, d.as_str()),
                    Option::None => {},
                }
                rl.append(",");
                crate::text::append_dec_i64(&mut rl, row.debit_cents);
                rl.append(",");
                crate::text::append_dec_i64(&mut rl, row.credit_cents);
                rl.append(",");
                match &row.vat_code {
                    Option::Some(c) => rl.append(c.as_str()),
                    Option::None => {},
                }
                proof {
                    let d = vds[i as int];
                    let rd = d.rows[j as int];
                    assert(rd == crate::reports::row_data(vouchers@[i as int].rows@[j as int]));
                    assert(sanitized(Seq::<char>::empty()) =~= Seq::<char>::empty());
                    assert(rl@ == csv_row_line(d.id, rd));
                    assert(d.rows.take(j as int + 1) =~= d.rows.take(j as int).push(rd));
                    assert(d.rows.take(j as int + 1).map_values(
                        |r: RowData| csv_row_line(d.id, r),
                    ) =~= d.rows.take(j as int).map_values(|r: RowData| csv_row_line(d.id, r)).push(
                        csv_row_line(d.id, rd),
                    ));
                    assert(row_base + d.rows.take(j as int).map_values(
                        |r: RowData| csv_row_line(d.id, r),
                    ).push(csv_row_line(d.id, rd)) =~= (row_base + d.rows.take(j as int).map_values(
                        |r: RowData| csv_row_line(d.id, r),
                    )).push(csv_row_line(d.id, rd)));
                }
                let ghost before_rl = row_lines@;
                row_lines.push(rl);
                proof {
                    assert(lines_view(row_lines@) =~= lines_view(before_rl).push(
                        row_lines@.last()@,
                    ));
                }
                j = j + 1;
            }
            proof {
                let d = vds[i as int];
                assert(d.rows.take(nr as int) =~= d.rows);
                assert(vds.take(i as int + 1).drop_last() =~= vds.take(i as int));
                assert(vds.take(i as int + 1).last() == vds[i as int]);
                assert(csv_row_lines_of(vds.take(i as int + 1)) =~= csv_row_lines_of(vds.take(
                    i as int,
                )) + d.rows.map_values(|r: RowData| csv_row_line(d.id, r)));
                assert(lines_view(row_lines@) =~= csv_row_lines_spec(vds.take(i as int + 1)));
            }
            i = i + 1;
        }
        proof {
            assert(vds.take(n as int) =~= vds);
        }
        (voucher_lines, row_lines)
    }
}

/// Finds the number of the account with this id in the rendered chart, or 0.
#[verifier::loop_isolation(false)]
fn lookup_account_number(accs: &Vec<Account>, id: &String) -> (r: i64)
    ensures
        r as int == account_number_of(accs@, id@),
{
    let n = accs.len();
    let mut i: usize = 0;
    while i < n
        invariant
            i <= n == accs@.len(),
            forall|j: int| 0 <= j < i ==> (#[trigger] accs@[j]).id@ != id@,
        decreases n - i,
    {
        if accs[i].id == *id {
            proof {
                crate::ledger::lemma_first_index_is(accs@, |a: Account| a.id@ == id@, i as int);
            }
            return accs[i].number;
        }
        i = i + 1;
    }
    proof {
        crate::ledger::lemma_first_index_none(accs@, |a: Account| a.id@ == id@);
    }
    0
}

impl Ledger {
    /// Renders the interchange stub of a company, line by line: the fixed
    /// prologue, one account line per account in account-number order, and
    /// each voucher, newest first, with one transaction line per row.
    #[verifier::loop_isolation(false)]
    pub fn export_sie_lines(&self, company_id: &String) -> (r: Vec<String>)
        ensures
            exists|accs: Seq<Account>, vds: Seq<VoucherData>|
                {
                    &&& #[trigger] accs.to_multiset() == selected_accounts(
                        self.accounts@,
                        company_id@,
                    ).to_multiset()
                    &&& (forall|i: int, j: int|
                        0 <= i < j < accs.len() ==> (#[trigger] accs[i]).number <= (
                        #[trigger] accs[j]).number)
                    &&& #[trigger] vds.to_multiset() == selected_vouchers_data(
                        self.vouchers@,
                        company_id@,
                        Option::None,
                        Option::None,
                    ).to_multiset()
                    &&& (forall|i: int, j: int|
                        0 <= i < j < vds.len() ==> crate::reports::voucher_data_le(
                            #[trigger] vds[j],
                            #[trigger] vds[i],
                        ))
                    &&& lines_view(r@) == sie_lines_spec(accs, vds)
                },
    {
        let accounts = self.list_accounts(company_id);
        let vouchers = self.list_vouchers(company_id, &Option::None, &Option::None);
        let ghost vds = vouchers@.map_values(|x: crate::model::Voucher| crate::reports::voucher_data(x));

        let mut lines: Vec<String> = Vec::new();
        lines.push(String::from_str("#FLAGGA 0"));
        lines.push(String::from_str("#PROGRAM Bokforingsprogram 0.1"));
        lines.push(String::from_str("#FORMAT PC8"));
        lines.push(String::from_str("#SIETYP 4"));
        lines.push(String::from_str("#TODO Implement full SIE4 export"));
        let ghost prologue = lines_view(lines@);
        proof {
            assert(prologue + accounts@.take(0).map_values(|a: Account| konto_line(a))
                =~= prologue);
        }
        let na = accounts.len();
        let mut i: usize = 0;
        while i < na
            invariant
                i <= na == accounts@.len(),
                lines_view(lines@) == prologue + accounts@.take(i as int).map_values(
                    |a: Account| konto_line(a),
                ),
            decreases na - i,
        {
            let a = &accounts[i];
            let mut line = String::from_str("#KONTO ");
            crate::text::append_dec_i64(&mut line, a.number);
            line.append(" \"");
            line.append(a.name.as_str());
            line.append("\"");
            proof {
                assert(line@ == konto_line(accounts@[i as int]));
                assert(accounts@.take(i as int + 1) =~= accounts@.take(i as int).push(
                    accounts@[i as int],
                ));
                assert(accounts@.take(i as int + 1).map_values(|a: Account| konto_line(a))
                    =~= accounts@.take(i as int).map_values(|a: Account| konto_line(a)).push(
                    konto_line(accounts@[i as int]),
                ));
                assert(prologue + accounts@.take(i as int).map_values(
                    |a: Account| konto_line(a),
                ).push(konto_line(accounts@[i as int])) =~= (prologue + accounts@.take(
                    i as int,
                ).map_values(|a: Account| konto_line(a))).push(konto_line(accounts@[i as int])));
            }
            let ghost before = lines@;
            lines.push(line);
            proof {
                assert(lines_view(lines@) =~= lines_view(before).push(lines@.last()@));
            }
            i = i + 1;
        }
        proof {
            assert(accounts@.take(na as int) =~= accounts@);
        }
        let ghost with_accounts = lines_view(lines@);
        proof {
            assert(with_accounts + ver_trans_lines(vds.take(0), accounts@) =~= with_accounts);
        }
        let nv = vouchers.len();
        let mut i: usize = 0;
        while i < nv
            invariant
                i <= nv == vouchers@.len(),
                vds == vouchers@.map_values(
                    |x: crate::model::Voucher| crate::reports::voucher_data(x),
                ),
                lines_view(lines@) == with_accounts + ver_trans_lines(vds.take(i as int), accounts@),
            decreases nv - i,
        {
            let v = &vouchers[i];
            let mut line = String::from_str("#VER A ");
            crate::text::append_dec_i64(&mut line, v.voucher_number);
            line.append(" ");
            line.append(v.date.as_str());
            line.append(" \"");
            line.append(v.description.as_str());
            line.append("\" ");
            line.append(v.created_at.as_str());
            proof {
                assert(line@ == ver_line(vds[i as int]));
            }
            let ghost before = lines@;
            lines.push(line);
            proof {
                assert(lines_view(lines@) =~= lines_view(before).push(lines@.last()@));
                assert(lines_view(lines@) =~= with_accounts + ver_trans_lines(
                    vds.take(i as int),
                    accounts@,
                ) + seq![ver_line(vds[i as int])]);
            }
            let ghost ver_base = lines_view(lines@);
            proof {
                assert(ver_base + vds[i as int].rows.take(0).map_values(
                    |r: RowData| trans_line(accounts@, r),
                ) =~= ver_base);
            }
            let nr = v.rows.len();
            let mut j: usize = 0;
            while j < nr
                invariant
                    j <= nr == v.rows@.len(),
                    *v == vouchers@[i as int],
                    0 <= i < vouchers@.len(),
                    vds == vouchers@.map_values(
                        |x: crate::model::Voucher| crate::reports::voucher_data(x),
                    ),
                    vds[i as int] == crate::reports::voucher_data(vouchers@[i as int]),
                    nr == vds[i as int].rows.len(),
                    lines_view(lines@) == ver_base + vds[i as int].rows.take(j as int).map_values(
                        |r: RowData| trans_line(accounts@, r),
                    ),
                decreases nr - j,
            {
                let row = &v.rows[j];
                let mut tl = String::from_str("#TRANS ");
                let number = lookup_account_number(&accounts, &row.account_id);
                crate::text::append_dec_i64(&mut tl, number);
                tl.append(" ");
                crate::text::append_dec_i64(&mut tl, row.debit_cents);
                tl.append(" ");
                crate::text::append_dec_i64(&mut tl, row.credit_cents);
                proof {
                    let d = vds[i as int];
                    let rd = d.rows[j as int];
                    assert(rd == crate::reports::row_data(vouchers@[i as int].rows@[j as int]));
                    assert(tl@ == trans_line(accounts@, rd));
                    assert(d.rows.take(j as int + 1) =~= d.rows.take(j as int).push(rd));
                    assert(d.rows.take(j as int + 1).map_values(
                        |r: RowData| trans_line(accounts@, r),
                    ) =~= d.rows.take(j as int).map_values(|r: RowData| trans_line(accounts@, r)).push(
                        trans_line(accounts@, rd),
                    ));
                    assert(ver_base + d.rows.take(j as int).map_values(
                        |r: RowData| trans_line(accounts@, r),
                    ).push(trans_line(accounts@, rd)) =~= (ver_base + d.rows.take(
                        j as int,
                    ).map_values(|r: RowData| trans_line(accounts@, r))).push(
                        trans_line(accounts@, rd),
                    ));
                }
                let ghost before = lines@;
                lines.push(tl);
                proof {
                    assert(lines_view(lines@) =~= lines_view(before).push(lines@.last()@));
                }
                j = j + 1;
            }
            proof {
                let d = vds[i as int];
                assert(d.rows.take(nr as int) =~= d.rows);
                assert(vds.take(i as int + 1).drop_last() =~= vds.take(i as int));
                assert(vds.take(i as int + 1).last() == vds[i as int]);
                assert(ver_trans_lines(vds.take(i as int + 1), accounts@) =~= ver_trans_lines(
                    vds.take(i as int),
                    accounts@,
                ) + seq![ver_line(d)] + d.rows.map_values(|r: RowData| trans_line(accounts@, r)));
                assert(lines_view(lines@) =~= with_accounts + ver_trans_lines(
                    vds.take(i as int + 1),
                    accounts@,
                ));
            }
            i = i + 1;
        }
        proof {
            assert(vds.take(nv as int) =~= vds);
            assert(lines_view(lines@) =~= sie_lines_spec(accounts@, vds));
        }
        lines
    }
}

} // verus!
