//! Read projections over the committed ledger: the account ledger with its
//! running balance, the voucher summary list, and the plain listings. Rows
//! are ordered by date and voucher number; ties carry no further order, so
//! the contracts fix the ordering key and the multiset of what is reported.
use vstd::prelude::*;

use crate::ledger::Ledger;
use crate::ledger::row_sum_debits;
use crate::model::LedgerError;
use crate::model::LedgerRow;
use crate::model::Voucher;
use crate::model::VoucherListItem;
use crate::model::VoucherRow;
use crate::text::lex_le;
use crate::text::lemma_lex_le_total;
use crate::text::lemma_lex_le_trans;

verus! {

/// A character is determined by its code point.
proof fn chk_char(c: char, d: char)
    requires
        c as u32 == d as u32,
    ensures
        c == d,
{
}

/// Mutually comparable strings are equal: lexicographic order is
/// antisymmetric.
pub proof fn lemma_lex_le_antisym(a: Seq<char>, b: Seq<char>)
    requires
        lex_le(a, b),
        lex_le(b, a),
    ensures
        a == b,
    decreases a.len(),
{
    if a.len() == 0 {
        assert(b.len() == 0);
        assert(a =~= b);
    } else {
        assert(b.len() > 0);
        let c = a[0];
        let d = b[0];
        if c as u32 == d as u32 {
            chk_char(c, d);
            assert(c == d);
            let at = a.subrange(1, a.len() as int);
            let bt = b.subrange(1, b.len() as int);
            lemma_lex_le_antisym(at, bt);
            assert(at == bt);
            assert(at.len() == bt.len());
            assert(a.len() == b.len());
            assert forall|k: int| 0 <= k < a.len() implies a[k] == b[k] by {
                if k > 0 {
                    assert(at[k - 1] == bt[k - 1]);
                    assert(a[k] == at[k - 1]);
                    assert(b[k] == bt[k - 1]);
                }
            }
            assert(a =~= b);
        } else {
            assert((c as u32) < (d as u32));
            assert((d as u32) < (c as u32));
        }
    }
}

/// The report ordering key: by date first, then by voucher number.
pub open spec fn key_le(d1: Seq<char>, n1: int, d2: Seq<char>, n2: int) -> bool {
    if d1 == d2 {
        n1 <= n2
    } else {
        lex_le(d1, d2)
    }
}

/// The report ordering is total.
pub proof fn lemma_key_le_total(d1: Seq<char>, n1: int, d2: Seq<char>, n2: int)
    ensures
        key_le(d1, n1, d2, n2) || key_le(d2, n2, d1, n1),
{
    lemma_lex_le_total(d1, d2);
}

/// The report ordering is transitive.
pub proof fn lemma_key_le_trans(
    d1: Seq<char>,
    n1: int,
    d2: Seq<char>,
    n2: int,
    d3: Seq<char>,
    n3: int,
)
    requires
        key_le(d1, n1, d2, n2),
        key_le(d2, n2, d3, n3),
    ensures
        key_le(d1, n1, d3, n3),
{
    if d1 == d2 || d2 == d3 {
    } else {
        lemma_lex_le_trans(d1, d2, d3);
        if d1 == d3 {
            lemma_lex_le_antisym(d1, d2);
        }
    }
}

/// What one ledger report line holds, apart from its running balance.
pub struct EntryData {
    pub date: Seq<char>,
    pub number: int,
    pub description: Seq<char>,
    pub debit: int,
    pub credit: int,
}

/// The data of a collected report entry.
pub open spec fn entry_data(e: LedgerEntry) -> EntryData {
    EntryData {
        date: e.date@,
        number: e.voucher_number as int,
        description: e.description@,
        debit: e.debit_cents as int,
        credit: e.credit_cents as int,
    }
}

/// The data of a finished report line, its balance set aside.
pub open spec fn ledger_row_data(r: LedgerRow) -> EntryData {
    EntryData {
        date: r.date@,
        number: r.voucher_number as int,
        description: r.description@,
        debit: r.debit_cents as int,
        credit: r.credit_cents as int,
    }
}

/// Ordering of collected entries.
pub open spec fn entry_le(a: LedgerEntry, b: LedgerEntry) -> bool {
    key_le(a.date@, a.voucher_number as int, b.date@, b.voucher_number as int)
}

/// Ordering of report line data.
pub open spec fn data_le(a: EntryData, b: EntryData) -> bool {
    key_le(a.date, a.number, b.date, b.number)
}

/// A sequence of entries in report order.
pub open spec fn entries_sorted(s: Seq<LedgerEntry>) -> bool {
    forall|i: int, j: int| 0 <= i < j < s.len() ==> entry_le(#[trigger] s[i], #[trigger] s[j])
}

/// A date within the optional inclusive bounds of a report.
pub open spec fn in_range(date: Seq<char>, from: Option<Seq<char>>, to: Option<Seq<char>>) -> bool {
    &&& match from {
        Option::Some(f) => lex_le(f, date),
        Option::None => true,
    }
    &&& match to {
        Option::Some(t) => lex_le(date, t),
        Option::None => true,
    }
}

/// The report entries one voucher contributes for one account: one per row
/// of that account, in row order.
pub open spec fn voucher_account_entries(v: Voucher, aid: Seq<char>) -> Seq<EntryData>
    decreases v.rows@.len(),
{
    rows_account_entries(v.rows@, v.date@, v.voucher_number as int, v.description@, aid)
}

/// As `voucher_account_entries`, over an explicit row sequence.
pub open spec fn rows_account_entries(
    rows: Seq<VoucherRow>,
    date: Seq<char>,
    number: int,
    description: Seq<char>,
    aid: Seq<char>,
) -> Seq<EntryData>
    decreases rows.len(),
{
    if rows.len() == 0 {
        Seq::empty()
    } else {
        let rest = rows_account_entries(rows.drop_last(), date, number, description, aid);
        if rows.last().account_id@ == aid {
            rest.push(
                EntryData {
                    date,
                    number,
                    description,
                    debit: rows.last().debit_cents as int,
                    credit: rows.last().credit_cents as int,
                },
            )
        } else {
            rest
        }
    }
}

/// Everything the account ledger report draws on: for each stored voucher of
/// the company whose date lies in the range, in storage order, the entries
/// of its rows against the account.
pub open spec fn ledger_entries_of(
    vs: Seq<Voucher>,
    cid: Seq<char>,
    aid: Seq<char>,
    from: Option<Seq<char>>,
    to: Option<Seq<char>>,
) -> Seq<EntryData>
    decreases vs.len(),
{
    if vs.len() == 0 {
        Seq::empty()
    } else {
        let rest = ledger_entries_of(vs.drop_last(), cid, aid, from, to);
        if vs.last().company_id@ == cid && in_range(vs.last().date@, from, to) {
            rest + voucher_account_entries(vs.last(), aid)
        } else {
            rest
        }
    }
}

/// The signed sum of the first `n` entries' debits minus credits.
pub open spec fn data_net_prefix(s: Seq<EntryData>, n: int) -> int
    decreases n,
{
    if n <= 0 {
        0
    } else {
        data_net_prefix(s, n - 1) + s[n - 1].debit - s[n - 1].credit
    }
}

/// Sequence map preserves multiset equality.
pub proof fn lemma_map_multiset<A, B>(a: Seq<A>, b: Seq<A>, f: spec_fn(A) -> B)
    requires
        a.to_multiset() == b.to_multiset(),
    ensures
        a.map_values(f).to_multiset() == b.map_values(f).to_multiset(),
    decreases a.len(),
{
    broadcast use vstd::seq_lib::group_to_multiset_ensures;

    a.to_multiset_ensures();
    b.to_multiset_ensures();
    if a.len() == 0 {
        assert(b.len() == 0);
        assert(a.map_values(f) =~= b.map_values(f));
    } else {
        let x = a.last();
        let ad = a.drop_last();
        assert(ad.push(x) =~= a);
        assert(a.to_multiset().count(x) > 0);
        assert(b.contains(x));
        let i = choose|i: int| 0 <= i < b.len() && b[i] == x;
        let b2 = b.remove(i);
        assert(b2.to_multiset() =~= b.to_multiset().remove(x));
        assert(ad.to_multiset() =~= a.to_multiset().remove(x));
        lemma_map_multiset(ad, b2, f);
        assert(a.map_values(f) =~= ad.map_values(f).push(f(x)));
        assert(b2.map_values(f) =~= b.map_values(f).remove(i));
        assert(b.map_values(f)[i] == f(x));
        assert(b.map_values(f).remove(i).to_multiset() =~= b.map_values(f).to_multiset().remove(
            f(x),
        ));
        assert(b.map_values(f).to_multiset().contains(f(x)));
        assert(a.map_values(f).to_multiset() =~= ad.map_values(f).to_multiset().insert(f(x)));
        assert(b.map_values(f).to_multiset() =~= b2.map_values(f).to_multiset().insert(f(x)));
    }
}

/// Inserting between the elements below and above keeps a sequence sorted.
proof fn lemma_sorted_insert(s: Seq<LedgerEntry>, e: LedgerEntry, p: int)
    requires
        0 <= p <= s.len(),
        entries_sorted(s),
        forall|i: int| 0 <= i < p ==> entry_le(#[trigger] s[i], e),
        forall|i: int| p <= i < s.len() ==> entry_le(e, #[trigger] s[i]),
    ensures
        entries_sorted(s.insert(p, e)),
{
    let t = s.insert(p, e);
    assert forall|i: int, j: int| 0 <= i < j < t.len() implies entry_le(
        #[trigger] t[i],
        #[trigger] t[j],
    ) by {
        if i < p {
            assert(t[i] == s[i]);
        } else if i == p {
            assert(t[i] == e);
        } else {
            assert(t[i] == s[i - 1]);
        }
        if j < p {
            assert(t[j] == s[j]);
        } else if j == p {
            assert(t[j] == e);
        } else {
            assert(t[j] == s[j - 1]);
        }
    }
}

/// One collected report entry, before balances are accumulated.
pub struct LedgerEntry {
    pub date: String,
    pub voucher_number: i64,
    pub description: String,
    pub debit_cents: i64,
    pub credit_cents: i64,
}

/// Decides the report order of two collected entries.
fn entry_le_exec(a: &LedgerEntry, b: &LedgerEntry) -> (r: bool)
    ensures
        r == entry_le(*a, *b),
{
    if a.date == b.date {
        a.voucher_number <= b.voucher_number
    } else {
        crate::text::str_lex_le(a.date.as_str(), b.date.as_str())
    }
}

/// Sorts collected entries into report order, keeping exactly the same
/// entries.
#[verifier::loop_isolation(false)]
fn sort_entries(v: Vec<LedgerEntry>) -> (r: Vec<LedgerEntry>)
    ensures
        r@.to_multiset() == v@.to_multiset(),
        entries_sorted(r@),
{
    broadcast use vstd::seq_lib::group_to_multiset_ensures;
    broadcast use vstd::seq_lib::to_multiset_insert;

    let mut out: Vec<LedgerEntry> = Vec::new();
    let n = v.len();
    let mut i: usize = 0;
    proof {
        assert(v@.take(0) =~= Seq::<LedgerEntry>::empty());
        assert(out@.to_multiset() =~= v@.take(0).to_multiset());
    }
    while i < n
        invariant
            i <= n == v@.len(),
            out@.len() == i,
            entries_sorted(out@),
            out@.to_multiset() == v@.take(i as int).to_multiset(),
        decreases n - i,
    {
        let e = LedgerEntry {
            date: v[i].date.clone(),
            voucher_number: v[i].voucher_number,
            description: v[i].description.clone(),
            debit_cents: v[i].debit_cents,
            credit_cents: v[i].credit_cents,
        };
        proof {
            assert(e == v@[i as int]);
        }
        let m = out.len();
        let mut p: usize = 0;
        let mut found: bool = false;
        while p < m && !found
            invariant
                p <= m == out@.len(),
                forall|t: int| 0 <= t < p ==> entry_le(#[trigger] out@[t], e),
                found ==> p < m && entry_le(e, out@[p as int]),
            decreases m - p + (if found { 0int } else { 1int }),
        {
            if entry_le_exec(&out[p], &e) {
                p = p + 1;
            } else {
                proof {
                    lemma_key_le_total(
                        out@[p as int].date@,
                        out@[p as int].voucher_number as int,
                        e.date@,
                        e.voucher_number as int,
                    );
                }
                found = true;
            }
        }
        proof {
            assert forall|t: int| p <= t < out@.len() implies entry_le(
                e,
                #[trigger] out@[t],
            ) by {
                if t > p {
                    lemma_key_le_trans(
                        e.date@,
                        e.voucher_number as int,
                        out@[p as int].date@,
                        out@[p as int].voucher_number as int,
                        out@[t].date@,
                        out@[t].voucher_number as int,
                    );
                }
            }
            lemma_sorted_insert(out@, e, p as int);
            assert(v@.take(i as int + 1) =~= v@.take(i as int).push(v@[i as int]));
        }
        let ghost before_out = out@;
        out.insert(p, e);
        proof {
            assert(out@ == before_out.insert(p as int, e));
            vstd::seq_lib::to_multiset_insert::<LedgerEntry>(before_out, p as int, e);
        }
        i = i + 1;
    }
    proof {
        assert(v@.take(n as int) =~= v@);
    }
    out
}

impl Ledger {
    /// The ledger of one account: every row of the company's vouchers in the
    /// date range that touches the account, in date and voucher-number
    /// order, with the running signed balance (debit minus credit)
    /// accumulated from zero. Fails only when a running balance would leave
    /// the representable range.
    #[verifier::loop_isolation(false)]
    pub fn report_ledger_for_account(
        &self,
        company_id: &String,
        account_id: &String,
        from_date: &Option<String>,
        to_date: &Option<String>,
    ) -> (r: Result<Vec<LedgerRow>, LedgerError>)
        ensures
            ({
                let source = ledger_entries_of(
                    self.vouchers@,
                    company_id@,
                    account_id@,
                    crate::model::opt_view(*from_date),
                    crate::model::opt_view(*to_date),
                );
                match r {
                    Result::Ok(rows) => {
                        &&& rows@.map_values(|x: LedgerRow| ledger_row_data(x)).to_multiset()
                            == source.to_multiset()
                        &&& forall|i: int, j: int|
                            0 <= i < j < rows@.len() ==> data_le(
                                ledger_row_data(#[trigger] rows@[i]),
                                ledger_row_data(#[trigger] rows@[j]),
                            )
                        &&& forall|i: int|
                            0 <= i < rows@.len() ==> (#[trigger] rows@[i]).balance_cents
                                == data_net_prefix(
                                rows@.map_values(|x: LedgerRow| ledger_row_data(x)),
                                i + 1,
                            )
                    },
                    Result::Err(e) => {
                        &&& e == LedgerError::Infrastructure
                        &&& (exists|s: Seq<EntryData>, n: int|
                            #![trigger s.to_multiset(), data_net_prefix(s, n)]
                            {
                                &&& s.to_multiset() == source.to_multiset()
                                &&& (forall|i: int, j: int|
                                    0 <= i < j < s.len() ==> data_le(
                                        #[trigger] s[i],
                                        #[trigger] s[j],
                                    ))
                                &&& 0 < n <= s.len()
                                &&& !(i64::MIN <= data_net_prefix(s, n) <= i64::MAX)
                            })
                    },
                }
            }),
    {
        let ghost from_v = crate::model::opt_view(*from_date);
        let ghost to_v = crate::model::opt_view(*to_date);
        // Collect, in storage order, the entries the report draws on.
        let mut entries: Vec<LedgerEntry> = Vec::new();
        let nv = self.vouchers.len();
        let mut i: usize = 0;
        proof {
            assert(ledger_entries_of(self.vouchers@.take(0), company_id@, account_id@, from_v, to_v)
                =~= Seq::<EntryData>::empty());
            assert(entries@.map_values(|x: LedgerEntry| entry_data(x)) =~= Seq::<
                EntryData,
            >::empty());
        }
        while i < nv
            invariant
                i <= nv == self.vouchers@.len(),
                entries@.map_values(|x: LedgerEntry| entry_data(x)) == ledger_entries_of(
                    self.vouchers@.take(i as int),
                    company_id@,
                    account_id@,
                    from_v,
                    to_v,
                ),
            decreases nv - i,
        {
            let v = &self.vouchers[i];
            let mut selected = v.company_id == *company_id;
            if selected {
                match from_date {
                    Option::Some(f) => {
                        if !crate::text::str_lex_le(f.as_str(), v.date.as_str()) {
                            selected = false;
                        }
                    },
                    Option::None => {},
                }
            }
            if selected {
                match to_date {
                    Option::Some(t) => {
                        if !crate::text::str_lex_le(v.date.as_str(), t.as_str()) {
                            selected = false;
                        }
                    },
                    Option::None => {},
                }
            }
            proof {
                assert(self.vouchers@.take(i as int + 1).drop_last() =~= self.vouchers@.take(
                    i as int,
                ));
                assert(self.vouchers@.take(i as int + 1).last() == self.vouchers@[i as int]);
            }
            if selected {
                let nr = v.rows.len();
                let mut j: usize = 0;
                proof {
                    assert(rows_account_entries(
                        v.rows@.take(0),
                        v.date@,
                        v.voucher_number as int,
                        v.description@,
                        account_id@,
                    ) =~= Seq::<EntryData>::empty());
                    assert(entries@.map_values(|x: LedgerEntry| entry_data(x)) + Seq::<
                        EntryData,
                    >::empty() =~= entries@.map_values(|x: LedgerEntry| entry_data(x)));
                }
                let ghost base = entries@.map_values(|x: LedgerEntry| entry_data(x));
                while j < nr
                    invariant
                        j <= nr == v.rows@.len(),
                        *v == self.vouchers@[i as int],
                        0 <= i < self.vouchers@.len(),
                        entries@.map_values(|x: LedgerEntry| entry_data(x)) == base
                            + rows_account_entries(
                            v.rows@.take(j as int),
                            v.date@,
                            v.voucher_number as int,
                            v.description@,
                            account_id@,
                        ),
                    decreases nr - j,
                {
                    proof {
                        assert(v.rows@.take(j as int + 1).drop_last() =~= v.rows@.take(j as int));
                        assert(v.rows@.take(j as int + 1).last() == v.rows@[j as int]);
                    }
                    let row = &v.rows[j];
                    if row.account_id == *account_id {
                        let ghost before = entries@;
                        entries.push(
                            LedgerEntry {
                                date: v.date.clone(),
                                voucher_number: v.voucher_number,
                                description: v.description.clone(),
                                debit_cents: row.debit_cents,
                                credit_cents: row.credit_cents,
                            },
                        );
                        proof {
                            let f = |x: LedgerEntry| entry_data(x);
                            let d = entry_data(entries@.last());
                            assert(entries@.map_values(f) =~= before.map_values(f).push(d));
                            assert(base + rows_account_entries(
                                v.rows@.take(j as int),
                                v.date@,
                                v.voucher_number as int,
                                v.description@,
                                account_id@,
                            ).push(d) =~= (base + rows_account_entries(
                                v.rows@.take(j as int),
                                v.date@,
                                v.voucher_number as int,
                                v.description@,
                                account_id@,
                            )).push(d));
                        }
                    }
                    j = j + 1;
                }
                proof {
                    assert(v.rows@.take(nr as int) =~= v.rows@);
                    assert(entries@.map_values(|x: LedgerEntry| entry_data(x)) == base
                        + voucher_account_entries(self.vouchers@[i as int], account_id@));
                    assert(self.vouchers@[i as int].company_id@ == company_id@);
                    assert(in_range(self.vouchers@[i as int].date@, from_v, to_v));
                    assert(ledger_entries_of(
                        self.vouchers@.take(i as int + 1),
                        company_id@,
                        account_id@,
                        from_v,
                        to_v,
                    ) == base + voucher_account_entries(self.vouchers@[i as int], account_id@));
                }
            } else {
                proof {
                    assert(!(self.vouchers@[i as int].company_id@ == company_id@ && in_range(
                        self.vouchers@[i as int].date@,
                        from_v,
                        to_v,
                    )));
                    assert(ledger_entries_of(
                        self.vouchers@.take(i as int + 1),
                        company_id@,
                        account_id@,
                        from_v,
                        to_v,
                    ) == ledger_entries_of(
                        self.vouchers@.take(i as int),
                        company_id@,
                        account_id@,
                        from_v,
                        to_v,
                    ));
                }
            }
            i = i + 1;
        }
        proof {
            assert(self.vouchers@.take(nv as int) =~= self.vouchers@);
        }
        let ghost source = ledger_entries_of(self.vouchers@, company_id@, account_id@, from_v, to_v);

        let sorted = sort_entries(entries);
        proof {
            lemma_map_multiset(sorted@, entries@, |x: LedgerEntry| entry_data(x));
        }

        // Accumulate the running balance, refusing to leave the i64 range.
        let mut rows: Vec<LedgerRow> = Vec::new();
        let ns = sorted.len();
        let mut bal: i128 = 0;
        let mut k: usize = 0;
        while k < ns
            invariant
                k <= ns == sorted@.len(),
                rows@.len() == k,
                forall|t: int|
                    0 <= t < k ==> ledger_row_data(#[trigger] rows@[t]) == entry_data(sorted@[t]),
                bal == data_net_prefix(
                    sorted@.map_values(|x: LedgerEntry| entry_data(x)),
                    k as int,
                ),
                i64::MIN <= bal <= i64::MAX,
                forall|t: int|
                    0 <= t < k ==> (#[trigger] rows@[t]).balance_cents == data_net_prefix(
                        sorted@.map_values(|x: LedgerEntry| entry_data(x)),
                        t + 1,
                    ),
            decreases ns - k,
        {
            let e = &sorted[k];
            let next: i128 = bal + (e.debit_cents as i128) - (e.credit_cents as i128);
            if next < (i64::MIN as i128) || next > (i64::MAX as i128) {
                proof {
                    let s = sorted@.map_values(|x: LedgerEntry| entry_data(x));
                    assert(s.to_multiset() == source.to_multiset());
                    assert forall|a: int, b: int| 0 <= a < b < s.len() implies data_le(
                        #[trigger] s[a],
                        #[trigger] s[b],
                    ) by {
                        assert(entry_le(sorted@[a], sorted@[b]));
                    }
                    assert(data_net_prefix(s, k as int + 1) == next);
                    assert(!(i64::MIN <= data_net_prefix(s, k as int + 1) <= i64::MAX));
                }
                return Result::Err(LedgerError::Infrastructure);
            }
            rows.push(
                LedgerRow {
                    date: e.date.clone(),
                    voucher_number: e.voucher_number,
                    description: e.description.clone(),
                    debit_cents: e.debit_cents,
                    credit_cents: e.credit_cents,
                    balance_cents: next as i64,
                },
            );
            bal = next;
            k = k + 1;
        }
        proof {
            let rd = rows@.map_values(|x: LedgerRow| ledger_row_data(x));
            let sd = sorted@.map_values(|x: LedgerEntry| entry_data(x));
            assert(rd =~= sd);
        }
        Result::Ok(rows)
    }
}

/// The data of one stored voucher row.
pub struct RowData {
    pub id: Seq<char>,
    pub account_id: Seq<char>,
    pub description: Option<Seq<char>>,
    pub debit: int,
    pub credit: int,
    pub vat_code: Option<Seq<char>>,
}

/// The data of one stored voucher, rows included.
pub struct VoucherData {
    pub id: Seq<char>,
    pub company_id: Seq<char>,
    pub series_id: Seq<char>,
    pub number: int,
    pub date: Seq<char>,
    pub description: Seq<char>,
    pub counterparty: Option<Seq<char>>,
    pub created_at: Seq<char>,
    pub created_by: Seq<char>,
    pub posted_at: Option<Seq<char>>,
    pub rows: Seq<RowData>,
}

/// The data of a stored row.
pub open spec fn row_data(r: VoucherRow) -> RowData {
    RowData {
        id: r.id@,
        account_id: r.account_id@,
        description: crate::model::opt_view(r.description),
        debit: r.debit_cents as int,
        credit: r.credit_cents as int,
        vat_code: crate::model::opt_view(r.vat_code),
    }
}

/// The data of a stored voucher.
pub open spec fn voucher_data(v: Voucher) -> VoucherData {
    VoucherData {
        id: v.id@,
        company_id: v.company_id@,
        series_id: v.series_id@,
        number: v.voucher_number as int,
        date: v.date@,
        description: v.description@,
        counterparty: crate::model::opt_view(v.counterparty),
        created_at: v.created_at@,
        created_by: v.created_by@,
        posted_at: crate::model::opt_view(v.posted_at),
        rows: v.rows@.map_values(|r: VoucherRow| row_data(r)),
    }
}

/// The company's vouchers whose date lies in the range, as data, in storage
/// order.
pub open spec fn selected_vouchers_data(
    vs: Seq<Voucher>,
    cid: Seq<char>,
    from: Option<Seq<char>>,
    to: Option<Seq<char>>,
) -> Seq<VoucherData>
    decreases vs.len(),
{
    if vs.len() == 0 {
        Seq::empty()
    } else {
        let rest = selected_vouchers_data(vs.drop_last(), cid, from, to);
        if vs.last().company_id@ == cid && in_range(vs.last().date@, from, to) {
            rest.push(voucher_data(vs.last()))
        } else {
            rest
        }
    }
}

/// Ordering of vouchers in report order.
pub open spec fn voucher_le(a: Voucher, b: Voucher) -> bool {
    key_le(a.date@, a.voucher_number as int, b.date@, b.voucher_number as int)
}

/// Ordering of voucher data in report order.
pub open spec fn voucher_data_le(a: VoucherData, b: VoucherData) -> bool {
    key_le(a.date, a.number, b.date, b.number)
}

/// Decides the report order of two vouchers.
fn voucher_le_exec(a: &Voucher, b: &Voucher) -> (r: bool)
    ensures
        r == voucher_le(*a, *b),
{
    if a.date == b.date {
        a.voucher_number <= b.voucher_number
    } else {
        crate::text::str_lex_le(a.date.as_str(), b.date.as_str())
    }
}

/// Inserting between the elements below and above keeps vouchers sorted.
proof fn lemma_sorted_insert_voucher(s: Seq<Voucher>, e: Voucher, p: int)
    requires
        0 <= p <= s.len(),
        forall|i: int, j: int| 0 <= i < j < s.len() ==> voucher_le(#[trigger] s[i], #[trigger] s[j]),
        forall|i: int| 0 <= i < p ==> voucher_le(#[trigger] s[i], e),
        forall|i: int| p <= i < s.len() ==> voucher_le(e, #[trigger] s[i]),
    ensures
        forall|i: int, j: int|
            0 <= i < j < s.insert(p, e).len() ==> voucher_le(
                #[trigger] s.insert(p, e)[i],
                #[trigger] s.insert(p, e)[j],
            ),
{
    let t = s.insert(p, e);
    assert forall|i: int, j: int| 0 <= i < j < t.len() implies voucher_le(
        #[trigger] t[i],
        #[trigger] t[j],
    ) by {
        if i < p {
            assert(t[i] == s[i]);
        } else if i == p {
            assert(t[i] == e);
        } else {
            assert(t[i] == s[i - 1]);
        }
        if j < p {
            assert(t[j] == s[j]);
        } else if j == p {
            assert(t[j] == e);
        } else {
            assert(t[j] == s[j - 1]);
        }
    }
}

/// Sorts vouchers into report order, keeping exactly the same vouchers.
#[verifier::loop_isolation(false)]
fn sort_vouchers(v: Vec<Voucher>) -> (r: Vec<Voucher>)
    ensures
        r@.to_multiset() == v@.to_multiset(),
        forall|i: int, j: int| 0 <= i < j < r@.len() ==> voucher_le(#[trigger] r@[i], #[trigger] r@[j]),
{
    broadcast use vstd::seq_lib::group_to_multiset_ensures;

    let ghost v0 = v@;
    let mut rest = v;
    let mut out: Vec<Voucher> = Vec::new();
    proof {
        assert(out@.to_multiset().add(rest@.to_multiset()) =~= v0.to_multiset());
    }
    while rest.len() > 0
        invariant
            out@.to_multiset().add(rest@.to_multiset()) == v0.to_multiset(),
            forall|a: int, b: int|
                0 <= a < b < out@.len() ==> voucher_le(#[trigger] out@[a], #[trigger] out@[b]),
        decreases rest@.len(),
    {
        let ghost rest0 = rest@;
        let e = match rest.pop() {
            Option::Some(e) => e,
            Option::None => {
                proof {
                    assert(false);
                }
                return out;
            },
        };
        proof {
            assert(rest0.drop_last().push(e) =~= rest0);
            assert(rest0.to_multiset() == rest@.to_multiset().insert(e));
        }
        let m = out.len();
        let mut p: usize = 0;
        let mut found: bool = false;
        while p < m && !found
            invariant
                p <= m == out@.len(),
                forall|t: int| 0 <= t < p ==> voucher_le(#[trigger] out@[t], e),
                found ==> p < m && voucher_le(e, out@[p as int]),
            decreases m - p + (if found { 0int } else { 1int }),
        {
            if voucher_le_exec(&out[p], &e) {
                p = p + 1;
            } else {
                proof {
                    lemma_key_le_total(
                        out@[p as int].date@,
                        out@[p as int].voucher_number as int,
                        e.date@,
                        e.voucher_number as int,
                    );
                }
                found = true;
            }
        }
        proof {
            assert forall|t: int| p <= t < out@.len() implies voucher_le(
                e,
                #[trigger] out@[t],
            ) by {
                if t > p {
                    lemma_key_le_trans(
                        e.date@,
                        e.voucher_number as int,
                        out@[p as int].date@,
                        out@[p as int].voucher_number as int,
                        out@[t].date@,
                        out@[t].voucher_number as int,
                    );
                }
            }
            lemma_sorted_insert_voucher(out@, e, p as int);
        }
        let ghost before_out = out@;
        out.insert(p, e);
        proof {
            vstd::seq_lib::to_multiset_insert::<Voucher>(before_out, p as int, e);
            assert(out@.to_multiset().add(rest@.to_multiset()) =~= before_out.to_multiset().insert(
                e,
            ).add(rest@.to_multiset()));
        }
    }
    proof {
        assert(rest@.to_multiset().len() == 0);
        assert(out@.to_multiset() =~= out@.to_multiset().add(rest@.to_multiset()));
    }
    out
}

/// The data of one line of the voucher summary report.
pub struct ItemData {
    pub id: Seq<char>,
    pub number: int,
    pub date: Seq<char>,
    pub description: Seq<char>,
    pub total: int,
}

/// Total debit of row data.
pub open spec fn rows_data_debit_sum(rows: Seq<RowData>) -> int
    decreases rows.len(),
{
    if rows.len() == 0 {
        0
    } else {
        rows_data_debit_sum(rows.drop_last()) + rows.last().debit
    }
}

/// The summary line a voucher's data yields: its total debit as its amount.
pub open spec fn item_of(d: VoucherData) -> ItemData {
    ItemData {
        id: d.id,
        number: d.number,
        date: d.date,
        description: d.description,
        total: rows_data_debit_sum(d.rows),
    }
}

/// The data of a finished summary line.
pub open spec fn item_data(it: VoucherListItem) -> ItemData {
    ItemData {
        id: it.id@,
        number: it.voucher_number as int,
        date: it.date@,
        description: it.description@,
        total: it.total_cents as int,
    }
}

/// Row data sums the same debits as the rows it came from.
proof fn lemma_rows_data_sum(rows: Seq<VoucherRow>)
    ensures
        rows_data_debit_sum(rows.map_values(|r: VoucherRow| row_data(r))) == row_sum_debits(rows),
    decreases rows.len(),
{
    let f = |r: VoucherRow| row_data(r);
    if rows.len() == 0 {
        assert(rows.map_values(f) =~= Seq::<RowData>::empty());
    } else {
        lemma_rows_data_sum(rows.drop_last());
        assert(rows.map_values(f).drop_last() =~= rows.drop_last().map_values(f));
        assert(rows.map_values(f).last() == row_data(rows.last()));
    }
}

impl Ledger {
    /// Collects duplicates of the company's vouchers whose date lies in the
    /// range, in storage order.
    #[verifier::loop_isolation(false)]
    fn collect_vouchers(
        &self,
        company_id: &String,
        from_date: &Option<String>,
        to_date: &Option<String>,
    ) -> (r: Vec<Voucher>)
        ensures
            r@.map_values(|x: Voucher| voucher_data(x)) == selected_vouchers_data(
                self.vouchers@,
                company_id@,
                crate::model::opt_view(*from_date),
                crate::model::opt_view(*to_date),
            ),
    {
        let ghost from_v = crate::model::opt_view(*from_date);
        let ghost to_v = crate::model::opt_view(*to_date);
        let mut r: Vec<Voucher> = Vec::new();
        let nv = self.vouchers.len();
        let mut i: usize = 0;
        proof {
            assert(selected_vouchers_data(self.vouchers@.take(0), company_id@, from_v, to_v)
                =~= Seq::<VoucherData>::empty());
            assert(r@.map_values(|x: Voucher| voucher_data(x)) =~= Seq::<VoucherData>::empty());
        }
        while i < nv
            invariant
                i <= nv == self.vouchers@.len(),
                r@.map_values(|x: Voucher| voucher_data(x)) == selected_vouchers_data(
                    self.vouchers@.take(i as int),
                    company_id@,
                    from_v,
                    to_v,
                ),
            decreases nv - i,
        {
            let v = &self.vouchers[i];
            let mut selected = v.company_id == *company_id;
            if selected {
                match from_date {
                    Option::Some(f) => {
                        if !crate::text::str_lex_le(f.as_str(), v.date.as_str()) {
                            selected = false;
                        }
                    },
                    Option::None => {},
                }
            }
            if selected {
                match to_date {
                    Option::Some(t) => {
                        if !crate::text::str_lex_le(v.date.as_str(), t.as_str()) {
                            selected = false;
                        }
                    },
                    Option::None => {},
                }
            }
            proof {
                assert(self.vouchers@.take(i as int + 1).drop_last() =~= self.vouchers@.take(
                    i as int,
                ));
                assert(self.vouchers@.take(i as int + 1).last() == self.vouchers@[i as int]);
            }
            if selected {
                let ghost before = r@;
                r.push(crate::ledger::clone_voucher(v));
                proof {
                    let f = |x: Voucher| voucher_data(x);
                    assert(crate::ledger::voucher_alike(r@.last(), self.vouchers@[i as int]));
                    assert(r@.last().rows@ == self.vouchers@[i as int].rows@);
                    assert(voucher_data(r@.last()) == voucher_data(self.vouchers@[i as int]));
                    assert(r@.map_values(f) =~= before.map_values(f).push(voucher_data(r@.last())));
                }
            }
            i = i + 1;
        }
        proof {
            assert(self.vouchers@.take(nv as int) =~= self.vouchers@);
        }
        r
    }

    /// The company's vouchers in the optional date range, each with its rows
    /// and attachments, newest first: ordered by date and voucher number,
    /// descending.
    #[verifier::loop_isolation(false)]
    pub fn list_vouchers(
        &self,
        company_id: &String,
        from_date: &Option<String>,
        to_date: &Option<String>,
    ) -> (r: Vec<Voucher>)
        ensures
            r@.map_values(|x: Voucher| voucher_data(x)).to_multiset() == selected_vouchers_data(
                self.vouchers@,
                company_id@,
                crate::model::opt_view(*from_date),
                crate::model::opt_view(*to_date),
            ).to_multiset(),
            forall|i: int, j: int|
                0 <= i < j < r@.len() ==> voucher_le(#[trigger] r@[j], #[trigger] r@[i]),
    {
        let collected = self.collect_vouchers(company_id, from_date, to_date);
        let ghost collected0 = collected@;
        let mut sorted = sort_vouchers(collected);
        proof {
            lemma_map_multiset(sorted@, collected0, |x: Voucher| voucher_data(x));
        }
        let ghost sorted0 = sorted@;
        let mut r: Vec<Voucher> = Vec::new();
        while sorted.len() > 0
            invariant
                r@.len() + sorted@.len() == sorted0.len(),
                sorted@ == sorted0.take(sorted@.len() as int),
                forall|t: int| 0 <= t < r@.len() ==> #[trigger] r@[t] == sorted0[sorted0.len() - 1 - t],
            decreases sorted@.len(),
        {
            let ghost before = sorted@;
            match sorted.pop() {
                Option::Some(e) => {
                    r.push(e);
                    proof {
                        assert(before.drop_last() =~= sorted0.take(sorted@.len() as int));
                    }
                },
                Option::None => {
                    proof {
                        assert(false);
                    }
                },
            }
        }
        proof {
            let f = |x: Voucher| voucher_data(x);
            assert(r@ =~= sorted0.reverse());
            sorted0.lemma_reverse_to_multiset();
            lemma_map_multiset(r@, sorted0, f);
            assert forall|i: int, j: int| 0 <= i < j < r@.len() implies voucher_le(
                #[trigger] r@[j],
                #[trigger] r@[i],
            ) by {
                assert(r@[i] == sorted0[sorted0.len() - 1 - i]);
                assert(r@[j] == sorted0[sorted0.len() - 1 - j]);
            }
        }
        r
    }

    /// The voucher summary of a company in the optional date range: one line
    /// per voucher, its total debit as its amount, ordered by date and
    /// voucher number. Fails only when a voucher's total debit would leave
    /// the representable range.
    #[verifier::loop_isolation(false)]
    pub fn report_voucher_list(
        &self,
        company_id: &String,
        from_date: &Option<String>,
        to_date: &Option<String>,
    ) -> (r: Result<Vec<VoucherListItem>, LedgerError>)
        ensures
            ({
                let source = selected_vouchers_data(
                    self.vouchers@,
                    company_id@,
                    crate::model::opt_view(*from_date),
                    crate::model::opt_view(*to_date),
                );
                match r {
                    Result::Ok(items) => {
                        &&& items@.map_values(|x: VoucherListItem| item_data(x)).to_multiset()
                            == source.map_values(|d: VoucherData| item_of(d)).to_multiset()
                        &&& forall|i: int, j: int|
                            0 <= i < j < items@.len() ==> key_le(
                                (#[trigger] items@[i]).date@,
                                items@[i].voucher_number as int,
                                (#[trigger] items@[j]).date@,
                                items@[j].voucher_number as int,
                            )
                    },
                    Result::Err(e) => {
                        &&& e == LedgerError::Infrastructure
                        &&& exists|d: VoucherData|
                            source.contains(d) && !(i64::MIN <= rows_data_debit_sum(#[trigger] d.rows)
                                <= i64::MAX)
                    },
                }
            }),
    {
        broadcast use vstd::seq_lib::group_to_multiset_ensures;

        let ghost source = selected_vouchers_data(
            self.vouchers@,
            company_id@,
            crate::model::opt_view(*from_date),
            crate::model::opt_view(*to_date),
        );
        let collected = self.collect_vouchers(company_id, from_date, to_date);
        let ghost collected0 = collected@;
        let sorted = sort_vouchers(collected);
        proof {
            lemma_map_multiset(sorted@, collected0, |x: Voucher| voucher_data(x));
        }
        let mut items: Vec<VoucherListItem> = Vec::new();
        let n = sorted.len();
        let mut k: usize = 0;
        while k < n
            invariant
                k <= n == sorted@.len(),
                items@.len() == k,
                forall|t: int|
                    0 <= t < k ==> #[trigger] item_data(items@[t]) == item_of(
                        voucher_data(sorted@[t]),
                    ),
            decreases n - k,
        {
            let v = &sorted[k];
            let nr = v.rows.len();
            let mut total: i128 = 0;
            let mut j: usize = 0;
            while j < nr
                invariant
                    j <= nr == v.rows@.len(),
                    *v == sorted@[k as int],
                    0 <= k < sorted@.len(),
                    total == row_sum_debits(v.rows@.take(j as int)),
                    -0x8000_0000_0000_0000 * (j as int) <= total <= 0x7fff_ffff_ffff_ffff * (
                    j as int),
                decreases nr - j,
            {
                proof {
                    assert((j as int) * 0x7fff_ffff_ffff_ffff <= 0xffff_ffff_ffff_ffff
                        * 0x7fff_ffff_ffff_ffff && (j as int) * -0x8000_0000_0000_0000
                        >= 0xffff_ffff_ffff_ffff * -0x8000_0000_0000_0000) by (nonlinear_arith)
                        requires
                            0 <= j as int <= 0xffff_ffff_ffff_ffff,
                    ;
                    assert(v.rows@.take(j as int + 1).drop_last() =~= v.rows@.take(j as int));
                    assert(v.rows@.take(j as int + 1).last() == v.rows@[j as int]);
                }
                total = total + (v.rows[j].debit_cents as i128);
                j = j + 1;
            }
            proof {
                assert(v.rows@.take(nr as int) =~= v.rows@);
                lemma_rows_data_sum(v.rows@);
            }
            if total < (i64::MIN as i128) || total > (i64::MAX as i128) {
                proof {
                    let d = voucher_data(sorted@[k as int]);
                    assert(sorted@.map_values(|x: Voucher| voucher_data(x))[k as int] == d);
                    assert(sorted@.map_values(|x: Voucher| voucher_data(x)).contains(d));
                    assert(source.to_multiset().count(d) > 0);
                    assert(source.contains(d));
                    assert(!(i64::MIN <= rows_data_debit_sum(d.rows) <= i64::MAX));
                }
                return Result::Err(LedgerError::Infrastructure);
            }
            items.push(
                VoucherListItem {
                    id: v.id.clone(),
                    voucher_number: v.voucher_number,
                    date: v.date.clone(),
                    description: v.description.clone(),
                    total_cents: total as i64,
                },
            );
            k = k + 1;
        }
        proof {
            let fi = |x: VoucherListItem| item_data(x);
            let fv = |x: Voucher| voucher_data(x);
            let fo = |d: VoucherData| item_of(d);
            assert(items@.map_values(fi) =~= sorted@.map_values(fv).map_values(fo));
            lemma_map_multiset(sorted@.map_values(fv), source, fo);
            assert forall|i: int, j: int| 0 <= i < j < items@.len() implies key_le(
                (#[trigger] items@[i]).date@,
                items@[i].voucher_number as int,
                (#[trigger] items@[j]).date@,
                items@[j].voucher_number as int,
            ) by {
                assert(voucher_le(sorted@[i], sorted@[j]));
                assert(item_data(items@[i]) == item_of(voucher_data(sorted@[i])));
                assert(item_data(items@[j]) == item_of(voucher_data(sorted@[j])));
                assert(items@[i].date@ == sorted@[i].date@);
                assert(items@[j].date@ == sorted@[j].date@);
            }
        }
        Result::Ok(items)
    }
}

/// Duplicates an account; every field carries over exactly.
fn clone_account(a: &crate::model::Account) -> (r: crate::model::Account)
    ensures
        r == *a,
{
    crate::model::Account {
        id: a.id.clone(),
        company_id: a.company_id.clone(),
        number: a.number,
        name: a.name.clone(),
        account_type: a.account_type.clone(),
        vat_code: crate::model::opt_clone(&a.vat_code),
        is_active: a.is_active,
        created_at: a.created_at.clone(),
    }
}

/// Duplicates a period lock; every field carries over exactly.
fn clone_lock(l: &crate::model::PeriodLock) -> (r: crate::model::PeriodLock)
    ensures
        r == *l,
{
    crate::model::PeriodLock {
        id: l.id.clone(),
        company_id: l.company_id.clone(),
        period_start: l.period_start.clone(),
        period_end: l.period_end.clone(),
        locked_at: l.locked_at.clone(),
        locked_by: l.locked_by.clone(),
    }
}

/// The company's accounts, in storage order.
pub open spec fn selected_accounts(s: Seq<crate::model::Account>, cid: Seq<char>) -> Seq<
    crate::model::Account,
>
    decreases s.len(),
{
    if s.len() == 0 {
        Seq::empty()
    } else {
        let rest = selected_accounts(s.drop_last(), cid);
        if s.last().company_id@ == cid {
            rest.push(s.last())
        } else {
            rest
        }
    }
}

/// The company's period locks, in storage order.
pub open spec fn selected_locks(s: Seq<crate::model::PeriodLock>, cid: Seq<char>) -> Seq<
    crate::model::PeriodLock,
>
    decreases s.len(),
{
    if s.len() == 0 {
        Seq::empty()
    } else {
        let rest = selected_locks(s.drop_last(), cid);
        if s.last().company_id@ == cid {
            rest.push(s.last())
        } else {
            rest
        }
    }
}

/// The company's voucher series, in storage order.
pub open spec fn selected_series(s: Seq<crate::model::VoucherSeries>, cid: Seq<char>) -> Seq<
    crate::model::VoucherSeries,
>
    decreases s.len(),
{
    if s.len() == 0 {
        Seq::empty()
    } else {
        let rest = selected_series(s.drop_last(), cid);
        if s.last().company_id@ == cid {
            rest.push(s.last())
        } else {
            rest
        }
    }
}

impl Ledger {
    /// Every company, in storage order.
    #[verifier::loop_isolation(false)]
    pub fn list_companies(&self) -> (r: Vec<crate::model::Company>)
        ensures
            r@ == self.companies@,
    {
        let mut r: Vec<crate::model::Company> = Vec::new();
        let n = self.companies.len();
        let mut i: usize = 0;
        while i < n
            invariant
                i <= n == self.companies@.len(),
                r@ =~= self.companies@.take(i as int),
            decreases n - i,
        {
            let c = &self.companies[i];
            r.push(
                crate::model::Company {
                    id: c.id.clone(),
                    name: c.name.clone(),
                    org_number: crate::model::opt_clone(&c.org_number),
                    fiscal_year_start: c.fiscal_year_start.clone(),
                    fiscal_year_end: c.fiscal_year_end.clone(),
                    created_at: c.created_at.clone(),
                },
            );
            proof {
                assert(r@ =~= self.companies@.take(i as int + 1));
            }
            i = i + 1;
        }
        proof {
            assert(self.companies@.take(n as int) =~= self.companies@);
        }
        r
    }

    /// The company's voucher series, in storage order.
    #[verifier::loop_isolation(false)]
    pub fn list_voucher_series(&self, company_id: &String) -> (r: Vec<crate::model::VoucherSeries>)
        ensures
            r@ == selected_series(self.series@, company_id@),
    {
        let mut r: Vec<crate::model::VoucherSeries> = Vec::new();
        let n = self.series.len();
        let mut i: usize = 0;
        proof {
            assert(selected_series(self.series@.take(0), company_id@) =~= Seq::<
                crate::model::VoucherSeries,
            >::empty());
        }
        while i < n
            invariant
                i <= n == self.series@.len(),
                r@ == selected_series(self.series@.take(i as int), company_id@),
            decreases n - i,
        {
            proof {
                assert(self.series@.take(i as int + 1).drop_last() =~= self.series@.take(i as int));
                assert(self.series@.take(i as int + 1).last() == self.series@[i as int]);
            }
            let s = &self.series[i];
            if s.company_id == *company_id {
                r.push(
                    crate::model::VoucherSeries {
                        id: s.id.clone(),
                        company_id: s.company_id.clone(),
                        code: s.code.clone(),
                        description: s.description.clone(),
                        next_number: s.next_number,
                    },
                );
                proof {
                    assert(r@ =~= r@.drop_last().push(self.series@[i as int]));
                }
            }
            i = i + 1;
        }
        proof {
            assert(self.series@.take(n as int) =~= self.series@);
        }
        r
    }

    /// The company's accounts ordered by account number, ascending.
    #[verifier::loop_isolation(false)]
    pub fn list_accounts(&self, company_id: &String) -> (r: Vec<crate::model::Account>)
        ensures
            r@.to_multiset() == selected_accounts(self.accounts@, company_id@).to_multiset(),
            forall|i: int, j: int|
                0 <= i < j < r@.len() ==> (#[trigger] r@[i]).number <= (#[trigger] r@[j]).number,
    {
        broadcast use vstd::seq_lib::group_to_multiset_ensures;

        let mut out: Vec<crate::model::Account> = Vec::new();
        let n = self.accounts.len();
        let mut i: usize = 0;
        proof {
            assert(selected_accounts(self.accounts@.take(0), company_id@) =~= Seq::<
                crate::model::Account,
            >::empty());
            assert(out@.to_multiset() =~= selected_accounts(
                self.accounts@.take(0),
                company_id@,
            ).to_multiset());
        }
        while i < n
            invariant
                i <= n == self.accounts@.len(),
                out@.to_multiset() == selected_accounts(
                    self.accounts@.take(i as int),
                    company_id@,
                ).to_multiset(),
                forall|a: int, b: int|
                    0 <= a < b < out@.len() ==> (#[trigger] out@[a]).number <= (
                    #[trigger] out@[b]).number,
            decreases n - i,
        {
            proof {
                assert(self.accounts@.take(i as int + 1).drop_last() =~= self.accounts@.take(
                    i as int,
                ));
                assert(self.accounts@.take(i as int + 1).last() == self.accounts@[i as int]);
            }
            let a = &self.accounts[i];
            if a.company_id == *company_id {
                let e = clone_account(a);
                let m = out.len();
                let mut p: usize = 0;
                let mut found: bool = false;
                while p < m && !found
                    invariant
                        p <= m == out@.len(),
                        forall|t: int| 0 <= t < p ==> (#[trigger] out@[t]).number <= e.number,
                        found ==> p < m && e.number <= out@[p as int].number,
                    decreases m - p + (if found { 0int } else { 1int }),
                {
                    if out[p].number <= e.number {
                        p = p + 1;
                    } else {
                        found = true;
                    }
                }
                let ghost before_out = out@;
                out.insert(p, e);
                proof {
                    vstd::seq_lib::to_multiset_insert::<crate::model::Account>(
                        before_out,
                        p as int,
                        e,
                    );
                    assert forall|x: int, y: int|
                        0 <= x < y < out@.len() implies (#[trigger] out@[x]).number <= (
                    #[trigger] out@[y]).number by {
                        if x < p {
                            assert(out@[x] == before_out[x]);
                        } else if x == p {
                            assert(out@[x] == e);
                        } else {
                            assert(out@[x] == before_out[x - 1]);
                        }
                        if y < p {
                            assert(out@[y] == before_out[y]);
                        } else if y == p {
                            assert(out@[y] == e);
                        } else {
                            assert(out@[y] == before_out[y - 1]);
                        }
                    }
                }
            }
            i = i + 1;
        }
        proof {
            assert(self.accounts@.take(n as int) =~= self.accounts@);
        }
        out
    }

    /// The company's period locks ordered by period start, newest first.
    #[verifier::loop_isolation(false)]
    pub fn list_period_locks(&self, company_id: &String) -> (r: Vec<crate::model::PeriodLock>)
        ensures
            r@.to_multiset() == selected_locks(self.locks@, company_id@).to_multiset(),
            forall|i: int, j: int|
                0 <= i < j < r@.len() ==> lex_le(
                    (#[trigger] r@[j]).period_start@,
                    (#[trigger] r@[i]).period_start@,
                ),
    {
        broadcast use vstd::seq_lib::group_to_multiset_ensures;

        let mut out: Vec<crate::model::PeriodLock> = Vec::new();
        let n = self.locks.len();
        let mut i: usize = 0;
        proof {
            assert(selected_locks(self.locks@.take(0), company_id@) =~= Seq::<
                crate::model::PeriodLock,
            >::empty());
            assert(out@.to_multiset() =~= selected_locks(
                self.locks@.take(0),
                company_id@,
            ).to_multiset());
        }
        while i < n
            invariant
                i <= n == self.locks@.len(),
                out@.to_multiset() == selected_locks(
                    self.locks@.take(i as int),
                    company_id@,
                ).to_multiset(),
                forall|a: int, b: int|
                    0 <= a < b < out@.len() ==> lex_le(
                        (#[trigger] out@[b]).period_start@,
                        (#[trigger] out@[a]).period_start@,
                    ),
            decreases n - i,
        {
            proof {
                assert(self.locks@.take(i as int + 1).drop_last() =~= self.locks@.take(i as int));
                assert(self.locks@.take(i as int + 1).last() == self.locks@[i as int]);
            }
            let l = &self.locks[i];
            if l.company_id == *company_id {
                let e = clone_lock(l);
                let m = out.len();
                let mut p: usize = 0;
                let mut found: bool = false;
                while p < m && !found
                    invariant
                        p <= m == out@.len(),
                        forall|t: int|
                            0 <= t < p ==> lex_le(e.period_start@, (#[trigger] out@[t]).period_start@),
                        found ==> p < m && lex_le(out@[p as int].period_start@, e.period_start@),
                    decreases m - p + (if found { 0int } else { 1int }),
                {
                    if crate::text::str_lex_le(e.period_start.as_str(), out[p].period_start.as_str()) {
                        p = p + 1;
                    } else {
                        proof {
                            lemma_lex_le_total(out@[p as int].period_start@, e.period_start@);
                        }
                        found = true;
                    }
                }
                proof {
                    assert forall|t: int| p <= t < out@.len() implies lex_le(
                        (#[trigger] out@[t]).period_start@,
                        e.period_start@,
                    ) by {
                        if t > p {
                            lemma_lex_le_trans(
                                out@[t].period_start@,
                                out@[p as int].period_start@,
                                e.period_start@,
                            );
                        }
                    }
                }
                let ghost before_out = out@;
                out.insert(p, e);
                proof {
                    vstd::seq_lib::to_multiset_insert::<crate::model::PeriodLock>(
                        before_out,
                        p as int,
                        e,
                    );
                    assert forall|x: int, y: int|
                        0 <= x < y < out@.len() implies lex_le(
                        (#[trigger] out@[y]).period_start@,
                        (#[trigger] out@[x]).period_start@,
                    ) by {
                        if x < p {
                            assert(out@[x] == before_out[x]);
                        } else if x == p {
                            assert(out@[x] == e);
                        } else {
                            assert(out@[x] == before_out[x - 1]);
                        }
                        if y < p {
                            assert(out@[y] == before_out[y]);
                        } else if y == p {
                            assert(out@[y] == e);
                        } else {
                            assert(out@[y] == before_out[y - 1]);
                        }
                    }
                }
            }
            i = i + 1;
        }
        proof {
            assert(self.locks@.take(n as int) =~= self.locks@);
        }
        out
    }
}

} // verus!