//! The ledger's global guarantees, stated on their own and proved from what
//! the operations' contracts maintain.
use vstd::prelude::*;

use crate::ledger::Ledger;
use crate::ledger::corr_rows_match;
use crate::ledger::number_range;
use crate::ledger::numbers_in_series;
use crate::ledger::row_sum_credits;
use crate::ledger::row_sum_debits;
use crate::ledger::voucher_balanced;
use crate::model::VoucherRow;

verus! {

/// In a well-formed ledger — the state every operation both requires and
/// re-establishes — every committed voucher balances: the sum of its debits
/// equals the sum of its credits. Vouchers enter the ledger only through
/// creation, which rejects an unbalanced row set, so this holds of every
/// voucher ever successfully created.
pub proof fn lemma_committed_vouchers_balance(l: Ledger)
    requires
        l.wf(),
    ensures
        forall|i: int|
            0 <= i < l.vouchers@.len() ==> row_sum_debits((#[trigger] l.vouchers@[i]).rows@)
                == row_sum_credits(l.vouchers@[i].rows@),
{
    assert forall|i: int| 0 <= i < l.vouchers@.len() implies row_sum_debits(
        (#[trigger] l.vouchers@[i]).rows@,
    ) == row_sum_credits(l.vouchers@[i].rows@) by {
        assert(voucher_balanced(l.vouchers@[i]));
    }
}

/// In a well-formed ledger, the voucher numbers committed in each series are
/// exactly `1, 2, ..., next_number - 1`, each exactly once: no gap, no
/// repeat, no number reused. Numbers are handed out only inside the creation
/// that consumes them, so this holds however creations interleave.
pub proof fn lemma_series_numbers_gapless(l: Ledger, k: int)
    requires
        l.wf(),
        0 <= k < l.series@.len(),
    ensures
        l.series@[k].next_number >= 1,
        numbers_in_series(l.vouchers@, l.series@[k].id@).to_multiset() == number_range(
            l.series@[k].next_number as int,
        ).to_multiset(),
{
}

/// The net amount a row set moves on one account: debits minus credits over
/// the rows that touch it.
pub open spec fn account_net(rows: Seq<VoucherRow>, aid: Seq<char>) -> int
    decreases rows.len(),
{
    if rows.len() == 0 {
        0
    } else {
        account_net(rows.drop_last(), aid) + if rows.last().account_id@ == aid {
            rows.last().debit_cents - rows.last().credit_cents
        } else {
            0
        }
    }
}

/// A correction reverses its original exactly: on every account, the
/// original's rows and the correction's rows net to zero together. This is
/// the defining property of a correction voucher.
pub proof fn lemma_correction_nets_to_zero(
    corr: Seq<VoucherRow>,
    orig: Seq<VoucherRow>,
    vid: Seq<char>,
    aid: Seq<char>,
)
    requires
        corr_rows_match(corr, orig, vid),
    ensures
        account_net(orig, aid) + account_net(corr, aid) == 0,
    decreases orig.len(),
{
    if orig.len() > 0 {
        assert(crate::ledger::corr_row_matches(corr.last(), orig.last(), vid));
        assert forall|j: int| 0 <= j < orig.drop_last().len() implies crate::ledger::corr_row_matches(
            #[trigger] corr.drop_last()[j],
            orig.drop_last()[j],
            vid,
        ) by {
            assert(crate::ledger::corr_row_matches(corr[j], orig[j], vid));
        }
        lemma_correction_nets_to_zero(corr.drop_last(), orig.drop_last(), vid, aid);
    }
}

/// A correction also balances on its own whenever its original does: the
/// swap turns the original's debit total into the correction's credit total
/// and the other way round.
pub proof fn lemma_correction_balances(corr: Seq<VoucherRow>, orig: Seq<VoucherRow>, vid: Seq<char>)
    requires
        corr_rows_match(corr, orig, vid),
        row_sum_debits(orig) == row_sum_credits(orig),
    ensures
        row_sum_debits(corr) == row_sum_credits(corr),
        row_sum_debits(corr) == row_sum_credits(orig),
        row_sum_credits(corr) == row_sum_debits(orig),
    decreases orig.len(),
{
    lemma_swapped_sums(corr, orig, vid);
}

/// The swap's totals, stated without assuming the original balances.
proof fn lemma_swapped_sums(corr: Seq<VoucherRow>, orig: Seq<VoucherRow>, vid: Seq<char>)
    requires
        corr_rows_match(corr, orig, vid),
    ensures
        row_sum_debits(corr) == row_sum_credits(orig),
        row_sum_credits(corr) == row_sum_debits(orig),
    decreases orig.len(),
{
    if orig.len() > 0 {
        assert(crate::ledger::corr_row_matches(corr.last(), orig.last(), vid));
        assert forall|j: int| 0 <= j < orig.drop_last().len() implies crate::ledger::corr_row_matches(
            #[trigger] corr.drop_last()[j],
            orig.drop_last()[j],
            vid,
        ) by {
            assert(crate::ledger::corr_row_matches(corr[j], orig[j], vid));
        }
        lemma_swapped_sums(corr.drop_last(), orig.drop_last(), vid);
    }
}

} // verus!
