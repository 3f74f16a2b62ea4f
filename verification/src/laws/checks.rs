//! What the reconciliation checks tell.

use crate::json::JsonV;
use crate::laws::accounts::{in_tally, journal_total, pull};
use crate::laws::double_entry::{balanced, gap, tip};
use crate::laws::parties::{net, net_total, side_drift};
use crate::laws::stock::{book, drift, entry};
use crate::model::{debit_normal, in_role, role_hit, Fault, Text};
use crate::reconciliation::{
    double_entry_from, inventory_valuation_finding, lot_value, net_payable, net_receivable,
    party_balances_finding, role_balance, stock_value, txn_credits, txn_debits, CheckOutcome,
    Finding,
};
use crate::sums::{lemma_total_is_exact, sum_over};
use crate::tables::{Account, Balance, JournalLine, Lot, ReadModel};
use vstd::prelude::*;

verus! {

/// Debits and credits, where their sums are given, differ by the gap.
proof fn lemma_gap(t: Seq<JournalLine<Text>>, txn: Text)
    ensures
        txn_debits(t, txn) matches Some(d) ==> (txn_credits(t, txn) matches Some(c) ==> gap(t, txn)
            == d - c),
    decreases t.len(),
{
    if t.len() > 0 {
        lemma_gap(t.drop_last(), txn);
        let f = |l: JournalLine<Text>| tip(l, txn);
        assert(sum_over(t, f) == sum_over(t.drop_last(), f) + f(t.last()));
    }
}

/// A transaction that no line is of has no gap.
proof fn lemma_no_lines(t: Seq<JournalLine<Text>>, txn: Text)
    requires
        forall|i: int| 0 <= i < t.len() ==> (#[trigger] t[i]).txn_id != txn,
    ensures
        gap(t, txn) == 0,
    decreases t.len(),
{
    if t.len() > 0 {
        let front = t.drop_last();
        assert forall|i: int| 0 <= i < front.len() implies (#[trigger] front[i]).txn_id != txn by {
            assert(t[i].txn_id != txn);
        }
        lemma_no_lines(front, txn);
        let f = |l: JournalLine<Text>| tip(l, txn);
        assert(t[t.len() - 1].txn_id != txn);
        assert(sum_over(t, f) == sum_over(front, f) + f(t.last()));
    }
}

proof fn lemma_passes(t: Seq<JournalLine<Text>>, i: int)
    requires
        0 <= i,
        double_entry_from(t, i) == Ok::<Finding, Fault>(CheckOutcome::Pass),
    ensures
        forall|k: int| i <= k < t.len() ==> gap(t, (#[trigger] t[k]).txn_id) == 0,
    decreases t.len() - i,
{
    if i < t.len() {
        lemma_gap(t, t[i].txn_id);
        lemma_passes(t, i + 1);
    }
}

proof fn lemma_fails_not(t: Seq<JournalLine<Text>>, i: int)
    requires
        0 <= i,
        forall|txn: Text| #[trigger] gap(t, txn) == 0,
    ensures
        !(double_entry_from(t, i) matches Ok(CheckOutcome::Fail(_))),
    decreases t.len() - i,
{
    if i < t.len() {
        lemma_gap(t, t[i].txn_id);
        assert(gap(t, t[i].txn_id) == 0);
        lemma_fails_not(t, i + 1);
    }
}

/// The double-entry check passes on balanced books alone, and fails on none of them.
pub proof fn law_double_entry_check_tells(m: ReadModel)
    ensures
        double_entry_from(m.journal, 0) == Ok::<Finding, Fault>(CheckOutcome::Pass) ==> balanced(m),
        balanced(m) ==> !(double_entry_from(m.journal, 0) matches Ok(CheckOutcome::Fail(_))),
{
    if double_entry_from(m.journal, 0) == Ok::<Finding, Fault>(CheckOutcome::Pass) {
        lemma_passes(m.journal, 0);
        assert forall|txn: Text| #[trigger] gap(m.journal, txn) == 0 by {
            if exists|i: int| 0 <= i < m.journal.len() && (#[trigger] m.journal[i]).txn_id == txn {
                let i = choose|i: int|
                    0 <= i < m.journal.len() && (#[trigger] m.journal[i]).txn_id == txn;
                assert(gap(m.journal, m.journal[i].txn_id) == 0);
            } else {
                lemma_no_lines(m.journal, txn);
            }
        }
    }
    if balanced(m) {
        lemma_fails_not(m.journal, 0);
    }
}

/// The balance of the account in a role is what the journal books on it, by its normal
/// side.
proof fn lemma_role_balance(m: ReadModel, role: Text)
    requires
        in_tally(m),
        in_role(m.accounts, role) is Some,
    ensures
        ({
            let a = in_role(m.accounts, role)->0;
            role_balance(m, role) == Ok::<i64, Fault>(a.balance_minor) && a.balance_minor == if debit_normal(
                a,
            ) {
                book(m.journal, a.id)
            } else {
                -book(m.journal, a.id)
            }
        }),
{
    let i = choose|i: int| role_hit(m.accounts, role, i);
    assert(role_hit(m.accounts, role, i));
    let a = m.accounts[i];
    assert(a.balance_minor == journal_total(a, m.journal));
    lemma_book(a, m.journal);
}

proof fn lemma_book(a: Account<Text, JsonV>, t: Seq<JournalLine<Text>>)
    ensures
        journal_total(a, t) == if debit_normal(a) {
            book(t, a.id)
        } else {
            -book(t, a.id)
        },
    decreases t.len(),
{
    if t.len() > 0 {
        lemma_book(a, t.drop_last());
        let f = |l: JournalLine<Text>| pull(a, l);
        let g = |l: JournalLine<Text>| entry(l, a.id);
        assert(sum_over(t, f) == sum_over(t.drop_last(), f) + f(t.last()));
        assert(sum_over(t, g) == sum_over(t.drop_last(), g) + g(t.last()));
    }
}

/// Where balances follow the journal and the inventory account is a debit account, the
/// inventory check passes exactly where the stock is worth what the books say.
pub proof fn law_inventory_check_tells(m: ReadModel)
    requires
        in_tally(m),
        in_role(m.accounts, "inventory"@) matches Some(a) && debit_normal(a),
        stock_value(m) is Some,
    ensures
        inventory_valuation_finding(m) == Ok::<Finding, Fault>(CheckOutcome::Pass) <==> drift(m)
            == 0,
{
    lemma_role_balance(m, "inventory"@);
    lemma_total_is_exact(m.lots, |l: Lot<Text>| lot_value(l));
}

/// The two sums over balances differ by the net total.
proof fn lemma_net(t: Seq<Balance<Text>>)
    ensures
        sum_over(t, |b: Balance<Text>| b.receivable_minor as int) - sum_over(
            t,
            |b: Balance<Text>| b.unallocated_cr_minor as int,
        ) == net_total(t, true),
        sum_over(t, |b: Balance<Text>| b.payable_minor as int) - sum_over(
            t,
            |b: Balance<Text>| b.unallocated_dr_minor as int,
        ) == net_total(t, false),
    decreases t.len(),
{
    if t.len() > 0 {
        lemma_net(t.drop_last());
        let f = |b: Balance<Text>| net(b, true);
        let g = |b: Balance<Text>| net(b, false);
        assert(sum_over(t, f) == sum_over(t.drop_last(), f) + f(t.last()));
        assert(sum_over(t, g) == sum_over(t.drop_last(), g) + g(t.last()));
    }
}

/// Where balances follow the journal, receivables are a debit account and payables are
/// not, the check of party balances passes exactly where both sides agree with the
/// books.
pub proof fn law_party_check_tells(m: ReadModel)
    requires
        in_tally(m),
        in_role(m.accounts, "accounts_receivable"@) matches Some(a) && debit_normal(a),
        in_role(m.accounts, "accounts_payable"@) matches Some(a) && !debit_normal(a),
        net_receivable(m) is Some,
        net_payable(m) is Some,
    ensures
        party_balances_finding(m) == Ok::<Finding, Fault>(CheckOutcome::Pass) <==> side_drift(
            m,
            true,
        ) == 0 && side_drift(m, false) == 0,
{
    lemma_role_balance(m, "accounts_receivable"@);
    lemma_role_balance(m, "accounts_payable"@);
    lemma_total_is_exact(m.balances, |b: Balance<Text>| b.receivable_minor as int);
    lemma_total_is_exact(m.balances, |b: Balance<Text>| b.unallocated_cr_minor as int);
    lemma_total_is_exact(m.balances, |b: Balance<Text>| b.payable_minor as int);
    lemma_total_is_exact(m.balances, |b: Balance<Text>| b.unallocated_dr_minor as int);
    lemma_net(m.balances);
}

} // verus!
