//! What each event books: which lines, on which accounts, over what, dated when.

use crate::events::EventV;
use crate::json::{list, num, opt_txt, txt, JsonV};
use crate::laws::frames::{
    keeps_opening_lots, keeps_purchase_lines, keeps_purchase_return_lines, keeps_revert_balances,
    keeps_revert_lots, keeps_sale_lines, keeps_sale_return_lines, keeps_settle,
};
use crate::laws::stock::{lemma_nested_worth, lemma_worth_is_exact, line_worth, parts_worth};
use crate::model::{
    add_expense, add_lot, add_payment, add_purchase, add_return, add_sale, adjust_lines_from,
    adjust_lot, expense_recorded, found_lines_from, given_lines_from, inventory_adjusted,
    inventory_found, invoice, named_or_role, nested_worth, opening_balances, payment, post,
    post_role, product, purchase_lines, purchase_recorded, purchase_return, purchase_return_lines,
    revert_lots, role_hit, role_id, role_of, sale_lines, sale_recorded, sale_return,
    sale_return_lines, stocked_lot, transaction_reversed, transfer_recorded, worth, Text,
};
use crate::rows::{lemma_has, lemma_place, lookup, place, Keyed};
use crate::sums::sum_over;
use crate::tables::{Expense, JournalLine, Lot, Payment, ReadModel, Return};
use crate::text::digits;
use vstd::prelude::*;

verus! {

/// The account is the first in the role.
pub open spec fn plays(m: ReadModel, account: Text, role: Text) -> bool {
    exists|i: int|
        0 <= i < m.accounts.len() && (#[trigger] m.accounts[i]).id == account && opt_txt(
            m.accounts[i].doc,
            "system_role"@,
        ) == Some(role) && forall|j: int|
            0 <= j < i ==> opt_txt((#[trigger] m.accounts[j]).doc, "system_role"@) != Some(role)
}

/// The journal line is line `index` of the event, of a transaction, over amounts, dated,
/// with a note.
pub open spec fn notes(
    l: JournalLine<Text>,
    ev: EventV,
    txn: Text,
    index: nat,
    debit: int,
    credit: int,
    date: Text,
    memo: Option<Text>,
) -> bool {
    &&& l.id == ev.id + "#"@ + digits(index)
    &&& l.event_id == ev.id
    &&& l.txn_id == txn
    &&& l.debit_minor == debit
    &&& l.credit_minor == credit
    &&& l.date == date
    &&& l.memo == memo
}

/// The journal is the old one with `n` lines behind it.
pub open spec fn grown(before: Seq<JournalLine<Text>>, after: Seq<JournalLine<Text>>, n: int) -> bool {
    after.len() == before.len() + n && after.take(before.len() as int) == before
}

/// The accounts are the same, but for their balances.
pub open spec fn same_accounts(m: ReadModel, n: ReadModel) -> bool {
    n.accounts.len() == m.accounts.len() && forall|i: int|
        0 <= i < m.accounts.len() ==> (#[trigger] n.accounts[i]).id == m.accounts[i].id
            && n.accounts[i].doc == m.accounts[i].doc
}

proof fn lemma_plays(m: ReadModel, k: ReadModel, role: Text)
    requires
        same_accounts(m, k),
        role_id(k, role) is Ok,
    ensures
        plays(m, role_id(k, role)->Ok_0, role),
{
    let i = choose|i: int| role_hit(k.accounts, role, i);
    assert(role_hit(k.accounts, role, i));
    assert(k.accounts[i].id == m.accounts[i].id);
    assert forall|j: int| 0 <= j < i implies opt_txt(
        (#[trigger] m.accounts[j]).doc,
        "system_role"@,
    ) != Some(role) by {
        assert(k.accounts[j].doc == m.accounts[j].doc);
        assert(role_of(k.accounts[j]) != Some(role));
    }
}

proof fn lemma_noted(
    m: ReadModel,
    k: ReadModel,
    ev: EventV,
    txn: Text,
    index: nat,
    account: Text,
    debit: i64,
    credit: i64,
    date: Text,
    memo: Option<Text>,
)
    requires
        same_accounts(m, k),
    ensures
        post(Ok(k), ev.id, txn, index, account, debit, credit, date, memo) matches Ok(n) ==> {
            &&& same_accounts(m, n)
            &&& n.journal.len() == k.journal.len() + 1
            &&& n.journal.drop_last() == k.journal
            &&& notes(n.journal.last(), ev, txn, index, debit as int, credit as int, date, memo)
            &&& n.journal.last().account_id == account
            &&& n.lots == k.lots
            &&& n.items == k.items
        },
{
    lemma_has(k.accounts, account);
    if let Ok(n) = post(Ok(k), ev.id, txn, index, account, debit, credit, date, memo) {
        assert(n.journal.drop_last() =~= k.journal);
        assert forall|i: int| 0 <= i < m.accounts.len() implies (#[trigger] n.accounts[i]).id
            == m.accounts[i].id && n.accounts[i].doc == m.accounts[i].doc by {
            assert(k.accounts[i].id == m.accounts[i].id);
        }
    }
}

proof fn lemma_noted_role(
    m: ReadModel,
    k: ReadModel,
    ev: EventV,
    txn: Text,
    index: nat,
    role: Text,
    debit: i64,
    credit: i64,
    date: Text,
)
    requires
        same_accounts(m, k),
    ensures
        post_role(Ok(k), ev.id, txn, index, role, debit, credit, date) matches Ok(n) ==> {
            &&& same_accounts(m, n)
            &&& n.journal.len() == k.journal.len() + 1
            &&& n.journal.drop_last() == k.journal
            &&& notes(n.journal.last(), ev, txn, index, debit as int, credit as int, date, None)
            &&& plays(m, n.journal.last().account_id, role)
            &&& n.lots == k.lots
            &&& n.items == k.items
        },
{
    if let Ok(account) = role_id(k, role) {
        lemma_plays(m, k, role);
        lemma_noted(m, k, ev, txn, index, account, debit, credit, date, None);
    }
}

// ---- purchases and sales ----

/// A purchase debits inventory with what its lines cost, and credits payables where it is
/// on credit, the bank where it is not; both lines carry the date of the purchase.
pub proof fn law_purchases_are_booked(m: ReadModel, ev: EventV)
    requires
        purchase_recorded(m, ev) is Ok,
    ensures
        ({
            let n = purchase_recorded(m, ev)->Ok_0;
            let at = m.journal.len() as int;
            let p = ev.payload;
            let id = txt(p, "purchaseId"@);
            let date = txt(p, "date"@);
            let cost = sum_over(list(p, "lines"@), line_worth("qty"@, "unitCostMinor"@));
            &&& grown(m.journal, n.journal, 2)
            &&& notes(n.journal[at], ev, id, 0, cost, 0, date, None)
            &&& plays(m, n.journal[at].account_id, "inventory"@)
            &&& notes(n.journal[at + 1], ev, id, 1, 0, cost, date, None)
            &&& txt(p, "terms"@) == "credit"@ ==> plays(
                m,
                n.journal[at + 1].account_id,
                "accounts_payable"@,
            )
            &&& txt(p, "terms"@) != "credit"@ ==> plays(m, n.journal[at + 1].account_id, "bank"@)
        }),
{
    let n = purchase_recorded(m, ev)->Ok_0;
    let p = ev.payload;
    let id = txt(p, "purchaseId"@);
    let date = txt(p, "date"@);
    let lines = list(p, "lines"@);
    let total = worth(lines, "qty"@, "unitCostMinor"@)->0;
    lemma_worth_is_exact(lines, "qty"@, "unitCostMinor"@);
    let o = add_purchase(Ok(m), invoice(ev, id, opt_txt(p, "supplierId"@), total));
    keeps_purchase_lines(o->Ok_0, ev, lines, 0);
    let k0 = purchase_lines(o, ev, lines)->Ok_0;
    let r1 = "inventory"@;
    let o1 = post_role(Ok(k0), ev.id, id, 0, r1, total, 0, date);
    lemma_noted_role(m, k0, ev, id, 0, r1, total, 0, date);
    let k1 = o1->Ok_0;
    let r2 = if txt(p, "terms"@) == "credit"@ {
        "accounts_payable"@
    } else {
        "bank"@
    };
    lemma_noted_role(m, k1, ev, id, 1, r2, 0, total, date);
    let k2 = post_role(Ok(k1), ev.id, id, 1, r2, 0, total, date)->Ok_0;
    assert(n.journal == k2.journal);
    assert(n.journal.take(m.journal.len() as int) =~= m.journal);
}

/// A sale debits receivables where it is on credit, the bank where it is not, and credits
/// sales, both with what its lines are sold for; it debits cost of goods and credits
/// inventory with what the parts of its lines cost. All lines carry the date of the sale.
pub proof fn law_sales_are_booked(m: ReadModel, ev: EventV)
    requires
        sale_recorded(m, ev) is Ok,
    ensures
        ({
            let n = sale_recorded(m, ev)->Ok_0;
            let at = m.journal.len() as int;
            let p = ev.payload;
            let id = txt(p, "saleId"@);
            let date = txt(p, "date"@);
            let lines = list(p, "lines"@);
            let revenue = sum_over(lines, line_worth("qty"@, "unitPriceMinor"@));
            let cost = sum_over(
                lines,
                parts_worth("lotConsumption"@, "qtyTaken"@, "unitCostMinor"@),
            );
            &&& grown(m.journal, n.journal, 4)
            &&& notes(n.journal[at], ev, id, 0, revenue, 0, date, None)
            &&& txt(p, "terms"@) == "credit"@ ==> plays(
                m,
                n.journal[at].account_id,
                "accounts_receivable"@,
            )
            &&& txt(p, "terms"@) != "credit"@ ==> plays(m, n.journal[at].account_id, "bank"@)
            &&& notes(n.journal[at + 1], ev, id, 1, 0, revenue, date, None)
            &&& plays(m, n.journal[at + 1].account_id, "sales"@)
            &&& notes(n.journal[at + 2], ev, id, 2, cost, 0, date, None)
            &&& plays(m, n.journal[at + 2].account_id, "cogs"@)
            &&& notes(n.journal[at + 3], ev, id, 3, 0, cost, date, None)
            &&& plays(m, n.journal[at + 3].account_id, "inventory"@)
        }),
{
    let n = sale_recorded(m, ev)->Ok_0;
    let p = ev.payload;
    let id = txt(p, "saleId"@);
    let date = txt(p, "date"@);
    let lines = list(p, "lines"@);
    let revenue = worth(lines, "qty"@, "unitPriceMinor"@)->0;
    let cogs = nested_worth(lines, "lotConsumption"@, "qtyTaken"@, "unitCostMinor"@)->0;
    lemma_worth_is_exact(lines, "qty"@, "unitPriceMinor"@);
    lemma_nested_worth(lines, "lotConsumption"@, "qtyTaken"@, "unitCostMinor"@);
    let o = add_sale(Ok(m), invoice(ev, id, opt_txt(p, "customerId"@), revenue));
    keeps_sale_lines(o->Ok_0, ev, lines, 0);
    let k0 = sale_lines(o, ev, lines)->Ok_0;
    let r0 = if txt(p, "terms"@) == "credit"@ {
        "accounts_receivable"@
    } else {
        "bank"@
    };
    lemma_noted_role(m, k0, ev, id, 0, r0, revenue, 0, date);
    let k1 = post_role(Ok(k0), ev.id, id, 0, r0, revenue, 0, date)->Ok_0;
    lemma_noted_role(m, k1, ev, id, 1, "sales"@, 0, revenue, date);
    let k2 = post_role(Ok(k1), ev.id, id, 1, "sales"@, 0, revenue, date)->Ok_0;
    lemma_noted_role(m, k2, ev, id, 2, "cogs"@, cogs, 0, date);
    let k3 = post_role(Ok(k2), ev.id, id, 2, "cogs"@, cogs, 0, date)->Ok_0;
    lemma_noted_role(m, k3, ev, id, 3, "inventory"@, 0, cogs, date);
    let k4 = post_role(Ok(k3), ev.id, id, 3, "inventory"@, 0, cogs, date)->Ok_0;
    assert(n.journal == k4.journal);
    assert(k4.journal.len() == m.journal.len() + 4);
    let at = m.journal.len() as int;
    assert(k1.journal[at] == k1.journal.last());
    assert(k2.journal[at + 1] == k2.journal.last());
    assert(k3.journal[at + 2] == k3.journal.last());
    assert(k4.journal[at + 3] == k4.journal.last());
    assert(k2.journal.drop_last()[at] == k1.journal[at]);
    assert(k3.journal.drop_last()[at] == k2.journal[at]);
    assert(k3.journal.drop_last()[at + 1] == k2.journal[at + 1]);
    assert(k4.journal.drop_last()[at] == k3.journal[at]);
    assert(k4.journal.drop_last()[at + 1] == k3.journal[at + 1]);
    assert(k4.journal.drop_last()[at + 2] == k3.journal[at + 2]);
    assert(n.journal.take(m.journal.len() as int) =~= m.journal) by {
        assert forall|i: int| 0 <= i < at implies n.journal[i] == m.journal[i] by {
            assert(k1.journal.drop_last()[i] == k0.journal[i]);
            assert(k2.journal.drop_last()[i] == k1.journal[i]);
            assert(k3.journal.drop_last()[i] == k2.journal[i]);
            assert(k4.journal.drop_last()[i] == k3.journal[i]);
        }
    }
}

// ---- payments ----

/// Money in debits the bank and credits receivables; money out debits payables and credits
/// the bank; both lines with the whole amount, dated as the payment is.
pub proof fn law_payments_are_booked(m: ReadModel, ev: EventV, incoming: bool)
    requires
        payment(m, ev, incoming) is Ok,
    ensures
        ({
            let n = payment(m, ev, incoming)->Ok_0;
            let at = m.journal.len() as int;
            let p = ev.payload;
            let id = txt(p, "paymentId"@);
            let date = txt(p, "date"@);
            let amount = num(p, "amountMinor"@) as int;
            &&& grown(m.journal, n.journal, 2)
            &&& notes(n.journal[at], ev, id, 0, amount, 0, date, None)
            &&& notes(n.journal[at + 1], ev, id, 1, 0, amount, date, None)
            &&& incoming ==> plays(m, n.journal[at].account_id, "bank"@) && plays(
                m,
                n.journal[at + 1].account_id,
                "accounts_receivable"@,
            )
            &&& !incoming ==> plays(m, n.journal[at].account_id, "accounts_payable"@) && plays(
                m,
                n.journal[at + 1].account_id,
                "bank"@,
            )
        }),
{
    let n = payment(m, ev, incoming)->Ok_0;
    let p = ev.payload;
    let id = txt(p, "paymentId"@);
    let amount = num(p, "amountMinor"@);
    let date = txt(p, "date"@);
    let party = txt(
        p,
        if incoming {
            "customerId"@
        } else {
            "supplierId"@
        },
    );
    let o = add_payment(
        Ok(m),
        Payment {
            id,
            event_id: ev.id,
            party_id: party,
            direction: if incoming {
                "in"@
            } else {
                "out"@
            },
            amount_minor: amount,
            date,
        },
    );
    let k0 = o->Ok_0;
    let r0 = if incoming {
        "bank"@
    } else {
        "accounts_payable"@
    };
    let r1 = if incoming {
        "accounts_receivable"@
    } else {
        "bank"@
    };
    lemma_noted_role(m, k0, ev, id, 0, r0, amount, 0, date);
    let k1 = post_role(Ok(k0), ev.id, id, 0, r0, amount, 0, date)->Ok_0;
    lemma_noted_role(m, k1, ev, id, 1, r1, 0, amount, date);
    let q = post_role(Ok(k1), ev.id, id, 1, r1, 0, amount, date);
    let k2 = q->Ok_0;
    keeps_settle(k2, ev, incoming, party, list(p, "allocations"@), 0);
    assert(n.journal == k2.journal);
    assert(n.journal.take(m.journal.len() as int) =~= m.journal);
}

// ---- expenses and transfers ----

/// An expense debits the account it names and credits payables where it is on credit, the
/// bank where it is not; both lines with the amount, the date and the note of the expense.
pub proof fn law_expenses_are_booked(m: ReadModel, ev: EventV)
    requires
        expense_recorded(m, ev) is Ok,
    ensures
        ({
            let n = expense_recorded(m, ev)->Ok_0;
            let at = m.journal.len() as int;
            let p = ev.payload;
            let id = txt(p, "expenseId"@);
            let date = txt(p, "date"@);
            let memo = opt_txt(p, "memo"@);
            let amount = num(p, "amountMinor"@) as int;
            &&& grown(m.journal, n.journal, 2)
            &&& notes(n.journal[at], ev, id, 0, amount, 0, date, memo)
            &&& n.journal[at].account_id == txt(p, "accountId"@)
            &&& notes(n.journal[at + 1], ev, id, 1, 0, amount, date, memo)
            &&& txt(p, "terms"@) == "credit"@ ==> plays(
                m,
                n.journal[at + 1].account_id,
                "accounts_payable"@,
            )
            &&& txt(p, "terms"@) != "credit"@ ==> plays(m, n.journal[at + 1].account_id, "bank"@)
        }),
{
    let n = expense_recorded(m, ev)->Ok_0;
    let p = ev.payload;
    let id = txt(p, "expenseId"@);
    let account = txt(p, "accountId"@);
    let amount = num(p, "amountMinor"@);
    let date = txt(p, "date"@);
    let memo = opt_txt(p, "memo"@);
    let o = add_expense(
        Ok(m),
        Expense {
            id,
            event_id: ev.id,
            account_id: account,
            amount_minor: amount,
            date,
            memo,
            terms: txt(p, "terms"@),
        },
    );
    let k0 = o->Ok_0;
    lemma_noted(m, k0, ev, id, 0, account, amount, 0, date, memo);
    let k1 = post(Ok(k0), ev.id, id, 0, account, amount, 0, date, memo)->Ok_0;
    let role = if txt(p, "terms"@) == "credit"@ {
        "accounts_payable"@
    } else {
        "bank"@
    };
    let a = role_id(k1, role)->Ok_0;
    lemma_plays(m, k1, role);
    lemma_noted(m, k1, ev, id, 1, a, 0, amount, date, memo);
    let k2 = post(Ok(k1), ev.id, id, 1, a, 0, amount, date, memo)->Ok_0;
    assert(n.journal == k2.journal);
    assert(n.journal.take(m.journal.len() as int) =~= m.journal);
}

/// A transfer debits the account it goes to and credits the one it comes from.
pub proof fn law_transfers_are_booked(m: ReadModel, ev: EventV)
    requires
        transfer_recorded(m, ev) is Ok,
    ensures
        ({
            let n = transfer_recorded(m, ev)->Ok_0;
            let at = m.journal.len() as int;
            let p = ev.payload;
            let id = txt(p, "transferId"@);
            let date = txt(p, "date"@);
            let memo = opt_txt(p, "memo"@);
            let amount = num(p, "amountMinor"@) as int;
            &&& grown(m.journal, n.journal, 2)
            &&& notes(n.journal[at], ev, id, 0, amount, 0, date, memo)
            &&& n.journal[at].account_id == txt(p, "toAccountId"@)
            &&& notes(n.journal[at + 1], ev, id, 1, 0, amount, date, memo)
            &&& n.journal[at + 1].account_id == txt(p, "fromAccountId"@)
        }),
{
    let n = transfer_recorded(m, ev)->Ok_0;
    let p = ev.payload;
    let id = txt(p, "transferId"@);
    let amount = num(p, "amountMinor"@);
    let date = txt(p, "date"@);
    let memo = opt_txt(p, "memo"@);
    lemma_noted(m, m, ev, id, 0, txt(p, "toAccountId"@), amount, 0, date, memo);
    let k1 = post(Ok(m), ev.id, id, 0, txt(p, "toAccountId"@), amount, 0, date, memo)->Ok_0;
    lemma_noted(m, k1, ev, id, 1, txt(p, "fromAccountId"@), 0, amount, date, memo);
    assert(n.journal.take(m.journal.len() as int) =~= m.journal);
}

// ---- returns ----

/// A sale return debits sales and credits receivables, or the bank where the sale names no
/// customer, with the price of what came back; it debits inventory and credits cost of
/// goods with what that cost. All lines carry the date of the return.
pub proof fn law_sale_returns_are_booked(m: ReadModel, ev: EventV)
    requires
        sale_return(m, ev) is Ok,
    ensures
        ({
            let n = sale_return(m, ev)->Ok_0;
            let at = m.journal.len() as int;
            let p = ev.payload;
            let id = txt(p, "returnId"@);
            let date = txt(p, "date"@);
            let lines = list(p, "lines"@);
            let revenue = sum_over(lines, line_worth("qty"@, "unitPriceMinor"@));
            let cost = sum_over(
                lines,
                parts_worth("lotReturns"@, "qtyReturned"@, "unitCostMinor"@),
            );
            &&& grown(m.journal, n.journal, 4)
            &&& notes(n.journal[at], ev, id, 0, revenue, 0, date, None)
            &&& plays(m, n.journal[at].account_id, "sales"@)
            &&& notes(n.journal[at + 1], ev, id, 1, 0, revenue, date, None)
            &&& lookup(m.sales, txt(p, "originalSaleId"@)) matches Some(s) && plays(
                m,
                n.journal[at + 1].account_id,
                if s.party_id is Some {
                    "accounts_receivable"@
                } else {
                    "bank"@
                },
            )
            &&& notes(n.journal[at + 2], ev, id, 2, cost, 0, date, None)
            &&& plays(m, n.journal[at + 2].account_id, "inventory"@)
            &&& notes(n.journal[at + 3], ev, id, 3, 0, cost, date, None)
            &&& plays(m, n.journal[at + 3].account_id, "cogs"@)
        }),
{
    let n = sale_return(m, ev)->Ok_0;
    let p = ev.payload;
    let id = txt(p, "returnId"@);
    let original = txt(p, "originalSaleId"@);
    let date = txt(p, "date"@);
    let lines = list(p, "lines"@);
    let revenue = worth(lines, "qty"@, "unitPriceMinor"@)->0;
    let cost = nested_worth(lines, "lotReturns"@, "qtyReturned"@, "unitCostMinor"@)->0;
    lemma_worth_is_exact(lines, "qty"@, "unitPriceMinor"@);
    lemma_nested_worth(lines, "lotReturns"@, "qtyReturned"@, "unitCostMinor"@);
    let row = Return {
        id,
        event_id: ev.id,
        return_type: "sale_return"@,
        original_id: original,
        date,
        revenue_reversed_minor: revenue,
        cost_restored_minor: cost,
    };
    let o = add_return(Ok(m), row);
    keeps_sale_return_lines(o->Ok_0, ev, lines, 0, 0);
    let k0 = sale_return_lines(o, ev, lines)->Ok_0;
    let sale = lookup(m.sales, original)->0;
    let refund = if sale.party_id is Some {
        "accounts_receivable"@
    } else {
        "bank"@
    };
    lemma_noted_role(m, k0, ev, id, 0, "sales"@, revenue, 0, date);
    let k1 = post_role(Ok(k0), ev.id, id, 0, "sales"@, revenue, 0, date)->Ok_0;
    lemma_noted_role(m, k1, ev, id, 1, refund, 0, revenue, date);
    let k2 = post_role(Ok(k1), ev.id, id, 1, refund, 0, revenue, date)->Ok_0;
    lemma_noted_role(m, k2, ev, id, 2, "inventory"@, cost, 0, date);
    let k3 = post_role(Ok(k2), ev.id, id, 2, "inventory"@, cost, 0, date)->Ok_0;
    lemma_noted_role(m, k3, ev, id, 3, "cogs"@, 0, cost, date);
    let k4 = post_role(Ok(k3), ev.id, id, 3, "cogs"@, 0, cost, date)->Ok_0;
    assert(n.journal == k4.journal);
    let at = m.journal.len() as int;
    assert(k2.journal.drop_last()[at] == k1.journal[at]);
    assert(k3.journal.drop_last()[at] == k2.journal[at]);
    assert(k3.journal.drop_last()[at + 1] == k2.journal[at + 1]);
    assert(k4.journal.drop_last()[at] == k3.journal[at]);
    assert(k4.journal.drop_last()[at + 1] == k3.journal[at + 1]);
    assert(k4.journal.drop_last()[at + 2] == k3.journal[at + 2]);
    assert(n.journal.take(m.journal.len() as int) =~= m.journal) by {
        assert forall|i: int| 0 <= i < at implies n.journal[i] == m.journal[i] by {
            assert(k1.journal.drop_last()[i] == k0.journal[i]);
            assert(k2.journal.drop_last()[i] == k1.journal[i]);
            assert(k3.journal.drop_last()[i] == k2.journal[i]);
            assert(k4.journal.drop_last()[i] == k3.journal[i]);
        }
    }
}

/// A purchase return debits payables, or the bank where the purchase names no supplier,
/// and credits inventory, with what was given back; both lines carry the date of the
/// return.
pub proof fn law_purchase_returns_are_booked(m: ReadModel, ev: EventV)
    requires
        purchase_return(m, ev) is Ok,
    ensures
        ({
            let n = purchase_return(m, ev)->Ok_0;
            let at = m.journal.len() as int;
            let p = ev.payload;
            let id = txt(p, "returnId"@);
            let date = txt(p, "date"@);
            let cost = sum_over(list(p, "lines"@), line_worth("qty"@, "unitCostMinor"@));
            &&& grown(m.journal, n.journal, 2)
            &&& notes(n.journal[at], ev, id, 0, cost, 0, date, None)
            &&& lookup(m.purchases, txt(p, "originalPurchaseId"@)) matches Some(s) && plays(
                m,
                n.journal[at].account_id,
                if s.party_id is Some {
                    "accounts_payable"@
                } else {
                    "bank"@
                },
            )
            &&& notes(n.journal[at + 1], ev, id, 1, 0, cost, date, None)
            &&& plays(m, n.journal[at + 1].account_id, "inventory"@)
        }),
{
    let n = purchase_return(m, ev)->Ok_0;
    let p = ev.payload;
    let id = txt(p, "returnId"@);
    let original = txt(p, "originalPurchaseId"@);
    let date = txt(p, "date"@);
    let lines = list(p, "lines"@);
    let cost = worth(lines, "qty"@, "unitCostMinor"@)->0;
    lemma_worth_is_exact(lines, "qty"@, "unitCostMinor"@);
    let row = Return {
        id,
        event_id: ev.id,
        return_type: "purchase_return"@,
        original_id: original,
        date,
        revenue_reversed_minor: 0,
        cost_restored_minor: cost,
    };
    let o = add_return(Ok(m), row);
    keeps_purchase_return_lines(o->Ok_0, ev, lines, 0);
    let k0 = purchase_return_lines(o, ev, lines)->Ok_0;
    let purchase = lookup(m.purchases, original)->0;
    let refund = if purchase.party_id is Some {
        "accounts_payable"@
    } else {
        "bank"@
    };
    lemma_noted_role(m, k0, ev, id, 0, refund, cost, 0, date);
    let k1 = post_role(Ok(k0), ev.id, id, 0, refund, cost, 0, date)->Ok_0;
    lemma_noted_role(m, k1, ev, id, 1, "inventory"@, 0, cost, date);
    let k2 = post_role(Ok(k1), ev.id, id, 1, "inventory"@, 0, cost, date)->Ok_0;
    assert(n.journal == k2.journal);
    assert(n.journal.take(m.journal.len() as int) =~= m.journal);
}

// ---- stated lines ----

/// A line that an event states is posted as it is: on the account it names, with the
/// debit and the credit it gives.
pub open spec fn as_stated(
    l: JournalLine<Text>,
    ev: EventV,
    line: JsonV,
    i: int,
    date: Text,
    memo: Text,
) -> bool {
    &&& notes(
        l,
        ev,
        ev.id,
        i as nat,
        num(line, "debitMinor"@) as int,
        num(line, "creditMinor"@) as int,
        date,
        Some(memo),
    )
    &&& l.account_id == txt(line, "accountId"@)
}

proof fn lemma_given_noted(
    m: ReadModel,
    k: ReadModel,
    ev: EventV,
    lines: Seq<JsonV>,
    date: Text,
    memo: Text,
    i: int,
)
    requires
        0 <= i <= lines.len(),
        same_accounts(m, k),
        grown(m.journal, k.journal, i),
        forall|j: int|
            0 <= j < i ==> as_stated(
                #[trigger] k.journal[m.journal.len() + j],
                ev,
                lines[j],
                j,
                date,
                memo,
            ),
    ensures
        given_lines_from(k, ev, lines, date, memo, i) matches Ok(n) ==> {
            &&& grown(m.journal, n.journal, lines.len() as int)
            &&& same_accounts(m, n)
            &&& forall|j: int|
                0 <= j < lines.len() ==> as_stated(
                    #[trigger] n.journal[m.journal.len() + j],
                    ev,
                    lines[j],
                    j,
                    date,
                    memo,
                )
        },
    decreases lines.len() - i,
{
    if i < lines.len() {
        let a = txt(lines[i], "accountId"@);
        let d = num(lines[i], "debitMinor"@);
        let c = num(lines[i], "creditMinor"@);
        lemma_noted(m, k, ev, ev.id, i as nat, a, d, c, date, Some(memo));
        if let Ok(n) = post(Ok(k), ev.id, ev.id, i as nat, a, d, c, date, Some(memo)) {
            let at = m.journal.len();
            assert(n.journal.take(at as int) =~= m.journal) by {
                assert(k.journal.take(at as int) == m.journal);
                assert forall|j: int| 0 <= j < at implies n.journal[j] == m.journal[j] by {
                    assert(n.journal.drop_last()[j] == k.journal[j]);
                    assert(k.journal.take(at as int)[j] == k.journal[j]);
                }
            }
            assert forall|j: int| 0 <= j < i + 1 implies as_stated(
                #[trigger] n.journal[at + j],
                ev,
                lines[j],
                j,
                date,
                memo,
            ) by {
                if j < i {
                    assert(n.journal.drop_last()[at + j] == k.journal[at + j]);
                }
            }
            lemma_given_noted(m, n, ev, lines, date, memo, i + 1);
        }
    }
}

/// Opening balances post the lines they state, on their own date.
pub proof fn law_openings_are_booked(m: ReadModel, ev: EventV)
    requires
        opening_balances(m, ev) is Ok,
    ensures
        ({
            let n = opening_balances(m, ev)->Ok_0;
            let lines = list(ev.payload, "accountBalances"@);
            &&& grown(m.journal, n.journal, lines.len() as int)
            &&& forall|j: int|
                0 <= j < lines.len() ==> as_stated(
                    #[trigger] n.journal[m.journal.len() + j],
                    ev,
                    lines[j],
                    j,
                    txt(ev.payload, "date"@),
                    "opening balance"@,
                )
        }),
{
    let lines = list(ev.payload, "accountBalances"@);
    let date = txt(ev.payload, "date"@);
    assert(m.journal.take(m.journal.len() as int) =~= m.journal);
    lemma_given_noted(m, m, ev, lines, date, "opening balance"@, 0);
    let k = given_lines_from(m, ev, lines, date, "opening balance"@, 0)->Ok_0;
    keeps_opening_lots(k, ev, list(ev.payload, "lots"@), 0);
}

/// A reversal posts the lines it states on the date of the event that it reverses.
pub proof fn law_reversals_are_booked(m: ReadModel, log: Seq<EventV>, ev: EventV)
    requires
        transaction_reversed(m, log, ev) is Ok,
    ensures
        ({
            let n = transaction_reversed(m, log, ev)->Ok_0;
            let lines = list(ev.payload, "reversalJournalLines"@);
            &&& lookup(log, txt(ev.payload, "targetEventId"@)) is Some
            &&& grown(m.journal, n.journal, lines.len() as int)
            &&& same_accounts(m, n)
            &&& forall|j: int|
                0 <= j < lines.len() ==> as_stated(
                    #[trigger] n.journal[m.journal.len() + j],
                    ev,
                    lines[j],
                    j,
                    txt(lookup(log, txt(ev.payload, "targetEventId"@))->0.payload, "date"@),
                    "reversal"@,
                )
        }),
{
    let target = lookup(log, txt(ev.payload, "targetEventId"@))->0;
    let lines = list(ev.payload, "reversalJournalLines"@);
    let date = txt(target.payload, "date"@);
    assert(m.journal.take(m.journal.len() as int) =~= m.journal);
    lemma_given_noted(m, m, ev, lines, date, "reversal"@, 0);
    let k = given_lines_from(m, ev, lines, date, "reversal"@, 0)->Ok_0;
    keeps_revert_lots(k, target);
    let r = revert_lots(Ok(k), target)->Ok_0;
    keeps_revert_balances(r, target);
}

// ---- stock written off and found ----

/// The lots are the same, but for what is left of them.
pub open spec fn same_lots(t: Seq<Lot<Text>>, u: Seq<Lot<Text>>) -> bool {
    u.len() == t.len() && forall|i: int|
        0 <= i < t.len() ==> (#[trigger] u[i]).id == t[i].id && u[i].unit_cost_minor
            == t[i].unit_cost_minor
}

proof fn lemma_same_cost(t: Seq<Lot<Text>>, u: Seq<Lot<Text>>, lot: Text)
    requires
        same_lots(t, u),
        lookup(u, lot) is Some,
    ensures
        lookup(t, lot) matches Some(l) && l.unit_cost_minor == lookup(u, lot)->0.unit_cost_minor,
{
    lemma_has(u, lot);
    let i = place(u, lot)->0;
    assert(u[i].id == t[i].id);
    assert forall|j: int| 0 <= j < i implies (#[trigger] t[j]).key() != lot by {
        assert(u[j].id == t[j].id);
        assert(u[j].key() != lot);
    }
    lemma_place(t, lot, i);
}

/// The account is the one that the line names under a key, or, where it names none, the
/// first in the role.
pub open spec fn named_or_plays(
    m: ReadModel,
    account: Text,
    line: JsonV,
    key: Text,
    role: Text,
) -> bool {
    match opt_txt(line, key) {
        Some(a) => account == a,
        None => plays(m, account, role),
    }
}

/// A written-off line is booked: the units that go, at the cost of their lot, debited to
/// the account it names or to shrinkage, and credited to inventory.
pub open spec fn written_off(
    m: ReadModel,
    journal: Seq<JournalLine<Text>>,
    ev: EventV,
    line: JsonV,
    j: int,
) -> bool {
    let at = m.journal.len() + 2 * j;
    let id = txt(ev.payload, "adjustmentId"@);
    let date = txt(ev.payload, "date"@);
    &&& lookup(m.lots, txt(line, "lotId"@)) matches Some(l) && {
        let value = -num(line, "qtyDelta"@) * l.unit_cost_minor;
        &&& notes(journal[at], ev, id, (2 * j) as nat, value, 0, date, None)
        &&& notes(journal[at + 1], ev, id, (2 * j + 1) as nat, 0, value, date, None)
    }
    &&& named_or_plays(
        m,
        journal[at].account_id,
        line,
        "expenseAccountId"@,
        "shrinkage"@,
    )
    &&& plays(m, journal[at + 1].account_id, "inventory"@)
}

/// Lines of one step put behind a journal keep what stands in it.
proof fn lemma_grown_two(
    before: Seq<JournalLine<Text>>,
    k: Seq<JournalLine<Text>>,
    o: Seq<JournalLine<Text>>,
    n: Seq<JournalLine<Text>>,
    i: int,
)
    requires
        grown(before, k, i),
        0 <= i,
        o.len() == k.len() + 1,
        o.drop_last() == k,
        n.len() == o.len() + 1,
        n.drop_last() == o,
    ensures
        grown(before, n, i + 2),
        forall|j: int| 0 <= j < k.len() ==> #[trigger] n[j] == k[j],
        n[k.len() as int] == o.last(),
        n[k.len() as int + 1] == n.last(),
{
    assert forall|j: int| 0 <= j < k.len() implies #[trigger] n[j] == k[j] by {
        assert(n.drop_last()[j] == o[j]);
        assert(o.drop_last()[j] == k[j]);
    }
    assert(n.drop_last()[k.len() as int] == o[k.len() as int]);
    assert(n.take(before.len() as int) =~= before) by {
        assert forall|j: int| 0 <= j < before.len() implies n[j] == before[j] by {
            assert(k.take(before.len() as int)[j] == before[j]);
        }
    }
}

proof fn lemma_written_off(m: ReadModel, k: ReadModel, ev: EventV, lines: Seq<JsonV>, i: int)
    requires
        0 <= i <= lines.len(),
        same_accounts(m, k),
        same_lots(m.lots, k.lots),
        grown(m.journal, k.journal, 2 * i),
        forall|j: int| 0 <= j < i ==> written_off(m, k.journal, ev, #[trigger] lines[j], j),
        adjust_lines_from(k, ev, lines, i) is Ok,
    ensures
        ({
            let n = adjust_lines_from(k, ev, lines, i)->Ok_0;
            &&& grown(m.journal, n.journal, 2 * lines.len() as int)
            &&& forall|j: int|
                0 <= j < lines.len() ==> written_off(m, n.journal, ev, #[trigger] lines[j], j)
        }),
    decreases lines.len() - i,
{
    if i < lines.len() {
        let id = txt(ev.payload, "adjustmentId"@);
        let date = txt(ev.payload, "date"@);
        let line = lines[i];
        let lot = txt(line, "lotId"@);
        let qty = -num(line, "qtyDelta"@);
        let l = lookup(k.lots, lot)->0;
        lemma_same_cost(m.lots, k.lots, lot);
        lemma_has(k.lots, lot);
        let value = (qty * l.unit_cost_minor) as i64;
        let k1 = adjust_lot(Ok(k), lot, -qty)->Ok_0;
        assert(same_lots(m.lots, k1.lots)) by {
            assert forall|x: int| 0 <= x < m.lots.len() implies (#[trigger] k1.lots[x]).id
                == m.lots[x].id && k1.lots[x].unit_cost_minor == m.lots[x].unit_cost_minor by {
                assert(k.lots[x].id == m.lots[x].id);
            }
        }
        let account = named_or_role(k1, line, "expenseAccountId"@, "shrinkage"@)->Ok_0;
        if opt_txt(line, "expenseAccountId"@) is None {
            lemma_plays(m, k1, "shrinkage"@);
        }
        lemma_noted(m, k1, ev, id, (2 * i) as nat, account, value, 0, date, None);
        let o = post(Ok(k1), ev.id, id, (2 * i) as nat, account, value, 0, date, None)->Ok_0;
        lemma_noted_role(m, o, ev, id, (2 * i + 1) as nat, "inventory"@, 0, value, date);
        let q = post_role(Ok(o), ev.id, id, (2 * i + 1) as nat, "inventory"@, 0, value, date)->Ok_0;
        lemma_grown_two(m.journal, k.journal, o.journal, q.journal, 2 * i);
        assert forall|j: int| 0 <= j < i + 1 implies written_off(
            m,
            q.journal,
            ev,
            #[trigger] lines[j],
            j,
        ) by {
            if j < i {
                let at = m.journal.len() + 2 * j;
                assert(q.journal[at] == k.journal[at]);
                assert(q.journal[at + 1] == k.journal[at + 1]);
            }
        }
        lemma_written_off(m, q, ev, lines, i + 1);
    }
}

/// A stock write-off books every one of its lines.
pub proof fn law_write_offs_are_booked(m: ReadModel, ev: EventV)
    requires
        inventory_adjusted(m, ev) is Ok,
    ensures
        ({
            let n = inventory_adjusted(m, ev)->Ok_0;
            let lines = list(ev.payload, "lines"@);
            &&& grown(m.journal, n.journal, 2 * lines.len() as int)
            &&& forall|j: int|
                0 <= j < lines.len() ==> written_off(m, n.journal, ev, #[trigger] lines[j], j)
        }),
{
    assert(m.journal.take(m.journal.len() as int) =~= m.journal);
    lemma_written_off(m, m, ev, list(ev.payload, "lines"@), 0);
}

/// A line of found stock is booked: its units at the cost it gives, debited to inventory
/// and credited to the account it names or to the inventory gain.
pub open spec fn taken_in(
    m: ReadModel,
    journal: Seq<JournalLine<Text>>,
    ev: EventV,
    line: JsonV,
    j: int,
) -> bool {
    let at = m.journal.len() + 2 * j;
    let id = txt(ev.payload, "foundId"@);
    let date = txt(ev.payload, "date"@);
    let value = num(line, "qty"@) * num(line, "unitCostMinor"@);
    &&& notes(journal[at], ev, id, (2 * j) as nat, value, 0, date, None)
    &&& plays(m, journal[at].account_id, "inventory"@)
    &&& notes(journal[at + 1], ev, id, (2 * j + 1) as nat, 0, value, date, None)
    &&& named_or_plays(
        m,
        journal[at + 1].account_id,
        line,
        "incomeAccountId"@,
        "inventory_gain"@,
    )
}

proof fn lemma_taken_in(m: ReadModel, k: ReadModel, ev: EventV, lines: Seq<JsonV>, i: int)
    requires
        0 <= i <= lines.len(),
        same_accounts(m, k),
        grown(m.journal, k.journal, 2 * i),
        forall|j: int| 0 <= j < i ==> taken_in(m, k.journal, ev, #[trigger] lines[j], j),
        found_lines_from(k, ev, lines, i) is Ok,
    ensures
        ({
            let n = found_lines_from(k, ev, lines, i)->Ok_0;
            &&& grown(m.journal, n.journal, 2 * lines.len() as int)
            &&& forall|j: int|
                0 <= j < lines.len() ==> taken_in(m, n.journal, ev, #[trigger] lines[j], j)
        }),
    decreases lines.len() - i,
{
    if i < lines.len() {
        let id = txt(ev.payload, "foundId"@);
        let date = txt(ev.payload, "date"@);
        let line = lines[i];
        let value = product(num(line, "qty"@), num(line, "unitCostMinor"@))->0;
        let k1 = add_lot(Ok(k), stocked_lot(ev, line, None))->Ok_0;
        let account = named_or_role(k1, line, "incomeAccountId"@, "inventory_gain"@)->Ok_0;
        if opt_txt(line, "incomeAccountId"@) is None {
            lemma_plays(m, k1, "inventory_gain"@);
        }
        lemma_noted_role(m, k1, ev, id, (2 * i) as nat, "inventory"@, value, 0, date);
        let o = post_role(Ok(k1), ev.id, id, (2 * i) as nat, "inventory"@, value, 0, date)->Ok_0;
        lemma_noted(m, o, ev, id, (2 * i + 1) as nat, account, 0, value, date, None);
        let q = post(Ok(o), ev.id, id, (2 * i + 1) as nat, account, 0, value, date, None)->Ok_0;
        lemma_grown_two(m.journal, k.journal, o.journal, q.journal, 2 * i);
        assert forall|j: int| 0 <= j < i + 1 implies taken_in(
            m,
            q.journal,
            ev,
            #[trigger] lines[j],
            j,
        ) by {
            if j < i {
                let at = m.journal.len() + 2 * j;
                assert(q.journal[at] == k.journal[at]);
                assert(q.journal[at + 1] == k.journal[at + 1]);
            }
        }
        lemma_taken_in(m, q, ev, lines, i + 1);
    }
}

/// Found stock books every one of its lines.
pub proof fn law_finds_are_booked(m: ReadModel, ev: EventV)
    requires
        inventory_found(m, ev) is Ok,
    ensures
        ({
            let n = inventory_found(m, ev)->Ok_0;
            let lines = list(ev.payload, "lines"@);
            &&& grown(m.journal, n.journal, 2 * lines.len() as int)
            &&& forall|j: int|
                0 <= j < lines.len() ==> taken_in(m, n.journal, ev, #[trigger] lines[j], j)
        }),
{
    assert(m.journal.take(m.journal.len() as int) =~= m.journal);
    lemma_taken_in(m, m, ev, list(ev.payload, "lines"@), 0);
}

} // verus!
