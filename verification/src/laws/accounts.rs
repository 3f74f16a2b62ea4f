//! Account balances follow the journal.

use crate::events::EventV;
use crate::json::{list, num, opt_txt, txt, JsonV};
use crate::laws::double_entry::{
    gap, given_tip, law_events_keep_the_balance, lemma_types, stated_lines,
};
use crate::laws::frames::{
    keeps_allocate, keeps_opening_lots, keeps_purchase_lines, keeps_purchase_return_lines,
    keeps_revert_balances, keeps_revert_lots, keeps_sale_lines, keeps_sale_return_lines,
    keeps_settle,
};
use crate::model::{
    account_opened, account_updated, add_expense, add_lot, add_payment, add_purchase, add_return,
    add_sale, adjust_lines_from, adjust_lot, adjust_outstanding, adjust_party, debit_normal,
    expense_recorded, found_lines_from, given_lines_from, invoice, journal_line, named_or_role,
    nested_worth, on_credit, opening_balances, patched, payment, post, post_role, product, project,
    purchase_lines, purchase_recorded, purchase_return, purchase_return_lines, revert_lots, role_id,
    sale_lines, sale_recorded, sale_return, sale_return_lines, settle, signed, stocked_lot,
    transaction_reversed, transfer_recorded, worth, Outcome, Text,
};
use crate::rows::{distinct, lemma_has, lemma_place, lookup, place, Keyed};
use crate::sums::sum_over;
use crate::tables::{Account, Expense, JournalLine, Payment, ReadModel, Return};
use vstd::prelude::*;

verus! {

/// By how much a journal line moves an account.
pub open spec fn pull(a: Account<Text, JsonV>, l: JournalLine<Text>) -> int {
    if l.account_id == a.id {
        signed(a, l.debit_minor, l.credit_minor)
    } else {
        0
    }
}

/// By how much a journal moves an account.
pub open spec fn journal_total(a: Account<Text, JsonV>, journal: Seq<JournalLine<Text>>) -> int {
    sum_over(journal, |l: JournalLine<Text>| pull(a, l))
}

/// Account ids occur once, and every balance is what the journal adds up to.
pub open spec fn in_tally(m: ReadModel) -> bool {
    &&& distinct(m.accounts)
    &&& forall|i: int|
        0 <= i < m.accounts.len() ==> (#[trigger] m.accounts[i]).balance_minor == journal_total(
            m.accounts[i],
            m.journal,
        )
}

/// A journal with further lines, all of one event and one transaction.
pub open spec fn lines_added(
    journal: Seq<JournalLine<Text>>,
    event: Text,
    txn: Text,
    after: Seq<JournalLine<Text>>,
) -> bool {
    &&& journal.len() <= after.len()
    &&& after.take(journal.len() as int) == journal
    &&& forall|i: int|
        journal.len() <= i < after.len() ==> (#[trigger] after[i]).event_id == event
            && after[i].txn_id == txn
}

/// The lines that a journal has beyond another.
pub open spec fn new_lines(
    journal: Seq<JournalLine<Text>>,
    after: Seq<JournalLine<Text>>,
) -> Seq<JournalLine<Text>> {
    after.skip(journal.len() as int)
}

/// An account with its balance moved by some lines.
pub open spec fn pulled(
    a: Account<Text, JsonV>,
    lines: Seq<JournalLine<Text>>,
    after: Account<Text, JsonV>,
) -> bool {
    after.id == a.id && after.balance_minor == a.balance_minor + journal_total(a, lines)
}

/// Lines of one event and one transaction were entered: the journal has them behind its
/// old ones, every account moved by what they add up to on it, and nothing else of any
/// account changed.
pub open spec fn entered(m: ReadModel, event: Text, txn: Text, n: ReadModel) -> bool {
    &&& lines_added(m.journal, event, txn, n.journal)
    &&& n.accounts.len() == m.accounts.len()
    &&& forall|i: int|
        0 <= i < m.accounts.len() ==> pulled(
            m.accounts[i],
            new_lines(m.journal, n.journal),
            #[trigger] n.accounts[i],
        ) && n.accounts[i].doc == m.accounts[i].doc
}

/// Lines were entered by some steps, unless these failed.
pub open spec fn entered_after(m: ReadModel, event: Text, txn: Text, o: Outcome) -> bool {
    o matches Ok(n) ==> entered(m, event, txn, n)
}

/// No line entered yet.
proof fn lemma_none_entered(m: ReadModel, event: Text, txn: Text)
    ensures
        entered(m, event, txn, m),
{
    assert(m.journal.take(m.journal.len() as int) =~= m.journal);
    assert(new_lines(m.journal, m.journal) =~= Seq::empty());
}

/// The total of a journal depends on the account's id and normal side alone.
proof fn lemma_same_total(
    a: Account<Text, JsonV>,
    b: Account<Text, JsonV>,
    journal: Seq<JournalLine<Text>>,
)
    requires
        a.id == b.id,
        debit_normal(a) == debit_normal(b),
    ensures
        journal_total(a, journal) == journal_total(b, journal),
    decreases journal.len(),
{
    if journal.len() > 0 {
        lemma_same_total(a, b, journal.drop_last());
        let f = |l: JournalLine<Text>| pull(a, l);
        let g = |l: JournalLine<Text>| pull(b, l);
        assert(sum_over(journal, f) == sum_over(journal.drop_last(), f) + f(journal.last()));
        assert(sum_over(journal, g) == sum_over(journal.drop_last(), g) + g(journal.last()));
    }
}

/// One more line moves the total by its pull.
proof fn lemma_total_push(
    a: Account<Text, JsonV>,
    journal: Seq<JournalLine<Text>>,
    l: JournalLine<Text>,
)
    ensures
        journal_total(a, journal.push(l)) == journal_total(a, journal) + pull(a, l),
{
    let f = |l: JournalLine<Text>| pull(a, l);
    assert(journal.push(l).drop_last() =~= journal);
    assert(sum_over(journal.push(l), f) == sum_over(journal, f) + f(l));
}

broadcast proof fn lemma_post(
    m: ReadModel,
    o: Outcome,
    event: Text,
    txn: Text,
    index: nat,
    account: Text,
    debit: i64,
    credit: i64,
    date: Text,
    memo: Option<Text>,
)
    requires
        distinct(m.accounts),
        entered_after(m, event, txn, o),
    ensures
        #[trigger] entered_after(
            m,
            event,
            txn,
            post(o, event, txn, index, account, debit, credit, date, memo),
        ),
{
    let p = post(o, event, txn, index, account, debit, credit, date, memo);
    if let Ok(k) = o {
        if let Ok(n) = p {
            let line = journal_line(event, txn, index, account, debit, credit, date, memo);
            let had = new_lines(m.journal, k.journal);
            lemma_has(k.accounts, account);
            assert(n.journal == k.journal.push(line));
            assert(n.journal.take(m.journal.len() as int) =~= m.journal) by {
                assert(k.journal.take(m.journal.len() as int) == m.journal);
            }
            assert(new_lines(m.journal, n.journal) =~= had.push(line));
            assert forall|i: int| 0 <= i < m.accounts.len() implies pulled(
                m.accounts[i],
                new_lines(m.journal, n.journal),
                #[trigger] n.accounts[i],
            ) && n.accounts[i].doc == m.accounts[i].doc by {
                let a = m.accounts[i];
                let b = k.accounts[i];
                assert(pulled(a, had, b) && b.doc == a.doc);
                lemma_total_push(a, had, line);
                if b.id == account {
                    assert forall|j: int| 0 <= j < i implies (#[trigger] k.accounts[j]).key()
                        != account by {
                        assert(m.accounts[j].key() != m.accounts[i].key());
                        assert(pulled(m.accounts[j], had, k.accounts[j]));
                    }
                    lemma_place(k.accounts, account, i);
                }
            }
        }
    }
}

broadcast proof fn lemma_post_role(
    m: ReadModel,
    o: Outcome,
    event: Text,
    txn: Text,
    index: nat,
    role: Text,
    debit: i64,
    credit: i64,
    date: Text,
)
    requires
        distinct(m.accounts),
        entered_after(m, event, txn, o),
    ensures
        #[trigger] entered_after(
            m,
            event,
            txn,
            post_role(o, event, txn, index, role, debit, credit, date),
        ),
{
    if let Ok(k) = o {
        if let Ok(account) = role_id(k, role) {
            lemma_post(m, Ok(k), event, txn, index, account, debit, credit, date, None);
        }
    }
}

broadcast proof fn lemma_adjust_party(
    m: ReadModel,
    event: Text,
    txn: Text,
    o: Outcome,
    party: Text,
    receivable: int,
    payable: int,
    credit: int,
    debit: int,
)
    ensures
        entered_after(m, event, txn, o) ==> #[trigger] entered_after(
            m,
            event,
            txn,
            adjust_party(o, party, receivable, payable, credit, debit),
        ),
{
}

broadcast proof fn lemma_adjust_outstanding(
    m: ReadModel,
    event: Text,
    txn: Text,
    o: Outcome,
    sale: bool,
    id: Text,
    delta: int,
)
    ensures
        entered_after(m, event, txn, o) ==> #[trigger] entered_after(
            m,
            event,
            txn,
            adjust_outstanding(o, sale, id, delta),
        ),
{
}

proof fn lemma_given_lines(
    m0: ReadModel,
    m: ReadModel,
    ev: EventV,
    lines: Seq<JsonV>,
    date: Text,
    memo: Text,
    i: int,
)
    requires
        0 <= i,
        distinct(m0.accounts),
        entered(m0, ev.id, ev.id, m),
    ensures
        entered_after(m0, ev.id, ev.id, given_lines_from(m, ev, lines, date, memo, i)),
    decreases lines.len() - i,
{
    if i < lines.len() {
        let o = post(
            Ok(m),
            ev.id,
            ev.id,
            i as nat,
            txt(lines[i], "accountId"@),
            num(lines[i], "debitMinor"@),
            num(lines[i], "creditMinor"@),
            date,
            Some(memo),
        );
        lemma_post(
            m0,
            Ok(m),
            ev.id,
            ev.id,
            i as nat,
            txt(lines[i], "accountId"@),
            num(lines[i], "debitMinor"@),
            num(lines[i], "creditMinor"@),
            date,
            Some(memo),
        );
        assert(entered_after(m0, ev.id, ev.id, Ok(m)));
        if let Ok(n) = o {
            lemma_given_lines(m0, n, ev, lines, date, memo, i + 1);
        }
    }
}

proof fn lemma_adjust_lines(m0: ReadModel, m: ReadModel, ev: EventV, lines: Seq<JsonV>, i: int)
    requires
        0 <= i,
        distinct(m0.accounts),
        entered(m0, ev.id, txt(ev.payload, "adjustmentId"@), m),
    ensures
        entered_after(m0, ev.id, txt(ev.payload, "adjustmentId"@), adjust_lines_from(m, ev, lines, i)),
    decreases lines.len() - i,
{
    broadcast use {lemma_post, lemma_post_role};

    if i < lines.len() && adjust_lines_from(m, ev, lines, i) is Ok {
        let id = txt(ev.payload, "adjustmentId"@);
        let date = txt(ev.payload, "date"@);
        let line = lines[i];
        let lot = txt(line, "lotId"@);
        let qty = -num(line, "qtyDelta"@);
        let l = lookup(m.lots, lot)->0;
        let value = (qty * l.unit_cost_minor) as i64;
        let k = adjust_lot(Ok(m), lot, -qty)->Ok_0;
        let account = named_or_role(k, line, "expenseAccountId"@, "shrinkage"@)->Ok_0;
        let start: Outcome = Ok(k);
        let o = post(start, ev.id, id, (2 * i) as nat, account, value, 0, date, None);
        let p = post_role(o, ev.id, id, (2 * i + 1) as nat, "inventory"@, 0, value, date);
        assert(entered_after(m0, ev.id, txt(ev.payload, "adjustmentId"@), start));
        assert(entered_after(m0, ev.id, txt(ev.payload, "adjustmentId"@), o));
        assert(entered_after(m0, ev.id, txt(ev.payload, "adjustmentId"@), p));
        lemma_adjust_lines(m0, p->Ok_0, ev, lines, i + 1);
    }
}

proof fn lemma_found_lines(m0: ReadModel, m: ReadModel, ev: EventV, lines: Seq<JsonV>, i: int)
    requires
        0 <= i,
        distinct(m0.accounts),
        entered(m0, ev.id, txt(ev.payload, "foundId"@), m),
    ensures
        entered_after(m0, ev.id, txt(ev.payload, "foundId"@), found_lines_from(m, ev, lines, i)),
    decreases lines.len() - i,
{
    broadcast use {lemma_post, lemma_post_role};

    if i < lines.len() && found_lines_from(m, ev, lines, i) is Ok {
        let id = txt(ev.payload, "foundId"@);
        let date = txt(ev.payload, "date"@);
        let line = lines[i];
        let value = product(num(line, "qty"@), num(line, "unitCostMinor"@))->0;
        let k = add_lot(Ok(m), stocked_lot(ev, line, None))->Ok_0;
        let account = named_or_role(k, line, "incomeAccountId"@, "inventory_gain"@)->Ok_0;
        let start: Outcome = Ok(k);
        let o = post_role(start, ev.id, id, (2 * i) as nat, "inventory"@, value, 0, date);
        let p = post(o, ev.id, id, (2 * i + 1) as nat, account, 0, value, date, None);
        assert(entered_after(m0, ev.id, txt(ev.payload, "foundId"@), start));
        assert(entered_after(m0, ev.id, txt(ev.payload, "foundId"@), o));
        assert(entered_after(m0, ev.id, txt(ev.payload, "foundId"@), p));
        lemma_found_lines(m0, p->Ok_0, ev, lines, i + 1);
    }
}

proof fn lemma_purchase(m: ReadModel, ev: EventV)
    requires
        distinct(m.accounts),
    ensures
        entered_after(m, ev.id, txt(ev.payload, "purchaseId"@), purchase_recorded(m, ev)),
{
    broadcast use {lemma_post_role, lemma_adjust_party};

    lemma_none_entered(m, ev.id, txt(ev.payload, "purchaseId"@));
    if purchase_recorded(m, ev) is Ok {
        let p = ev.payload;
        let lines = list(p, "lines"@);
        let total = worth(lines, "qty"@, "unitCostMinor"@)->0;
        let o = add_purchase(
            Ok(m),
            invoice(ev, txt(p, "purchaseId"@), opt_txt(p, "supplierId"@), total),
        );
        keeps_purchase_lines(o->Ok_0, ev, lines, 0);
        assert(entered_after(m, ev.id, txt(ev.payload, "purchaseId"@), purchase_lines(o, ev, lines)));
        assert(entered_after(m, ev.id, txt(ev.payload, "purchaseId"@), purchase_recorded(m, ev)));
    }
}

proof fn lemma_sale(m: ReadModel, ev: EventV)
    requires
        distinct(m.accounts),
    ensures
        entered_after(m, ev.id, txt(ev.payload, "saleId"@), sale_recorded(m, ev)),
{
    broadcast use {lemma_post_role, lemma_adjust_party};

    lemma_none_entered(m, ev.id, txt(ev.payload, "saleId"@));
    if sale_recorded(m, ev) is Ok {
        let p = ev.payload;
        let lines = list(p, "lines"@);
        let revenue = worth(lines, "qty"@, "unitPriceMinor"@)->0;
        let o = add_sale(
            Ok(m),
            invoice(ev, txt(p, "saleId"@), opt_txt(p, "customerId"@), revenue),
        );
        keeps_sale_lines(o->Ok_0, ev, lines, 0);
        assert(entered_after(m, ev.id, txt(ev.payload, "saleId"@), sale_lines(o, ev, lines)));
        assert(entered_after(m, ev.id, txt(ev.payload, "saleId"@), sale_recorded(m, ev)));
    }
}

proof fn lemma_payment(m: ReadModel, ev: EventV, incoming: bool)
    requires
        distinct(m.accounts),
    ensures
        entered_after(m, ev.id, txt(ev.payload, "paymentId"@), payment(m, ev, incoming)),
{
    broadcast use {lemma_post_role, lemma_adjust_party};

    lemma_none_entered(m, ev.id, txt(ev.payload, "paymentId"@));
    if payment(m, ev, incoming) is Ok {
        let p = ev.payload;
        let id = txt(p, "paymentId"@);
        let amount = num(p, "amountMinor"@);
        let date = txt(p, "date"@);
        let party = txt(
            p,
            if incoming {
                "customerId"@
            } else {
                "supplierId"@
            },
        );
        let o = add_payment(
            Ok(m),
            Payment {
                id,
                event_id: ev.id,
                party_id: party,
                direction: if incoming {
                    "in"@
                } else {
                    "out"@
                },
                amount_minor: amount,
                date,
            },
        );
        let q = if incoming {
            post_role(
                post_role(o, ev.id, id, 0, "bank"@, amount, 0, date),
                ev.id,
                id,
                1,
                "accounts_receivable"@,
                0,
                amount,
                date,
            )
        } else {
            post_role(
                post_role(o, ev.id, id, 0, "accounts_payable"@, amount, 0, date),
                ev.id,
                id,
                1,
                "bank"@,
                0,
                amount,
                date,
            )
        };
        assert(entered_after(m, ev.id, txt(ev.payload, "paymentId"@), o));
        assert(entered_after(m, ev.id, txt(ev.payload, "paymentId"@), q));
        let parts = list(p, "allocations"@);
        keeps_settle(q->Ok_0, ev, incoming, party, parts, 0);
        assert(entered_after(m, ev.id, txt(ev.payload, "paymentId"@), settle(q, ev, incoming, party, parts)));
        assert(entered_after(m, ev.id, txt(ev.payload, "paymentId"@), payment(m, ev, incoming)));
    }
}

proof fn lemma_expense(m: ReadModel, ev: EventV)
    requires
        distinct(m.accounts),
    ensures
        entered_after(m, ev.id, txt(ev.payload, "expenseId"@), expense_recorded(m, ev)),
{
    broadcast use {lemma_post, lemma_adjust_party};

    lemma_none_entered(m, ev.id, txt(ev.payload, "expenseId"@));
    if expense_recorded(m, ev) is Ok {
        let p = ev.payload;
        let id = txt(p, "expenseId"@);
        let account = txt(p, "accountId"@);
        let amount = num(p, "amountMinor"@);
        let date = txt(p, "date"@);
        let memo = opt_txt(p, "memo"@);
        let o = add_expense(
            Ok(m),
            Expense {
                id,
                event_id: ev.id,
                account_id: account,
                amount_minor: amount,
                date,
                memo,
                terms: txt(p, "terms"@),
            },
        );
        let q = post(o, ev.id, id, 0, account, amount, 0, date, memo);
        assert(entered_after(m, ev.id, txt(ev.payload, "expenseId"@), o));
        assert(entered_after(m, ev.id, txt(ev.payload, "expenseId"@), q));
        let role = if on_credit(p) {
            "accounts_payable"@
        } else {
            "bank"@
        };
        let a = role_id(q->Ok_0, role)->Ok_0;
        let k: Outcome = Ok(q->Ok_0);
        let r = post(k, ev.id, id, 1, a, 0, amount, date, memo);
        assert(entered_after(m, ev.id, txt(ev.payload, "expenseId"@), k));
        assert(entered_after(m, ev.id, txt(ev.payload, "expenseId"@), r));
        assert(entered_after(m, ev.id, txt(ev.payload, "expenseId"@), expense_recorded(m, ev)));
    }
}

proof fn lemma_transfer(m: ReadModel, ev: EventV)
    requires
        distinct(m.accounts),
    ensures
        entered_after(m, ev.id, txt(ev.payload, "transferId"@), transfer_recorded(m, ev)),
{
    broadcast use lemma_post;

    lemma_none_entered(m, ev.id, txt(ev.payload, "transferId"@));
    let p = ev.payload;
    let id = txt(p, "transferId"@);
    let amount = num(p, "amountMinor"@);
    let date = txt(p, "date"@);
    let memo = opt_txt(p, "memo"@);
    let start: Outcome = Ok(m);
    let o = post(start, ev.id, id, 0, txt(p, "toAccountId"@), amount, 0, date, memo);
    assert(entered_after(m, ev.id, txt(ev.payload, "transferId"@), start));
    assert(entered_after(m, ev.id, txt(ev.payload, "transferId"@), o));
    assert(entered_after(m, ev.id, txt(ev.payload, "transferId"@), transfer_recorded(m, ev)));
}

proof fn lemma_sale_return(m: ReadModel, ev: EventV)
    requires
        distinct(m.accounts),
    ensures
        entered_after(m, ev.id, txt(ev.payload, "returnId"@), sale_return(m, ev)),
{
    broadcast use {lemma_post_role, lemma_adjust_party, lemma_adjust_outstanding};

    lemma_none_entered(m, ev.id, txt(ev.payload, "returnId"@));
    if sale_return(m, ev) is Ok {
        let p = ev.payload;
        let lines = list(p, "lines"@);
        let row = Return {
            id: txt(p, "returnId"@),
            event_id: ev.id,
            return_type: "sale_return"@,
            original_id: txt(p, "originalSaleId"@),
            date: txt(p, "date"@),
            revenue_reversed_minor: worth(lines, "qty"@, "unitPriceMinor"@)->0,
            cost_restored_minor: nested_worth(
                lines,
                "lotReturns"@,
                "qtyReturned"@,
                "unitCostMinor"@,
            )->0,
        };
        let o = add_return(Ok(m), row);
        keeps_sale_return_lines(o->Ok_0, ev, lines, 0, 0);
        assert(entered_after(m, ev.id, txt(ev.payload, "returnId"@), sale_return_lines(o, ev, lines)));
        assert(entered_after(m, ev.id, txt(ev.payload, "returnId"@), sale_return(m, ev)));
    }
}

proof fn lemma_purchase_return(m: ReadModel, ev: EventV)
    requires
        distinct(m.accounts),
    ensures
        entered_after(m, ev.id, txt(ev.payload, "returnId"@), purchase_return(m, ev)),
{
    broadcast use {lemma_post_role, lemma_adjust_party, lemma_adjust_outstanding};

    lemma_none_entered(m, ev.id, txt(ev.payload, "returnId"@));
    if purchase_return(m, ev) is Ok {
        let p = ev.payload;
        let lines = list(p, "lines"@);
        let row = Return {
            id: txt(p, "returnId"@),
            event_id: ev.id,
            return_type: "purchase_return"@,
            original_id: txt(p, "originalPurchaseId"@),
            date: txt(p, "date"@),
            revenue_reversed_minor: 0,
            cost_restored_minor: worth(lines, "qty"@, "unitCostMinor"@)->0,
        };
        let o = add_return(Ok(m), row);
        keeps_purchase_return_lines(o->Ok_0, ev, lines, 0);
        assert(entered_after(m, ev.id, txt(ev.payload, "returnId"@), purchase_return_lines(o, ev, lines)));
        assert(entered_after(m, ev.id, txt(ev.payload, "returnId"@), purchase_return(m, ev)));
    }
}

proof fn lemma_opening(m: ReadModel, ev: EventV)
    requires
        distinct(m.accounts),
    ensures
        entered_after(m, ev.id, ev.id, opening_balances(m, ev)),
{
    lemma_none_entered(m, ev.id, ev.id);
    let lines = list(ev.payload, "accountBalances"@);
    let date = txt(ev.payload, "date"@);
    lemma_given_lines(m, m, ev, lines, date, "opening balance"@, 0);
    if let Ok(k) = given_lines_from(m, ev, lines, date, "opening balance"@, 0) {
        keeps_opening_lots(k, ev, list(ev.payload, "lots"@), 0);
    }
}

/// A reversal does nothing to the accounts but enter lines under its own id.
pub proof fn lemma_reversal_entered(m: ReadModel, log: Seq<EventV>, ev: EventV)
    requires
        distinct(m.accounts),
    ensures
        entered_after(m, ev.id, ev.id, transaction_reversed(m, log, ev)),
{
    lemma_none_entered(m, ev.id, ev.id);
    if let Some(target) = lookup(log, txt(ev.payload, "targetEventId"@)) {
        let lines = list(ev.payload, "reversalJournalLines"@);
        let date = txt(target.payload, "date"@);
        lemma_given_lines(m, m, ev, lines, date, "reversal"@, 0);
        if let Ok(k) = given_lines_from(m, ev, lines, date, "reversal"@, 0) {
            keeps_revert_lots(k, target);
            if let Ok(r) = revert_lots(Ok(k), target) {
                keeps_revert_balances(r, target);
            }
        }
    }
}

/// No journal line is on the account.
pub open spec fn untouched(journal: Seq<JournalLine<Text>>, account: Text) -> bool {
    forall|i: int| 0 <= i < journal.len() ==> (#[trigger] journal[i]).account_id != account
}

proof fn lemma_untouched(a: Account<Text, JsonV>, journal: Seq<JournalLine<Text>>)
    requires
        untouched(journal, a.id),
    ensures
        journal_total(a, journal) == 0,
    decreases journal.len(),
{
    if journal.len() > 0 {
        let f = |l: JournalLine<Text>| pull(a, l);
        assert forall|i: int| 0 <= i < journal.drop_last().len() implies (
        #[trigger] journal.drop_last()[i]).account_id != a.id by {
            assert(journal[i].account_id != a.id);
        }
        lemma_untouched(a, journal.drop_last());
        assert(journal[journal.len() - 1].account_id != a.id);
        assert(sum_over(journal, f) == sum_over(journal.drop_last(), f) + f(journal.last()));
    }
}

/// An event that opens an account opens one without history, and one that updates an
/// account leaves its normal side.
pub open spec fn plain(m: ReadModel, ev: EventV) -> bool {
    &&& ev.event_type == "AccountOpened"@ ==> untouched(m.journal, txt(ev.payload, "accountId"@))
    &&& ev.event_type == "AccountUpdated"@ ==> match lookup(
        m.accounts,
        txt(ev.payload, "accountId"@),
    ) {
        Some(a) => patched(a.doc, ev.payload) matches Ok(d) ==> debit_normal(
            Account { doc: d, ..a },
        ) == debit_normal(a),
        None => true,
    }
}

proof fn lemma_account_opened(m: ReadModel, ev: EventV)
    requires
        in_tally(m),
        untouched(m.journal, txt(ev.payload, "accountId"@)),
    ensures
        account_opened(m, ev) matches Ok(n) ==> in_tally(n),
{
    let a = Account { id: txt(ev.payload, "accountId"@), doc: ev.payload, balance_minor: 0 };
    if let Ok(n) = account_opened(m, ev) {
        lemma_untouched(a, m.journal);
        assert forall|i: int| 0 <= i < n.accounts.len() implies (
        #[trigger] n.accounts[i]).balance_minor == journal_total(n.accounts[i], n.journal) by {
            if i < m.accounts.len() {
                assert(n.accounts[i] == m.accounts[i]);
            }
        }
        assert forall|i: int, j: int| 0 <= i < j < n.accounts.len() implies (
        #[trigger] n.accounts[i]).key() != (#[trigger] n.accounts[j]).key() by {
            assert(n.accounts[i] == m.accounts[i]);
            if j < m.accounts.len() {
                assert(n.accounts[j] == m.accounts[j]);
            } else {
                lemma_has(m.accounts, a.id);
            }
        }
    }
}

proof fn lemma_account_updated(m: ReadModel, ev: EventV)
    requires
        in_tally(m),
        ev.event_type == "AccountUpdated"@,
        plain(m, ev),
    ensures
        account_updated(m, ev) matches Ok(n) ==> in_tally(n),
{
    let id = txt(ev.payload, "accountId"@);
    if let Ok(n) = account_updated(m, ev) {
        lemma_has(m.accounts, id);
        let at = place(m.accounts, id)->0;
        assert forall|i: int| 0 <= i < n.accounts.len() implies (
        #[trigger] n.accounts[i]).balance_minor == journal_total(n.accounts[i], n.journal) by {
            assert(m.accounts[i].balance_minor == journal_total(m.accounts[i], m.journal));
            lemma_same_total(m.accounts[i], n.accounts[i], m.journal);
        }
        assert forall|i: int, j: int| 0 <= i < j < n.accounts.len() implies (
        #[trigger] n.accounts[i]).key() != (#[trigger] n.accounts[j]).key() by {
            assert(m.accounts[i].key() != m.accounts[j].key());
        }
    }
}

/// The transaction that an event's journal lines belong to.
pub open spec fn txn_of(ev: EventV) -> Text {
    let ty = ev.event_type;
    let p = ev.payload;
    if ty == "PurchaseRecorded"@ {
        txt(p, "purchaseId"@)
    } else if ty == "SaleRecorded"@ {
        txt(p, "saleId"@)
    } else if ty == "PaymentReceived"@ || ty == "PaymentMade"@ {
        txt(p, "paymentId"@)
    } else if ty == "ExpenseRecorded"@ {
        txt(p, "expenseId"@)
    } else if ty == "TransferRecorded"@ {
        txt(p, "transferId"@)
    } else if ty == "InventoryAdjusted"@ {
        txt(p, "adjustmentId"@)
    } else if ty == "InventoryFound"@ {
        txt(p, "foundId"@)
    } else if ty == "SaleReturnRecorded"@ || ty == "PurchaseReturnRecorded"@ {
        txt(p, "returnId"@)
    } else {
        ev.id
    }
}

/// Whether an event opens or changes an account.
pub open spec fn on_accounts(ev: EventV) -> bool {
    ev.event_type == "AccountOpened"@ || ev.event_type == "AccountUpdated"@
}

/// Every event but one that opens or changes an account does nothing to the accounts but
/// enter lines.
pub proof fn lemma_entered(m: ReadModel, log: Seq<EventV>, ev: EventV)
    requires
        distinct(m.accounts),
        !on_accounts(ev),
    ensures
        entered_after(m, ev.id, txn_of(ev), project(m, log, ev)),
{
    let ty = ev.event_type;
    lemma_types();
    lemma_none_entered(m, ev.id, txn_of(ev));
    if ty == "PurchaseRecorded"@ {
        lemma_purchase(m, ev);
    } else if ty == "SaleRecorded"@ {
        lemma_sale(m, ev);
    } else if ty == "PaymentReceived"@ {
        lemma_payment(m, ev, true);
    } else if ty == "PaymentMade"@ {
        lemma_payment(m, ev, false);
    } else if ty == "PaymentAllocated"@ {
        keeps_allocate(m, ev, list(ev.payload, "allocations"@), 0);
    } else if ty == "ExpenseRecorded"@ {
        lemma_expense(m, ev);
    } else if ty == "TransferRecorded"@ {
        lemma_transfer(m, ev);
    } else if ty == "InventoryAdjusted"@ {
        lemma_adjust_lines(m, m, ev, list(ev.payload, "lines"@), 0);
    } else if ty == "InventoryFound"@ {
        lemma_found_lines(m, m, ev, list(ev.payload, "lines"@), 0);
    } else if ty == "OpeningBalancesRecorded"@ {
        lemma_opening(m, ev);
    } else if ty == "SaleReturnRecorded"@ {
        lemma_sale_return(m, ev);
    } else if ty == "PurchaseReturnRecorded"@ {
        lemma_purchase_return(m, ev);
    } else if ty == "TransactionReversed"@ {
        lemma_reversal_entered(m, log, ev);
    }
}

/// Entering lines leaves account ids alone.
pub proof fn lemma_entered_distinct(m: ReadModel, event: Text, txn: Text, n: ReadModel)
    requires
        distinct(m.accounts),
        entered(m, event, txn, n),
    ensures
        distinct(n.accounts),
{
    let added = new_lines(m.journal, n.journal);
    assert forall|i: int, j: int| 0 <= i < j < n.accounts.len() implies (
    #[trigger] n.accounts[i]).key() != (#[trigger] n.accounts[j]).key() by {
        assert(pulled(m.accounts[i], added, n.accounts[i]));
        assert(pulled(m.accounts[j], added, n.accounts[j]));
        assert(m.accounts[i].key() != m.accounts[j].key());
    }
}

/// Whatever an event does, the old journal lines stay, every new one carries the event's
/// id and its transaction, the new lines debit and credit alike but for what the event
/// itself states, and every account that was there moves by just what the new lines add up
/// to on it.
pub proof fn law_events_only_add_lines(m: ReadModel, log: Seq<EventV>, ev: EventV)
    requires
        distinct(m.accounts),
        project(m, log, ev) is Ok,
    ensures
        ({
            let n = project(m, log, ev)->Ok_0;
            let added = new_lines(m.journal, n.journal);
            &&& lines_added(m.journal, ev.id, txn_of(ev), n.journal)
            &&& gap(added, txn_of(ev)) == given_tip(stated_lines(ev), 0)
            &&& m.accounts.len() <= n.accounts.len()
            &&& forall|i: int|
                0 <= i < m.accounts.len() ==> pulled(
                    m.accounts[i],
                    added,
                    #[trigger] n.accounts[i],
                )
        }),
{
    let n = project(m, log, ev)->Ok_0;
    let added = new_lines(m.journal, n.journal);
    if on_accounts(ev) {
        lemma_accounts_changed(m, log, ev);
    } else {
        lemma_entered(m, log, ev);
    }
    lemma_types();
    law_events_keep_the_balance(m, log, ev, txn_of(ev));
    assert(n.journal =~= m.journal + added);
    lemma_gap_split(m.journal, added, txn_of(ev));
}

/// An event that opens or changes an account leaves the journal and every balance alone.
proof fn lemma_accounts_changed(m: ReadModel, log: Seq<EventV>, ev: EventV)
    requires
        on_accounts(ev),
        project(m, log, ev) is Ok,
    ensures
        ({
            let n = project(m, log, ev)->Ok_0;
            &&& n.journal == m.journal
            &&& lines_added(m.journal, ev.id, txn_of(ev), n.journal)
            &&& m.accounts.len() <= n.accounts.len()
            &&& forall|i: int|
                0 <= i < m.accounts.len() ==> pulled(
                    m.accounts[i],
                    new_lines(m.journal, n.journal),
                    #[trigger] n.accounts[i],
                )
        }),
{
    lemma_types();
    lemma_none_entered(m, ev.id, txn_of(ev));
    lemma_has(m.accounts, txt(ev.payload, "accountId"@));
    let n = project(m, log, ev)->Ok_0;
    assert forall|i: int| 0 <= i < m.accounts.len() implies pulled(
        m.accounts[i],
        new_lines(m.journal, n.journal),
        #[trigger] n.accounts[i],
    ) by {
        assert(pulled(m.accounts[i], new_lines(m.journal, m.journal), m.accounts[i]));
    }
}

/// What lines of one transaction leave open is the sum over parts.
proof fn lemma_gap_split(a: Seq<JournalLine<Text>>, b: Seq<JournalLine<Text>>, txn: Text)
    ensures
        gap(a + b, txn) == gap(a, txn) + gap(b, txn),
    decreases b.len(),
{
    if b.len() > 0 {
        lemma_gap_split(a, b.drop_last(), txn);
        assert((a + b).drop_last() =~= a + b.drop_last());
        assert((a + b).last() == b.last());
    } else {
        assert(a + b =~= a);
    }
}

/// What a journal adds up to on an account is the sum over parts.
pub proof fn lemma_total_split(
    x: Account<Text, JsonV>,
    a: Seq<JournalLine<Text>>,
    b: Seq<JournalLine<Text>>,
)
    ensures
        journal_total(x, a + b) == journal_total(x, a) + journal_total(x, b),
    decreases b.len(),
{
    if b.len() > 0 {
        let f = |l: JournalLine<Text>| pull(x, l);
        lemma_total_split(x, a, b.drop_last());
        assert((a + b).drop_last() =~= a + b.drop_last());
        assert((a + b).last() == b.last());
        assert(sum_over(a + b, f) == sum_over((a + b).drop_last(), f) + f(b.last()));
        assert(sum_over(b, f) == sum_over(b.drop_last(), f) + f(b.last()));
    } else {
        assert(a + b =~= a);
    }
}

/// Account balances follow the journal through every event, but for one that opens an
/// account with history or turns an account's normal side.
pub proof fn law_balances_follow_the_journal(m: ReadModel, log: Seq<EventV>, ev: EventV)
    requires
        in_tally(m),
        plain(m, ev),
        project(m, log, ev) is Ok,
    ensures
        in_tally(project(m, log, ev)->Ok_0),
{
    let n = project(m, log, ev)->Ok_0;
    if on_accounts(ev) {
        lemma_types();
        if ev.event_type == "AccountOpened"@ {
            lemma_account_opened(m, ev);
        } else {
            lemma_account_updated(m, ev);
        }
    } else {
        lemma_entered(m, log, ev);
        let added = new_lines(m.journal, n.journal);
        assert(n.journal =~= m.journal + added);
        assert forall|i: int| 0 <= i < n.accounts.len() implies (
        #[trigger] n.accounts[i]).balance_minor == journal_total(n.accounts[i], n.journal) by {
            assert(pulled(m.accounts[i], added, n.accounts[i]));
            assert(m.accounts[i].balance_minor == journal_total(m.accounts[i], m.journal));
            lemma_total_split(m.accounts[i], m.journal, added);
            lemma_same_total(m.accounts[i], n.accounts[i], n.journal);
        }
        lemma_entered_distinct(m, ev.id, txn_of(ev), n);
    }
}

} // verus!
