//! What a reversal undoes of the books: every account's balance is what it was.

use crate::commands::reversal::reversal_payload;
use crate::events::EventV;
use crate::json::{txt, JsonV};
use crate::laws::accounts::{
    journal_total, law_events_only_add_lines, lemma_entered, lemma_entered_distinct,
    lemma_reversal_entered, lines_added, new_lines, on_accounts, pull, pulled, txn_of,
};
use crate::laws::double_entry::{gap, given_tip, lemma_types, stated_lines, tip};
use crate::laws::known::{keeps_reversal, lemma_sale_projected};
use crate::laws::reversal::{
    law_reversal_of_balanced_is_balanced, law_reversal_takes_back, lemma_reversal_payload, posted,
    share,
};
use crate::laws::stock::lemma_stated_projected;
use crate::laws::undo::{law_reversal_undoes_lots, sales_known};
use crate::laws::unpaid::{figures, law_reversal_undoes_a_sale, with_voided};
use crate::model::{debit_normal, project, transaction_reversed, Text};
use crate::rows::{distinct, lookup, Keyed};
use crate::sums::sum_over;
use crate::tables::{Account, JournalLine, ReadModel};
use vstd::prelude::*;

verus! {

/// No journal line is the event's.
pub open spec fn unposted(journal: Seq<JournalLine<Text>>, event: Text) -> bool {
    forall|i: int| 0 <= i < journal.len() ==> (#[trigger] journal[i]).event_id != event
}

/// One account.
pub open spec fn only(account: Text) -> spec_fn(Text) -> bool {
    |a: Text| a == account
}

/// What an event posted in two parts of a journal.
pub proof fn lemma_posted_split(
    a: Seq<JournalLine<Text>>,
    b: Seq<JournalLine<Text>>,
    event: Text,
    on: spec_fn(Text) -> bool,
)
    ensures
        posted(a + b, event, on) == posted(a, event, on) + posted(b, event, on),
    decreases b.len(),
{
    let f = |l: JournalLine<Text>| share(l, event, on);
    if b.len() > 0 {
        lemma_posted_split(a, b.drop_last(), event, on);
        assert((a + b).drop_last() =~= a + b.drop_last());
        assert((a + b).last() == b.last());
        assert(sum_over(a + b, f) == sum_over((a + b).drop_last(), f) + f(b.last()));
        assert(sum_over(b, f) == sum_over(b.drop_last(), f) + f(b.last()));
    } else {
        assert(a + b =~= a);
    }
}

/// An event without lines posted nothing.
pub proof fn lemma_unposted(
    journal: Seq<JournalLine<Text>>,
    event: Text,
    on: spec_fn(Text) -> bool,
)
    requires
        unposted(journal, event),
    ensures
        posted(journal, event, on) == 0,
    decreases journal.len(),
{
    let f = |l: JournalLine<Text>| share(l, event, on);
    if journal.len() > 0 {
        let front = journal.drop_last();
        assert forall|i: int| 0 <= i < front.len() implies (#[trigger] front[i]).event_id
            != event by {
            assert(front[i] == journal[i]);
        }
        lemma_unposted(front, event, on);
        assert(journal[journal.len() - 1].event_id != event);
        assert(sum_over(journal, f) == sum_over(front, f) + f(journal.last()));
    }
}

/// Lines of one event pull an account by what the event posted to it.
proof fn lemma_pulled(a: Account<Text, JsonV>, lines: Seq<JournalLine<Text>>, event: Text)
    requires
        forall|i: int| 0 <= i < lines.len() ==> (#[trigger] lines[i]).event_id == event,
    ensures
        journal_total(a, lines) == if debit_normal(a) {
            posted(lines, event, only(a.id))
        } else {
            -posted(lines, event, only(a.id))
        },
    decreases lines.len(),
{
    let f = |l: JournalLine<Text>| pull(a, l);
    let g = |l: JournalLine<Text>| share(l, event, only(a.id));
    if lines.len() > 0 {
        let front = lines.drop_last();
        assert forall|i: int| 0 <= i < front.len() implies (#[trigger] front[i]).event_id
            == event by {
            assert(front[i] == lines[i]);
        }
        lemma_pulled(a, front, event);
        assert(lines[lines.len() - 1].event_id == event);
        assert(sum_over(lines, f) == sum_over(front, f) + f(lines.last()));
        assert(sum_over(lines, g) == sum_over(front, g) + g(lines.last()));
    }
}

/// What an event that was not in the journal posted is what its new lines post.
pub proof fn lemma_new_lines(
    journal: Seq<JournalLine<Text>>,
    event: Text,
    txn: Text,
    after: Seq<JournalLine<Text>>,
    on: spec_fn(Text) -> bool,
)
    requires
        unposted(journal, event),
        lines_added(journal, event, txn, after),
    ensures
        posted(after, event, on) == posted(new_lines(journal, after), event, on),
        forall|i: int|
            0 <= i < new_lines(journal, after).len() ==> (#[trigger] new_lines(
                journal,
                after,
            )[i]).event_id == event,
        after == journal + new_lines(journal, after),
{
    let added = new_lines(journal, after);
    assert(after =~= journal + added);
    assert forall|i: int| 0 <= i < added.len() implies (#[trigger] added[i]).event_id == event by {
        assert(added[i] == after[i + journal.len()]);
    }
    lemma_posted_split(journal, added, event, on);
    lemma_unposted(journal, event, on);
}

/// An event that is reversed right away leaves every account as it was, and the journal
/// with all its old lines and, behind them, none but those of the event and of its
/// reversal.
pub proof fn law_reversal_undoes_the_books(
    m: ReadModel,
    log: Seq<EventV>,
    target: EventV,
    later: Seq<EventV>,
    ev: EventV,
    ty: Text,
    reason: Text,
)
    requires
        distinct(m.accounts),
        unposted(m.journal, target.id),
        unposted(m.journal, ev.id),
        ev.id != target.id,
        !on_accounts(target),
        project(m, log, target) is Ok,
        ev.event_type == "TransactionReversed"@,
        ev.payload == reversal_payload(project(m, log, target)->Ok_0, target.id, ty, reason),
        transaction_reversed(project(m, log, target)->Ok_0, later, ev) is Ok,
    ensures
        ({
            let k = project(m, log, target)->Ok_0;
            let n = transaction_reversed(k, later, ev)->Ok_0;
            &&& n.accounts == m.accounts
            &&& lines_added(m.journal, target.id, txn_of(target), k.journal)
            &&& lines_added(k.journal, ev.id, ev.id, n.journal)
        }),
{
    let k = project(m, log, target)->Ok_0;
    let n = transaction_reversed(k, later, ev)->Ok_0;
    let first = new_lines(m.journal, k.journal);
    let second = new_lines(k.journal, n.journal);
    lemma_entered(m, log, target);
    lemma_entered_distinct(m, target.id, txn_of(target), k);
    lemma_reversal_entered(k, later, ev);
    assert(unposted(k.journal, ev.id)) by {
        assert forall|i: int| 0 <= i < k.journal.len() implies (#[trigger] k.journal[i]).event_id
            != ev.id by {
            if i < m.journal.len() {
                assert(k.journal.take(m.journal.len() as int)[i] == m.journal[i]);
            }
        }
    }
    assert forall|i: int| 0 <= i < m.accounts.len() implies #[trigger] n.accounts[i]
        == m.accounts[i] by {
        let a = m.accounts[i];
        let on = only(a.id);
        assert(pulled(a, first, k.accounts[i]));
        assert(pulled(k.accounts[i], second, n.accounts[i]));
        lemma_new_lines(m.journal, target.id, txn_of(target), k.journal, on);
        lemma_new_lines(k.journal, ev.id, ev.id, n.journal, on);
        lemma_unposted(k.journal, ev.id, on);
        law_reversal_takes_back(k, later, ev, target.id, ty, reason, on);
        lemma_pulled(a, first, target.id);
        lemma_pulled(k.accounts[i], second, ev.id);
        lemma_posted_split(k.journal, second, target.id, on);
        assert(unposted(second, target.id));
        lemma_unposted(second, target.id, on);
    }
    assert(n.accounts =~= m.accounts);
}

/// Whatever happens later, what an event posted to any accounts stays, so that a reversal
/// at any later time takes back just that.
pub proof fn law_postings_stay(
    m: ReadModel,
    log: Seq<EventV>,
    ev: EventV,
    event: Text,
    on: spec_fn(Text) -> bool,
)
    requires
        distinct(m.accounts),
        ev.id != event,
        project(m, log, ev) is Ok,
    ensures
        posted(project(m, log, ev)->Ok_0.journal, event, on) == posted(m.journal, event, on),
{
    let n = project(m, log, ev)->Ok_0;
    let added = new_lines(m.journal, n.journal);
    law_events_only_add_lines(m, log, ev);
    assert(n.journal =~= m.journal + added);
    assert(unposted(added, event)) by {
        assert forall|i: int| 0 <= i < added.len() implies (#[trigger] added[i]).event_id
            != event by {
            assert(added[i] == n.journal[i + m.journal.len()]);
        }
    }
    lemma_posted_split(m.journal, added, event, on);
    lemma_unposted(added, event, on);
}

/// Lines of one event and one transaction post in all what the transaction leaves open.
proof fn lemma_posted_gap(lines: Seq<JournalLine<Text>>, event: Text, txn: Text)
    requires
        forall|i: int|
            0 <= i < lines.len() ==> (#[trigger] lines[i]).event_id == event && lines[i].txn_id
                == txn,
    ensures
        posted(lines, event, |a: Text| true) == gap(lines, txn),
    decreases lines.len(),
{
    let f = |l: JournalLine<Text>| share(l, event, |a: Text| true);
    let g = |l: JournalLine<Text>| tip(l, txn);
    if lines.len() > 0 {
        let front = lines.drop_last();
        assert forall|i: int| 0 <= i < front.len() implies (#[trigger] front[i]).event_id == event
            && front[i].txn_id == txn by {
            assert(front[i] == lines[i]);
        }
        lemma_posted_gap(front, event, txn);
        let last = lines[lines.len() - 1];
        assert(last.event_id == event && last.txn_id == txn);
        assert(sum_over(lines, f) == sum_over(front, f) + f(lines.last()));
        assert(sum_over(lines, g) == sum_over(front, g) + g(lines.last()));
    }
}

/// The reversal of a sale, right after it, states lines that balance.
proof fn lemma_reversal_balances(
    m: ReadModel,
    log: Seq<EventV>,
    sale: EventV,
    later: Seq<EventV>,
    ev: EventV,
    ty: Text,
    reason: Text,
)
    requires
        distinct(m.accounts),
        unposted(m.journal, sale.id),
        sale.event_type == "SaleRecorded"@,
        project(m, log, sale) is Ok,
        ev.event_type == "TransactionReversed"@,
        ev.payload == reversal_payload(project(m, log, sale)->Ok_0, sale.id, ty, reason),
    ensures
        given_tip(stated_lines(ev), 0) == 0,
{
    lemma_types();
    let all = |a: Text| true;
    let k = project(m, log, sale)->Ok_0;
    let added = new_lines(m.journal, k.journal);
    law_events_only_add_lines(m, log, sale);
    lemma_new_lines(m.journal, sale.id, txn_of(sale), k.journal, all);
    assert forall|i: int| 0 <= i < added.len() implies (#[trigger] added[i]).event_id == sale.id
        && added[i].txn_id == txn_of(sale) by {
        assert(added[i] == k.journal[i + m.journal.len()]);
    }
    lemma_posted_gap(added, sale.id, txn_of(sale));
    assert(posted(k.journal, sale.id, |a: Text| true) == 0);
    law_reversal_of_balanced_is_balanced(k.journal, sale.id);
    lemma_reversal_payload(k, sale.id, ty, reason);
}

/// The transactions of a sale and of a reversal.
proof fn lemma_txns(ev: EventV)
    ensures
        ev.event_type == "SaleRecorded"@ ==> txn_of(ev) == txt(ev.payload, "saleId"@),
        ev.event_type == "TransactionReversed"@ ==> txn_of(ev) == ev.id,
{
    lemma_types();
}

/// What a sale and its reversal right after it leave of the journal.
proof fn lemma_unwound_journal(
    m: ReadModel,
    log: Seq<EventV>,
    sale: EventV,
    later: Seq<EventV>,
    ev: EventV,
    ty: Text,
    reason: Text,
)
    requires
        distinct(m.accounts),
        sales_known(m),
        unposted(m.journal, sale.id),
        unposted(m.journal, ev.id),
        ev.id != sale.id,
        sale.event_type == "SaleRecorded"@,
        project(m, log, sale) is Ok,
        ev.event_type == "TransactionReversed"@,
        ev.payload == reversal_payload(project(m, log, sale)->Ok_0, sale.id, ty, reason),
        lookup(later, sale.id) == Some(sale),
        project(project(m, log, sale)->Ok_0, later, ev) is Ok,
    ensures
        ({
            let k = project(m, log, sale)->Ok_0;
            let n = project(k, later, ev)->Ok_0;
            &&& lines_added(m.journal, sale.id, txt(sale.payload, "saleId"@), k.journal)
            &&& lines_added(k.journal, ev.id, ev.id, n.journal)
            &&& gap(new_lines(k.journal, n.journal), ev.id) == 0
        }),
{
    let k = project(m, log, sale)->Ok_0;
    lemma_txns(sale);
    lemma_txns(ev);
    lemma_reversal_balances(m, log, sale, later, ev, ty, reason);
    law_events_only_add_lines(m, log, sale);
    lemma_sale_not_on_accounts(sale);
    lemma_entered(m, log, sale);
    lemma_entered_distinct(m, sale.id, txn_of(sale), k);
    law_events_only_add_lines(k, later, ev);
}

/// A sale neither opens nor changes an account.
proof fn lemma_sale_not_on_accounts(sale: EventV)
    requires
        sale.event_type == "SaleRecorded"@,
    ensures
        !on_accounts(sale),
{
    lemma_types();
}

/// A sale that is reversed right away is unwound: every lot, every party's balance and
/// every account is as it was; the sale stays, reversed and owed nothing, with its lines
/// and what they took; the journal keeps all its lines, and those of the reversal carry its
/// id and balance.
pub proof fn law_reversal_unwinds_a_sale(
    m: ReadModel,
    log: Seq<EventV>,
    sale: EventV,
    later: Seq<EventV>,
    ev: EventV,
    ty: Text,
    reason: Text,
)
    requires
        distinct(m.accounts),
        sales_known(m),
        unposted(m.journal, sale.id),
        unposted(m.journal, ev.id),
        ev.id != sale.id,
        sale.event_type == "SaleRecorded"@,
        project(m, log, sale) is Ok,
        ev.event_type == "TransactionReversed"@,
        ev.payload == reversal_payload(project(m, log, sale)->Ok_0, sale.id, ty, reason),
        lookup(later, sale.id) == Some(sale),
        project(project(m, log, sale)->Ok_0, later, ev) is Ok,
    ensures
        ({
            let k = project(m, log, sale)->Ok_0;
            let n = project(k, later, ev)->Ok_0;
            &&& n.lots == m.lots
            &&& n.accounts == m.accounts
            &&& forall|party: Text| #[trigger]
                figures(n.balances, party) == figures(m.balances, party)
            &&& with_voided(m.sales, txt(sale.payload, "saleId"@), n.sales)
            &&& n.sale_lines == k.sale_lines
            &&& n.consumptions == k.consumptions
            &&& lines_added(m.journal, sale.id, txt(sale.payload, "saleId"@), k.journal)
            &&& lines_added(k.journal, ev.id, ev.id, n.journal)
            &&& gap(new_lines(k.journal, n.journal), ev.id) == 0
        }),
{
    let k = project(m, log, sale)->Ok_0;
    lemma_reversal_payload(k, sale.id, ty, reason);
    lemma_stated_projected(k, later, ev);
    lemma_sale_projected(m, log, sale);
    lemma_sale_not_on_accounts(sale);
    law_reversal_undoes_lots(m, log, sale, later, ev);
    law_reversal_undoes_a_sale(m, sale, later, ev);
    law_reversal_undoes_the_books(m, log, sale, later, ev, ty, reason);
    keeps_reversal(k, later, ev);
    lemma_unwound_journal(m, log, sale, later, ev, ty, reason);
}

} // verus!
