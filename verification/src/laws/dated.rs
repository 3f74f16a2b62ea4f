//! When lines are dated, and what that makes of a reversed event: no period shows it.

use crate::commands::reversal::reversal_payload;
use crate::events::EventV;
use crate::json::{list, opt_txt, txt, JsonV};
use crate::laws::accounts::{new_lines, on_accounts, txn_of};
use crate::laws::bookings::{
    as_stated, law_expenses_are_booked, law_finds_are_booked, law_openings_are_booked,
    law_payments_are_booked, law_purchase_returns_are_booked, law_purchases_are_booked,
    law_reversals_are_booked, law_sale_returns_are_booked, law_sales_are_booked,
    law_transfers_are_booked, law_write_offs_are_booked, taken_in, written_off,
};
use crate::laws::double_entry::lemma_types;
use crate::laws::frames::keeps_allocate;
use crate::laws::periods::{
    debited, debited_within, law_profit_and_loss_is_of_the_period, lemma_sum_same,
};
use crate::laws::reversal::{law_reversal_takes_back, lemma_reversal_payload, posted, share};
use crate::laws::unbooked::{
    law_reversal_undoes_the_books, lemma_new_lines, lemma_posted_split, lemma_unposted, unposted,
};
use crate::model::{
    inventory_adjusted, inventory_found, project, purchase_recorded, purchase_return, sale_recorded,
    sale_return, transaction_reversed, Text,
};
use crate::queries::statements::profit_and_loss_outcome;
use crate::rows::{distinct, lookup};
use crate::sums::sum_over;
use crate::tables::{JournalLine, ReadModel};
use crate::text::lex_lt;
use vstd::prelude::*;

verus! {

/// The journal lines from line `from` on carry the date.
pub open spec fn dated_from(journal: Seq<JournalLine<Text>>, from: int, date: Text) -> bool {
    forall|i: int| from <= i < journal.len() ==> (#[trigger] journal[i]).date == date
}

/// Stated lines carry their date.
proof fn lemma_stated_dates(
    journal: Seq<JournalLine<Text>>,
    ev: EventV,
    lines: Seq<JsonV>,
    at: int,
    date: Text,
    memo: Text,
)
    requires
        0 <= at,
        journal.len() == at + lines.len(),
        forall|j: int|
            0 <= j < lines.len() ==> as_stated(
                #[trigger] journal[at + j],
                ev,
                lines[j],
                j,
                date,
                memo,
            ),
    ensures
        dated_from(journal, at, date),
{
    assert forall|i: int| at <= i < journal.len() implies (#[trigger] journal[i]).date == date by {
        let j = i - at;
        assert(as_stated(journal[at + j], ev, lines[j], j, date, memo));
    }
}

/// Lines booked in pairs carry their date.
proof fn lemma_paired_dates(
    journal: Seq<JournalLine<Text>>,
    at: int,
    n: int,
    date: Text,
)
    requires
        0 <= at,
        journal.len() == at + 2 * n,
        forall|j: int| #![trigger journal[at + 2 * j]]
            0 <= j < n ==> journal[at + 2 * j].date == date && journal[at + 2 * j + 1].date == date,
    ensures
        dated_from(journal, at, date),
{
    assert forall|i: int| at <= i < journal.len() implies (#[trigger] journal[i]).date == date by {
        let j = (i - at) / 2;
        assert(journal[at + 2 * j].date == date);
        assert(i == at + 2 * j || i == at + 2 * j + 1);
    }
}

proof fn lemma_write_off_dates(m: ReadModel, ev: EventV)
    ensures
        inventory_adjusted(m, ev) matches Ok(n) ==> dated_from(
            n.journal,
            m.journal.len() as int,
            txt(ev.payload, "date"@),
        ),
{
    if let Ok(n) = inventory_adjusted(m, ev) {
        let at = m.journal.len() as int;
        let lines = list(ev.payload, "lines"@);
        let date = txt(ev.payload, "date"@);
        law_write_offs_are_booked(m, ev);
        assert forall|j: int| #![trigger n.journal[at + 2 * j]] 0 <= j < lines.len() implies n.journal[at
            + 2 * j].date == date && n.journal[at + 2 * j + 1].date == date by {
            assert(written_off(m, n.journal, ev, lines[j], j));
        }
        lemma_paired_dates(n.journal, at, lines.len() as int, date);
    }
}

proof fn lemma_find_dates(m: ReadModel, ev: EventV)
    ensures
        inventory_found(m, ev) matches Ok(n) ==> dated_from(
            n.journal,
            m.journal.len() as int,
            txt(ev.payload, "date"@),
        ),
{
    if let Ok(n) = inventory_found(m, ev) {
        let at = m.journal.len() as int;
        let lines = list(ev.payload, "lines"@);
        let date = txt(ev.payload, "date"@);
        law_finds_are_booked(m, ev);
        assert forall|j: int| #![trigger n.journal[at + 2 * j]] 0 <= j < lines.len() implies n.journal[at
            + 2 * j].date == date && n.journal[at + 2 * j + 1].date == date by {
            assert(taken_in(m, n.journal, ev, lines[j], j));
        }
        lemma_paired_dates(n.journal, at, lines.len() as int, date);
    }
}

proof fn lemma_purchase_dates(m: ReadModel, ev: EventV)
    ensures
        purchase_recorded(m, ev) matches Ok(n) ==> dated_from(
            n.journal,
            m.journal.len() as int,
            txt(ev.payload, "date"@),
        ),
{
    if let Ok(n) = purchase_recorded(m, ev) {
        let at = m.journal.len() as int;
        let date = txt(ev.payload, "date"@);
        law_purchases_are_booked(m, ev);
        assert(n.journal[at].date == date);
        assert(n.journal[at + 1].date == date);
        assert forall|i: int| at <= i < n.journal.len() implies (#[trigger] n.journal[i]).date
            == date by {
            assert(i == at || i == at + 1);
        }
    }
}

proof fn lemma_sale_dates(m: ReadModel, ev: EventV)
    ensures
        sale_recorded(m, ev) matches Ok(n) ==> dated_from(
            n.journal,
            m.journal.len() as int,
            txt(ev.payload, "date"@),
        ),
{
    if let Ok(n) = sale_recorded(m, ev) {
        let at = m.journal.len() as int;
        let date = txt(ev.payload, "date"@);
        law_sales_are_booked(m, ev);
        assert(n.journal[at].date == date);
        assert(n.journal[at + 1].date == date);
        assert(n.journal[at + 2].date == date);
        assert(n.journal[at + 3].date == date);
        assert forall|i: int| at <= i < n.journal.len() implies (#[trigger] n.journal[i]).date
            == date by {
            assert(i == at || i == at + 1 || i == at + 2 || i == at + 3);
        }
    }
}

proof fn lemma_sale_return_dates(m: ReadModel, ev: EventV)
    ensures
        sale_return(m, ev) matches Ok(n) ==> dated_from(
            n.journal,
            m.journal.len() as int,
            txt(ev.payload, "date"@),
        ),
{
    if let Ok(n) = sale_return(m, ev) {
        let at = m.journal.len() as int;
        let date = txt(ev.payload, "date"@);
        law_sale_returns_are_booked(m, ev);
        assert(n.journal[at].date == date);
        assert(n.journal[at + 1].date == date);
        assert(n.journal[at + 2].date == date);
        assert(n.journal[at + 3].date == date);
        assert forall|i: int| at <= i < n.journal.len() implies (#[trigger] n.journal[i]).date
            == date by {
            assert(i == at || i == at + 1 || i == at + 2 || i == at + 3);
        }
    }
}

proof fn lemma_purchase_return_dates(m: ReadModel, ev: EventV)
    ensures
        purchase_return(m, ev) matches Ok(n) ==> dated_from(
            n.journal,
            m.journal.len() as int,
            txt(ev.payload, "date"@),
        ),
{
    if let Ok(n) = purchase_return(m, ev) {
        let at = m.journal.len() as int;
        let date = txt(ev.payload, "date"@);
        law_purchase_returns_are_booked(m, ev);
        assert(n.journal[at].date == date);
        assert(n.journal[at + 1].date == date);
        assert forall|i: int| at <= i < n.journal.len() implies (#[trigger] n.journal[i]).date
            == date by {
            assert(i == at || i == at + 1);
        }
    }
}

proof fn lemma_trade_dates(m: ReadModel, log: Seq<EventV>, ev: EventV)
    requires
        ev.event_type == "PurchaseRecorded"@ || ev.event_type == "SaleRecorded"@ || ev.event_type
            == "SaleReturnRecorded"@ || ev.event_type == "PurchaseReturnRecorded"@,
    ensures
        project(m, log, ev) matches Ok(n) ==> dated_from(
            n.journal,
            m.journal.len() as int,
            txt(ev.payload, "date"@),
        ),
{
    lemma_types();
    if project(m, log, ev) is Ok {
        if ev.event_type == "PurchaseRecorded"@ {
            lemma_purchase_dates(m, ev);
        } else if ev.event_type == "SaleRecorded"@ {
            lemma_sale_dates(m, ev);
        } else if ev.event_type == "SaleReturnRecorded"@ {
            lemma_sale_return_dates(m, ev);
        } else {
            lemma_purchase_return_dates(m, ev);
        }
    }
}

proof fn lemma_money_dates(m: ReadModel, log: Seq<EventV>, ev: EventV)
    requires
        ev.event_type == "PaymentReceived"@ || ev.event_type == "PaymentMade"@ || ev.event_type
            == "ExpenseRecorded"@ || ev.event_type == "TransferRecorded"@,
    ensures
        project(m, log, ev) matches Ok(n) ==> dated_from(
            n.journal,
            m.journal.len() as int,
            txt(ev.payload, "date"@),
        ),
{
    lemma_types();
    if project(m, log, ev) is Ok {
        if ev.event_type == "PaymentReceived"@ {
            law_payments_are_booked(m, ev, true);
        } else if ev.event_type == "PaymentMade"@ {
            law_payments_are_booked(m, ev, false);
        } else if ev.event_type == "ExpenseRecorded"@ {
            law_expenses_are_booked(m, ev);
        } else {
            law_transfers_are_booked(m, ev);
        }
    }
}

/// Every journal line that an event adds, but for a reversal, carries the date of the
/// event.
pub proof fn law_lines_carry_the_date_of_their_event(m: ReadModel, log: Seq<EventV>, ev: EventV)
    requires
        ev.event_type != "TransactionReversed"@,
        project(m, log, ev) is Ok,
    ensures
        forall|i: int|
            m.journal.len() <= i < project(m, log, ev)->Ok_0.journal.len() ==> (
            #[trigger] project(m, log, ev)->Ok_0.journal[i]).date == txt(ev.payload, "date"@),
{
    lemma_types();
    let n = project(m, log, ev)->Ok_0;
    let at = m.journal.len() as int;
    let date = txt(ev.payload, "date"@);
    let ty = ev.event_type;
    assert(dated_from(n.journal, at, date)) by {
        if ty == "PurchaseRecorded"@ || ty == "SaleRecorded"@ || ty == "SaleReturnRecorded"@ || ty
            == "PurchaseReturnRecorded"@ {
            lemma_trade_dates(m, log, ev);
        } else if ty == "PaymentReceived"@ || ty == "PaymentMade"@ || ty == "ExpenseRecorded"@ || ty
            == "TransferRecorded"@ {
            lemma_money_dates(m, log, ev);
        } else if ty == "PaymentAllocated"@ {
            keeps_allocate(m, ev, list(ev.payload, "allocations"@), 0);
        } else if ty == "InventoryAdjusted"@ {
            lemma_write_off_dates(m, ev);
        } else if ty == "InventoryFound"@ {
            lemma_find_dates(m, ev);
        } else if ty == "OpeningBalancesRecorded"@ {
            law_openings_are_booked(m, ev);
            lemma_stated_dates(
                n.journal,
                ev,
                list(ev.payload, "accountBalances"@),
                at,
                date,
                "opening balance"@,
            );
        } else {
            assert(n.journal == m.journal);
        }
    }
}

/// Every journal line that carries the id of a reversal carries the date of the event that
/// is reversed.
pub proof fn law_reversals_carry_the_date_of_their_target(
    m: ReadModel,
    log: Seq<EventV>,
    ev: EventV,
    target: EventV,
)
    requires
        unposted(m.journal, ev.id),
        lookup(log, txt(ev.payload, "targetEventId"@)) == Some(target),
        transaction_reversed(m, log, ev) is Ok,
    ensures
        forall|i: int|
            0 <= i < transaction_reversed(m, log, ev)->Ok_0.journal.len() && (
            #[trigger] transaction_reversed(m, log, ev)->Ok_0.journal[i]).event_id == ev.id
                ==> transaction_reversed(m, log, ev)->Ok_0.journal[i].date == txt(
                target.payload,
                "date"@,
            ),
{
    let n = transaction_reversed(m, log, ev)->Ok_0;
    let at = m.journal.len() as int;
    let lines = list(ev.payload, "reversalJournalLines"@);
    let date = txt(target.payload, "date"@);
    law_reversals_are_booked(m, log, ev);
    lemma_stated_dates(n.journal, ev, lines, at, date, "reversal"@);
    assert forall|i: int| 0 <= i < n.journal.len() && (#[trigger] n.journal[i]).event_id
        == ev.id implies n.journal[i].date == date by {
        if i < at {
            assert(n.journal.take(at)[i] == m.journal[i]);
        }
    }
}

/// The account is of the type.
pub open spec fn typed(m: ReadModel, ty: Text) -> spec_fn(Text) -> bool {
    |a: Text| lookup(m.accounts, a) matches Some(x) && opt_txt(x.doc, "type"@) == Some(ty)
}

/// What a line of a period books on accounts of the type: debits less credits.
pub open spec fn period_debit(m: ReadModel, ty: Text, from: Text, to: Text) -> spec_fn(
    JournalLine<Text>,
) -> int {
    |l: JournalLine<Text>|
        if !lex_lt(l.date, from) && !lex_lt(to, l.date) {
            debited(m, l, ty)
        } else {
            0
        }
}

/// Sums over two parts add up.
pub proof fn lemma_sum_concat<R>(a: Seq<R>, b: Seq<R>, f: spec_fn(R) -> int)
    ensures
        sum_over(a + b, f) == sum_over(a, f) + sum_over(b, f),
    decreases b.len(),
{
    if b.len() > 0 {
        lemma_sum_concat(a, b.drop_last(), f);
        assert((a + b).drop_last() =~= a + b.drop_last());
        assert((a + b).last() == b.last());
    } else {
        assert(a + b =~= a);
    }
}

/// Lines of one event and one date book on accounts of a type what the event posted, where
/// the date is of the period.
proof fn lemma_dated_lines(
    m: ReadModel,
    lines: Seq<JournalLine<Text>>,
    event: Text,
    date: Text,
    ty: Text,
    from: Text,
    to: Text,
)
    requires
        forall|i: int|
            0 <= i < lines.len() ==> (#[trigger] lines[i]).event_id == event && lines[i].date
                == date,
    ensures
        sum_over(lines, period_debit(m, ty, from, to)) == if !lex_lt(date, from) && !lex_lt(
            to,
            date,
        ) {
            posted(lines, event, typed(m, ty))
        } else {
            0
        },
    decreases lines.len(),
{
    if lines.len() > 0 {
        let front = lines.drop_last();
        assert forall|i: int| 0 <= i < front.len() implies (#[trigger] front[i]).event_id == event
            && front[i].date == date by {
            assert(front[i] == lines[i]);
        }
        lemma_dated_lines(m, front, event, date, ty, from, to);
        let last = lines[lines.len() - 1];
        assert(last.event_id == event && last.date == date);
        let f = |l: JournalLine<Text>| share(l, event, typed(m, ty));
        assert(sum_over(lines, f) == sum_over(front, f) + f(last));
    }
}

/// An event that is reversed right away shows in no period: whatever period is asked for,
/// the accounts of any type have in it what they had before the event and its reversal.
pub proof fn law_reversed_events_show_in_no_period(
    m: ReadModel,
    log: Seq<EventV>,
    target: EventV,
    later: Seq<EventV>,
    ev: EventV,
    target_type: Text,
    reason: Text,
    ty: Text,
    from: Text,
    to: Text,
)
    requires
        distinct(m.accounts),
        unposted(m.journal, target.id),
        unposted(m.journal, ev.id),
        ev.id != target.id,
        !on_accounts(target),
        target.event_type != "TransactionReversed"@,
        project(m, log, target) is Ok,
        ev.event_type == "TransactionReversed"@,
        ev.payload == reversal_payload(
            project(m, log, target)->Ok_0,
            target.id,
            target_type,
            reason,
        ),
        lookup(later, target.id) == Some(target),
        transaction_reversed(project(m, log, target)->Ok_0, later, ev) is Ok,
    ensures
        debited_within(
            transaction_reversed(project(m, log, target)->Ok_0, later, ev)->Ok_0,
            ty,
            from,
            to,
        ) == debited_within(m, ty, from, to),
{
    let k = project(m, log, target)->Ok_0;
    let n = transaction_reversed(k, later, ev)->Ok_0;
    let first = new_lines(m.journal, k.journal);
    let second = new_lines(k.journal, n.journal);
    let date = txt(target.payload, "date"@);
    let on = typed(m, ty);
    let f = period_debit(m, ty, from, to);
    law_reversal_undoes_the_books(m, log, target, later, ev, target_type, reason);
    lemma_reversal_payload(k, target.id, target_type, reason);
    assert(unposted(k.journal, ev.id)) by {
        assert forall|i: int| 0 <= i < k.journal.len() implies (#[trigger] k.journal[i]).event_id
            != ev.id by {
            if i < m.journal.len() {
                assert(k.journal.take(m.journal.len() as int)[i] == m.journal[i]);
            }
        }
    }
    lemma_new_lines(m.journal, target.id, txn_of(target), k.journal, on);
    lemma_new_lines(k.journal, ev.id, ev.id, n.journal, on);
    lemma_unposted(k.journal, ev.id, on);
    law_reversal_takes_back(k, later, ev, target.id, target_type, reason, on);
    lemma_posted_split(k.journal, second, target.id, on);
    assert(unposted(second, target.id));
    lemma_unposted(second, target.id, on);
    law_lines_carry_the_date_of_their_event(m, log, target);
    law_reversals_carry_the_date_of_their_target(k, later, ev, target);
    assert forall|i: int| 0 <= i < first.len() implies (#[trigger] first[i]).event_id == target.id
        && first[i].date == date by {
        assert(first[i] == k.journal[i + m.journal.len()]);
    }
    assert forall|i: int| 0 <= i < second.len() implies (#[trigger] second[i]).event_id == ev.id
        && second[i].date == date by {
        assert(second[i] == n.journal[i + k.journal.len()]);
    }
    lemma_dated_lines(m, first, target.id, date, ty, from, to);
    lemma_dated_lines(m, second, ev.id, date, ty, from, to);
    lemma_sum_concat(m.journal, first, f);
    lemma_sum_concat(k.journal, second, f);
    assert(n.accounts == m.accounts);
    assert(period_debit(n, ty, from, to) =~= f);
    lemma_debited_within(m, ty, from, to);
    lemma_debited_within(n, ty, from, to);
}

proof fn lemma_debited_within(m: ReadModel, ty: Text, from: Text, to: Text)
    ensures
        debited_within(m, ty, from, to) == sum_over(m.journal, period_debit(m, ty, from, to)),
{
    let g = |l: JournalLine<Text>|
        if !lex_lt(l.date, from) && !lex_lt(to, l.date) {
            debited(m, l, ty)
        } else {
            0
        };
    lemma_sum_same(m.journal, g, period_debit(m, ty, from, to));
}

/// The profit and loss statement of any period, where it is given, is after an event and
/// its reversal what it was before both.
pub proof fn law_reversal_undoes_profit_and_loss(
    m: ReadModel,
    log: Seq<EventV>,
    target: EventV,
    later: Seq<EventV>,
    ev: EventV,
    target_type: Text,
    reason: Text,
    from: Text,
    to: Text,
)
    requires
        distinct(m.accounts),
        unposted(m.journal, target.id),
        unposted(m.journal, ev.id),
        ev.id != target.id,
        !on_accounts(target),
        target.event_type != "TransactionReversed"@,
        project(m, log, target) is Ok,
        ev.event_type == "TransactionReversed"@,
        ev.payload == reversal_payload(
            project(m, log, target)->Ok_0,
            target.id,
            target_type,
            reason,
        ),
        lookup(later, target.id) == Some(target),
        transaction_reversed(project(m, log, target)->Ok_0, later, ev) is Ok,
        profit_and_loss_outcome(m, from, to) is Ok,
        profit_and_loss_outcome(
            transaction_reversed(project(m, log, target)->Ok_0, later, ev)->Ok_0,
            from,
            to,
        ) is Ok,
    ensures
        profit_and_loss_outcome(
            transaction_reversed(project(m, log, target)->Ok_0, later, ev)->Ok_0,
            from,
            to,
        ) == profit_and_loss_outcome(m, from, to),
{
    let n = transaction_reversed(project(m, log, target)->Ok_0, later, ev)->Ok_0;
    law_profit_and_loss_is_of_the_period(m, from, to);
    law_profit_and_loss_is_of_the_period(n, from, to);
    law_reversed_events_show_in_no_period(
        m,
        log,
        target,
        later,
        ev,
        target_type,
        reason,
        "income"@,
        from,
        to,
    );
    law_reversed_events_show_in_no_period(
        m,
        log,
        target,
        later,
        ev,
        target_type,
        reason,
        "expense"@,
        from,
        to,
    );
}

} // verus!
