//! A reversal takes back what an event posted.

use crate::commands::reversal::{lines_of, reversal_lines, reversal_payload, swapped};
use crate::events::EventV;
use crate::json::{list, num, txt, JsonV};
use crate::laws::double_entry::given_tip;
use crate::laws::frames::{keeps_revert_balances, keeps_revert_lots};
use crate::model::{given_lines_from, journal_line, post, revert_lots, transaction_reversed, Text};
use crate::rows::lookup;
use crate::sort::{before, lemma_sorted, put_sorted, sorted, Ranked};
use crate::sums::sum_over;
use crate::tables::{JournalLine, ReadModel};
use vstd::prelude::*;

verus! {

/// What a journal line of an event adds to some accounts, debits less credits.
pub open spec fn share(l: JournalLine<Text>, event: Text, on: spec_fn(Text) -> bool) -> int {
    if l.event_id == event && on(l.account_id) {
        l.debit_minor - l.credit_minor
    } else {
        0
    }
}

/// What an event posted to some accounts, debits less credits.
pub open spec fn posted(journal: Seq<JournalLine<Text>>, event: Text, on: spec_fn(Text) -> bool) -> int {
    sum_over(journal, |l: JournalLine<Text>| share(l, event, on))
}

/// What stated lines post to some accounts, from line `i` on.
pub open spec fn stated(lines: Seq<JsonV>, on: spec_fn(Text) -> bool, i: int) -> int
    decreases lines.len() - i,
{
    if i < 0 || i >= lines.len() {
        0
    } else {
        (if on(txt(lines[i], "accountId"@)) {
            num(lines[i], "debitMinor"@) - num(lines[i], "creditMinor"@)
        } else {
            0
        }) + stated(lines, on, i + 1)
    }
}

/// Stated lines are posted as they are.
proof fn lemma_stated(
    m: ReadModel,
    ev: EventV,
    lines: Seq<JsonV>,
    date: Text,
    memo: Text,
    i: int,
    event: Text,
    on: spec_fn(Text) -> bool,
)
    requires
        0 <= i,
    ensures
        given_lines_from(m, ev, lines, date, memo, i) matches Ok(n) ==> posted(
            n.journal,
            event,
            on,
        ) == posted(m.journal, event, on) + if event == ev.id {
            stated(lines, on, i)
        } else {
            0
        },
    decreases lines.len() - i,
{
    if i < lines.len() {
        let line = journal_line(
            ev.id,
            ev.id,
            i as nat,
            txt(lines[i], "accountId"@),
            num(lines[i], "debitMinor"@),
            num(lines[i], "creditMinor"@),
            date,
            Some(memo),
        );
        let o = post(
            Ok(m),
            ev.id,
            ev.id,
            i as nat,
            txt(lines[i], "accountId"@),
            num(lines[i], "debitMinor"@),
            num(lines[i], "creditMinor"@),
            date,
            Some(memo),
        );
        if let Ok(n) = o {
            let f = |l: JournalLine<Text>| share(l, event, on);
            assert(n.journal == m.journal.push(line));
            assert(n.journal.drop_last() =~= m.journal);
            assert(sum_over(n.journal, f) == sum_over(m.journal, f) + f(line));
            lemma_stated(n, ev, lines, date, memo, i + 1, event, on);
        }
    }
}

/// A row put into a run adds its figure to the sum.
proof fn lemma_sum_put<R: Ranked>(s: Seq<R>, e: R, f: spec_fn(R) -> int)
    ensures
        sum_over(put_sorted(s, e), f) == sum_over(s, f) + f(e),
    decreases s.len(),
{
    let r = put_sorted(s, e);
    if s.len() == 0 || !before(e, s.last()) {
        assert(r.drop_last() =~= s);
    } else {
        lemma_sum_put(s.drop_last(), e, f);
        assert(r.drop_last() =~= put_sorted(s.drop_last(), e));
    }
}

/// Sorting keeps every sum.
pub proof fn lemma_sum_sorted<R: Ranked>(s: Seq<R>, f: spec_fn(R) -> int)
    ensures
        sum_over(sorted(s), f) == sum_over(s, f),
    decreases s.len(),
{
    if s.len() > 0 {
        lemma_sum_sorted(s.drop_last(), f);
        lemma_sum_put(sorted(s.drop_last()), s.last(), f);
    }
}

/// What the lines of an event add up to on an account.
proof fn lemma_lines_sum(t: Seq<JournalLine<Text>>, event: Text, on: spec_fn(Text) -> bool)
    ensures
        sum_over(lines_of(t, event), |l: JournalLine<Text>| share(l, event, on)) == posted(
            t,
            event,
            on,
        ),
    decreases t.len(),
{
    reveal(Seq::filter);
    let f = |l: JournalLine<Text>| share(l, event, on);
    if t.len() > 0 {
        lemma_lines_sum(t.drop_last(), event, on);
        let front = lines_of(t.drop_last(), event);
        assert(sum_over(t, f) == sum_over(t.drop_last(), f) + f(t.last()));
        if t.last().event_id == event {
            assert(lines_of(t, event) =~= front.push(t.last()));
            assert(front.push(t.last()).drop_last() =~= front);
            assert(sum_over(front.push(t.last()), f) == sum_over(front, f) + f(t.last()));
        } else {
            assert(lines_of(t, event) =~= front);
        }
    }
}

/// What a swapped line states.
proof fn lemma_swapped(l: JournalLine<Text>)
    ensures
        txt(swapped(l), "accountId"@) == l.account_id,
        num(swapped(l), "debitMinor"@) == l.credit_minor,
        num(swapped(l), "creditMinor"@) == l.debit_minor,
{
    reveal_strlit("accountId");
    reveal_strlit("debitMinor");
    reveal_strlit("creditMinor");
    assert("accountId"@.len() == 9);
    assert("debitMinor"@.len() == 10);
    assert("creditMinor"@.len() == 11);
}

/// Swapped lines state the opposite of what the lines posted.
proof fn lemma_stated_swapped(s: Seq<JournalLine<Text>>, lines: Seq<JsonV>, event: Text, on: spec_fn(Text) -> bool, i: int)
    requires
        0 <= i <= s.len(),
        lines.len() == s.len(),
        forall|k: int| 0 <= k < s.len() ==> #[trigger] lines[k] == swapped(s[k]),
        forall|k: int| 0 <= k < s.len() ==> (#[trigger] s[k]).event_id == event,
    ensures
        stated(lines, on, i) == -sum_over(
            s,
            |l: JournalLine<Text>| share(l, event, on),
        ) + sum_over(s.take(i), |l: JournalLine<Text>| share(l, event, on)),
    decreases s.len() - i,
{
    let f = |l: JournalLine<Text>| share(l, event, on);
    if i < s.len() {
        lemma_stated_swapped(s, lines, event, on, i + 1);
        assert(s.take(i + 1).drop_last() =~= s.take(i));
        assert(s.take(i + 1).last() == s[i]);
        assert(lines[i] == swapped(s[i]));
        lemma_swapped(s[i]);
        assert(sum_over(s.take(i + 1), f) == sum_over(s.take(i), f) + f(s[i]));
    } else {
        assert(s.take(i) =~= s);
    }
}

/// Every line that is sorted out of an event's lines is that event's.
proof fn lemma_sorted_lines(t: Seq<JournalLine<Text>>, event: Text)
    ensures
        forall|k: int|
            0 <= k < sorted(lines_of(t, event)).len() ==> (#[trigger] sorted(
                lines_of(t, event),
            )[k]).event_id == event,
{
    broadcast use {vstd::seq_lib::group_filter_ensures, vstd::seq_lib::group_to_multiset_ensures};

    let own = lines_of(t, event);
    let s = sorted(own);
    lemma_sorted(own);
    assert forall|k: int| 0 <= k < s.len() implies (#[trigger] s[k]).event_id == event by {
        assert(s.contains(s[k]));
        assert(s.to_multiset().count(s[k]) > 0);
        assert(own.contains(s[k]));
        let i = choose|i: int| 0 <= i < own.len() && own[i] == s[k];
        assert(own[i].event_id == event);
    }
}

/// What a reversal's lines state is the opposite of what its target posted, on any
/// accounts.
pub proof fn law_reversal_lines_take_back(t: Seq<JournalLine<Text>>, target: Text, on: spec_fn(Text) -> bool)
    ensures
        stated(reversal_lines(t, target), on, 0) == -posted(t, target, on),
{
    let s = sorted(lines_of(t, target));
    let f = |l: JournalLine<Text>| share(l, target, on);
    lemma_sorted_lines(t, target);
    lemma_stated_swapped(s, reversal_lines(t, target), target, on, 0);
    lemma_sum_sorted(lines_of(t, target), f);
    lemma_lines_sum(t, target, on);
    assert(s.take(0) =~= Seq::empty());
}

/// The payload that a reversal is committed with reads back its target and its lines.
pub proof fn lemma_reversal_payload(m: ReadModel, target: Text, ty: Text, reason: Text)
    ensures
        list(reversal_payload(m, target, ty, reason), "reversalJournalLines"@) == reversal_lines(
            m.journal,
            target,
        ),
        txt(reversal_payload(m, target, ty, reason), "targetEventId"@) == target,
{
    reveal_strlit("targetEventId");
    reveal_strlit("targetType");
    reveal_strlit("reason");
    reveal_strlit("reversalJournalLines");
    assert("targetEventId"@.len() == 13);
    assert("targetType"@.len() == 10);
    assert("reason"@.len() == 6);
    assert("reversalJournalLines"@.len() == 20);
}

/// Once a reversal is projected, it and its target together have posted nothing to any
/// accounts.
pub proof fn law_reversal_takes_back(
    m: ReadModel,
    log: Seq<EventV>,
    ev: EventV,
    target: Text,
    ty: Text,
    reason: Text,
    on: spec_fn(Text) -> bool,
)
    requires
        ev.event_type == "TransactionReversed"@,
        ev.payload == reversal_payload(m, target, ty, reason),
        ev.id != target,
        posted(m.journal, ev.id, on) == 0,
        transaction_reversed(m, log, ev) is Ok,
    ensures
        posted(transaction_reversed(m, log, ev)->Ok_0.journal, ev.id, on) + posted(
            transaction_reversed(m, log, ev)->Ok_0.journal,
            target,
            on,
        ) == 0,
{
    lemma_reversal_payload(m, target, ty, reason);
    law_reversal_lines_take_back(m.journal, target, on);
    let lines = reversal_lines(m.journal, target);
    let t = lookup(log, target)->0;
    let date = txt(t.payload, "date"@);
    lemma_stated(m, ev, lines, date, "reversal"@, 0, ev.id, on);
    lemma_stated(m, ev, lines, date, "reversal"@, 0, target, on);
    let k = given_lines_from(m, ev, lines, date, "reversal"@, 0)->Ok_0;
    keeps_revert_lots(k, t);
    keeps_revert_balances(revert_lots(Ok(k), t)->Ok_0, t);
}

/// On all accounts together, stated lines state what they tip.
proof fn lemma_stated_everywhere(lines: Seq<JsonV>, i: int)
    ensures
        stated(lines, |a: Text| true, i) == given_tip(lines, i),
    decreases lines.len() - i,
{
    if 0 <= i < lines.len() {
        lemma_stated_everywhere(lines, i + 1);
    }
}

/// The reversal of an event that debited and credited alike does so too.
pub proof fn law_reversal_of_balanced_is_balanced(t: Seq<JournalLine<Text>>, target: Text)
    requires
        posted(t, target, |a: Text| true) == 0,
    ensures
        given_tip(reversal_lines(t, target), 0) == 0,
{
    law_reversal_lines_take_back(t, target, |a: Text| true);
    lemma_stated_everywhere(reversal_lines(t, target), 0);
}

} // verus!
