//! What statements count: which journal lines, which sale lines, and on which side.

use crate::json::opt_txt;
use crate::model::Text;
use crate::queries::statements::{period_total, profit_and_loss_outcome};
use crate::rows::lookup;
use crate::sums::{lemma_total_is_exact, sum_over, total};
use crate::tables::{JournalLine, ReadModel};
use crate::text::{
    lemma_lex_asymmetric, lemma_lex_irreflexive, lemma_lex_total, lemma_lex_transitive, lex_lt,
};
use vstd::prelude::*;

verus! {

/// The line is dated neither before `from` nor after `to`.
pub open spec fn dated_within(from: Text, to: Text) -> spec_fn(JournalLine<Text>) -> bool {
    |l: JournalLine<Text>| !lex_lt(l.date, from) && !lex_lt(to, l.date)
}

/// What the line books on an account whose document gives it the type: debits less
/// credits.
pub open spec fn debited(m: ReadModel, l: JournalLine<Text>, ty: Text) -> int {
    match lookup(m.accounts, l.account_id) {
        Some(a) => if opt_txt(a.doc, "type"@) == Some(ty) {
            l.debit_minor - l.credit_minor
        } else {
            0
        },
        None => 0,
    }
}

/// What the lines of a period book on accounts of the type: debits less credits.
pub open spec fn debited_within(m: ReadModel, ty: Text, from: Text, to: Text) -> int {
    sum_over(
        m.journal,
        |l: JournalLine<Text>|
            if !lex_lt(l.date, from) && !lex_lt(to, l.date) {
                debited(m, l, ty)
            } else {
                0
            },
    )
}

/// The read model with only those journal lines that a condition keeps.
pub open spec fn with_lines(
    m: ReadModel,
    keep: spec_fn(JournalLine<Text>) -> bool,
) -> ReadModel {
    ReadModel { journal: m.journal.filter(keep), ..m }
}

/// Two figures that agree on every row have one sum.
pub proof fn lemma_sum_same<R>(t: Seq<R>, f: spec_fn(R) -> int, g: spec_fn(R) -> int)
    requires
        forall|i: int| 0 <= i < t.len() ==> f(#[trigger] t[i]) == g(t[i]),
    ensures
        sum_over(t, f) == sum_over(t, g),
    decreases t.len(),
{
    if t.len() > 0 {
        let front = t.drop_last();
        assert forall|i: int| 0 <= i < front.len() implies f(#[trigger] front[i]) == g(front[i]) by {
            assert(front[i] == t[i]);
        }
        lemma_sum_same(front, f, g);
        assert(t.last() == t[t.len() - 1]);
    }
}

/// The sums of two figures add up to the sum of a third that is their sum on every row.
pub proof fn lemma_sum_plus<R>(
    t: Seq<R>,
    f: spec_fn(R) -> int,
    g: spec_fn(R) -> int,
    h: spec_fn(R) -> int,
)
    requires
        forall|i: int| 0 <= i < t.len() ==> h(#[trigger] t[i]) == f(t[i]) + g(t[i]),
    ensures
        sum_over(t, h) == sum_over(t, f) + sum_over(t, g),
    decreases t.len(),
{
    if t.len() > 0 {
        let front = t.drop_last();
        assert forall|i: int| 0 <= i < front.len() implies h(#[trigger] front[i]) == f(front[i])
            + g(front[i]) by {
            assert(front[i] == t[i]);
        }
        lemma_sum_plus(front, f, g, h);
        assert(t.last() == t[t.len() - 1]);
    }
}

/// A figure with the opposite sign has the opposite sum.
pub proof fn lemma_sum_minus<R>(t: Seq<R>, f: spec_fn(R) -> int, g: spec_fn(R) -> int)
    requires
        forall|i: int| 0 <= i < t.len() ==> f(#[trigger] t[i]) == -g(t[i]),
    ensures
        sum_over(t, f) == -sum_over(t, g),
    decreases t.len(),
{
    if t.len() > 0 {
        let front = t.drop_last();
        assert forall|i: int| 0 <= i < front.len() implies f(#[trigger] front[i]) == -g(
            front[i],
        ) by {
            assert(front[i] == t[i]);
        }
        lemma_sum_minus(front, f, g);
        assert(t.last() == t[t.len() - 1]);
    }
}

/// Rows on which the figure is nothing may be left out of a sum that is kept within its
/// range.
proof fn lemma_total_filter<R>(
    t: Seq<R>,
    f: spec_fn(R) -> int,
    g: spec_fn(R) -> int,
    keep: spec_fn(R) -> bool,
)
    requires
        forall|r: R| #[trigger] f(r) == g(r),
        forall|r: R| !keep(r) ==> #[trigger] f(r) == 0,
    ensures
        total(t, f) == total(t.filter(keep), g),
    decreases t.len(),
{
    reveal(Seq::filter);
    if t.len() > 0 {
        lemma_total_filter(t.drop_last(), f, g, keep);
        let r = t.last();
        assert(f(r) == g(r));
        if keep(r) {
            let s = t.drop_last().filter(keep);
            assert(s.push(r).drop_last() =~= s);
            assert(s.push(r).last() == r);
            assert(t.filter(keep) =~= s.push(r));
        } else {
            assert(f(r) == 0);
        }
    }
}

/// Leaving out lines that are not of the period leaves a period's sum as it is.
proof fn lemma_period_filter(m: ReadModel, ty: Text, credits: bool, from: Text, to: Text)
    ensures
        period_total(m, ty, credits, from, to) == period_total(
            with_lines(m, dated_within(from, to)),
            ty,
            credits,
            from,
            to,
        ),
{
    let n = with_lines(m, dated_within(from, to));
    let f = period_figure(m, ty, credits, from, to);
    let g = period_figure(n, ty, credits, from, to);
    lemma_total_filter(m.journal, f, g, dated_within(from, to));
    lemma_period_figure(m, ty, credits, from, to);
    lemma_period_figure(n, ty, credits, from, to);
}

/// What a line counts for in a period.
pub open spec fn period_figure(m: ReadModel, ty: Text, credits: bool, from: Text, to: Text) -> spec_fn(
    JournalLine<Text>,
) -> int {
    |l: JournalLine<Text>|
        if !lex_lt(l.date, from) && !lex_lt(to, l.date) {
            if credits {
                -debited(m, l, ty)
            } else {
                debited(m, l, ty)
            }
        } else {
            0
        }
}

/// A sum over rows is that of any figure that agrees on every row.
pub proof fn lemma_total_same<R>(t: Seq<R>, f: spec_fn(R) -> int, g: spec_fn(R) -> int)
    requires
        forall|i: int| 0 <= i < t.len() ==> f(#[trigger] t[i]) == g(t[i]),
    ensures
        total(t, f) == total(t, g),
    decreases t.len(),
{
    if t.len() > 0 {
        let front = t.drop_last();
        assert forall|i: int| 0 <= i < front.len() implies f(#[trigger] front[i]) == g(front[i]) by {
            assert(front[i] == t[i]);
        }
        lemma_total_same(front, f, g);
        assert(t.last() == t[t.len() - 1]);
    }
}

proof fn lemma_period_figure(m: ReadModel, ty: Text, credits: bool, from: Text, to: Text)
    ensures
        period_total(m, ty, credits, from, to) == total(
            m.journal,
            period_figure(m, ty, credits, from, to),
        ),
{
    let f = |l: JournalLine<Text>|
        if crate::queries::statements::booked(m, l, ty, from, to) {
            if credits {
                l.credit_minor - l.debit_minor
            } else {
                l.debit_minor - l.credit_minor
            }
        } else {
            0
        };
    let g = period_figure(m, ty, credits, from, to);
    assert forall|i: int| 0 <= i < m.journal.len() implies f(#[trigger] m.journal[i]) == g(
        m.journal[i],
    ) by {
        let d = m.journal[i].date;
        lemma_lex_total(from, d);
        lemma_lex_total(d, to);
        if lex_lt(from, d) {
            lemma_lex_asymmetric(from, d);
        }
        if lex_lt(d, to) {
            lemma_lex_asymmetric(d, to);
        }
        lemma_lex_irreflexive(d);
    }
    lemma_total_same(m.journal, f, g);
    assert(period_total(m, ty, credits, from, to) == total(m.journal, f));
}

/// A journal line dated before the period or after it has no influence on the profit and
/// loss statement.
pub proof fn law_lines_out_of_the_period_do_not_count(m: ReadModel, from: Text, to: Text)
    ensures
        profit_and_loss_outcome(m, from, to) == profit_and_loss_outcome(
            with_lines(m, dated_within(from, to)),
            from,
            to,
        ),
{
    lemma_period_filter(m, "income"@, true, from, to);
    lemma_period_filter(m, "expense"@, false, from, to);
}

proof fn lemma_period_exact(m: ReadModel, ty: Text, credits: bool, from: Text, to: Text)
    ensures
        period_total(m, ty, credits, from, to) matches Some(v) ==> v == if credits {
            -debited_within(m, ty, from, to)
        } else {
            debited_within(m, ty, from, to)
        },
{
    lemma_period_figure(m, ty, credits, from, to);
    let f = period_figure(m, ty, credits, from, to);
    let g = |l: JournalLine<Text>|
        if !lex_lt(l.date, from) && !lex_lt(to, l.date) {
            debited(m, l, ty)
        } else {
            0
        };
    lemma_total_is_exact(m.journal, f);
    if credits {
        lemma_sum_minus(m.journal, f, g);
    } else {
        lemma_sum_same(m.journal, f, g);
    }
}

/// A profit and loss statement gives as income what the lines of the period credit to
/// accounts of the type income, less what they debit; as expense what they debit to
/// accounts of the type expense, less what they credit; and as net profit the
/// difference.
pub proof fn law_profit_and_loss_is_of_the_period(m: ReadModel, from: Text, to: Text)
    ensures
        profit_and_loss_outcome(m, from, to) matches Ok(p) ==> {
            &&& p.income_minor == -debited_within(m, "income"@, from, to)
            &&& p.expense_minor == debited_within(m, "expense"@, from, to)
            &&& p.net_profit_minor == p.income_minor - p.expense_minor
        },
{
    lemma_period_exact(m, "income"@, true, from, to);
    lemma_period_exact(m, "expense"@, false, from, to);
}

proof fn lemma_periods_split(
    m: ReadModel,
    ty: Text,
    from: Text,
    mid: Text,
    next: Text,
    to: Text,
)
    requires
        !lex_lt(mid, from),
        lex_lt(mid, next),
        !lex_lt(to, next),
        forall|i: int|
            0 <= i < m.journal.len() ==> !(lex_lt(mid, (#[trigger] m.journal[i]).date) && lex_lt(
                m.journal[i].date,
                next,
            )),
    ensures
        debited_within(m, ty, from, to) == debited_within(m, ty, from, mid) + debited_within(
            m,
            ty,
            next,
            to,
        ),
{
    let f = |l: JournalLine<Text>|
        if !lex_lt(l.date, from) && !lex_lt(mid, l.date) {
            debited(m, l, ty)
        } else {
            0
        };
    let g = |l: JournalLine<Text>|
        if !lex_lt(l.date, next) && !lex_lt(to, l.date) {
            debited(m, l, ty)
        } else {
            0
        };
    let h = |l: JournalLine<Text>|
        if !lex_lt(l.date, from) && !lex_lt(to, l.date) {
            debited(m, l, ty)
        } else {
            0
        };
    assert forall|i: int| 0 <= i < m.journal.len() implies h(#[trigger] m.journal[i]) == f(
        m.journal[i],
    ) + g(m.journal[i]) by {
        let d = m.journal[i].date;
        if lex_lt(mid, d) {
            // not before `next`, hence not before `from` either
            if lex_lt(d, from) {
                lemma_lex_transitive(mid, d, from);
            }
        } else {
            // not after `mid`, hence before `next`, and not after `to` either
            lemma_lex_total(mid, d);
            if lex_lt(d, mid) {
                lemma_lex_transitive(d, mid, next);
            }
            if lex_lt(to, d) {
                if lex_lt(d, next) {
                    lemma_lex_transitive(to, d, next);
                }
            }
        }
    }
    lemma_sum_plus(m.journal, f, g, h);
}

/// The statements of two periods that meet, with no line dated between them, add up to
/// the statement of both.
pub proof fn law_periods_that_meet_add_up(
    m: ReadModel,
    from: Text,
    mid: Text,
    next: Text,
    to: Text,
)
    requires
        !lex_lt(mid, from),
        lex_lt(mid, next),
        !lex_lt(to, next),
        forall|i: int|
            0 <= i < m.journal.len() ==> !(lex_lt(mid, (#[trigger] m.journal[i]).date) && lex_lt(
                m.journal[i].date,
                next,
            )),
        profit_and_loss_outcome(m, from, mid) is Ok,
        profit_and_loss_outcome(m, next, to) is Ok,
        profit_and_loss_outcome(m, from, to) is Ok,
    ensures
        ({
            let a = profit_and_loss_outcome(m, from, mid)->Ok_0;
            let b = profit_and_loss_outcome(m, next, to)->Ok_0;
            let c = profit_and_loss_outcome(m, from, to)->Ok_0;
            &&& c.income_minor == a.income_minor + b.income_minor
            &&& c.expense_minor == a.expense_minor + b.expense_minor
            &&& c.net_profit_minor == a.net_profit_minor + b.net_profit_minor
        }),
{
    law_profit_and_loss_is_of_the_period(m, from, mid);
    law_profit_and_loss_is_of_the_period(m, next, to);
    law_profit_and_loss_is_of_the_period(m, from, to);
    lemma_periods_split(m, "income"@, from, mid, next, to);
    lemma_periods_split(m, "expense"@, from, mid, next, to);
}

} // verus!
