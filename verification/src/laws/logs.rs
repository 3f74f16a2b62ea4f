//! The log: how events are numbered, stamped, ordered and merged.

use crate::archive::{ArchiveError, ArchiveFault};
use crate::archive::import::{first_error, first_failure, imbalance, merge_outcome, merged_from};
use crate::db::Store;
use crate::events::{
    append_clock, append_outcome, latest_stamp, max_seq, numbered, raw_conflict, replay_order,
    top_seq, EventV,
};
use crate::hlc::{can_observe, can_tick, observed, stamp, ticked, Hlc};
use crate::json::JsonV;
use crate::laws::reversal::lemma_sum_sorted;
use crate::laws::totals::law_valuation_adds_up;
use crate::model::{Fault, Text};
use crate::projectors::rebuilt;
use crate::reconciliation::{
    double_entry_from, findings, gross_profit_finding, inventory_valuation_finding,
    invoice_outstanding_finding, negative_credit_from, negative_lot_from, party_balances_finding,
    unbound_lot_from, CheckOutcome, Finding,
};
use crate::rows::{holds, lemma_has, place, Keyed};
use crate::service::dashboard;
use crate::sort::{before, lemma_sorted, sorted};
use crate::sums::{lemma_total_is_exact, sum_over};
use crate::tables::{Balance, Lot, ReadModel};
use crate::text::{lemma_lex_irreflexive, lemma_lex_total, lemma_lex_transitive, lex_lt};
use vstd::prelude::*;

verus! {

// ---- numbers ----

proof fn lemma_top_seq(log: Seq<EventV>, device: Text)
    ensures
        match top_seq(log, device) {
            Some(s) => numbered(log, device, s) && forall|i: int|
                0 <= i < log.len() && (#[trigger] log[i]).device_id == device ==> log[i].seq <= s,
            None => forall|i: int| 0 <= i < log.len() ==> (#[trigger] log[i]).device_id != device,
        },
    decreases log.len(),
{
    if log.len() > 0 {
        let front = log.drop_last();
        lemma_top_seq(front, device);
        let last = log[log.len() - 1];
        assert(last == log.last());
        assert forall|i: int| 0 <= i < front.len() implies #[trigger] front[i] == log[i] by {}
        match top_seq(log, device) {
            Some(s) => {
                if top_seq(front, device) == Some(s) {
                    let i = choose|i: int|
                        0 <= i < front.len() && (#[trigger] front[i]).device_id == device
                            && front[i].seq == s;
                    assert(log[i].device_id == device && log[i].seq == s);
                } else {
                    assert(last.device_id == device && last.seq == s);
                }
                assert forall|i: int| 0 <= i < log.len() && (#[trigger] log[i]).device_id
                    == device implies log[i].seq <= s by {
                    if i < front.len() {
                        assert(front[i] == log[i]);
                    }
                }
            },
            None => {
                assert forall|i: int| 0 <= i < log.len() implies (#[trigger] log[i]).device_id
                    != device by {
                    if i < front.len() {
                        assert(front[i] == log[i]);
                    }
                }
            },
        }
    }
}

/// The highest number of a device is that of one of its events, and none of them has a
/// higher one; a device without events has zero.
pub proof fn law_highest_number(log: Seq<EventV>, device: Text)
    ensures
        forall|i: int|
            0 <= i < log.len() && (#[trigger] log[i]).device_id == device ==> log[i].seq <= max_seq(
                log,
                device,
            ),
        (exists|i: int|
            0 <= i < log.len() && (#[trigger] log[i]).device_id == device && log[i].seq == max_seq(
                log,
                device,
            )) || (max_seq(log, device) == 0 && forall|i: int|
            0 <= i < log.len() ==> (#[trigger] log[i]).device_id != device),
{
    lemma_top_seq(log, device);
    if let Some(s) = top_seq(log, device) {
        let i = choose|i: int|
            0 <= i < log.len() && (#[trigger] log[i]).device_id == device && log[i].seq == s;
        assert(log[i].device_id == device && log[i].seq == max_seq(log, device));
    }
}

/// An event that is appended is one that was asked for, by the user, on the device; it
/// carries the stamp of the clock's next tick as its id and its time, a number that follows
/// every other of the device, and the time at which it was made; and its id is new.
pub proof fn law_appended_events(
    log: Seq<EventV>,
    clock: Hlc<Text>,
    now: u64,
    device: Text,
    user: Text,
    event_type: Text,
    payload: JsonV,
)
    ensures
        append_outcome(log, clock, now, device, user, event_type, payload) matches Ok(ev) ==> {
            &&& ev.event_type == event_type
            &&& ev.payload == payload
            &&& ev.device_id == device
            &&& ev.user_id == user
            &&& ev.id == ev.hlc
            &&& ev.hlc == stamp(append_clock(log, clock, now, device))
            &&& now <= i64::MAX ==> ev.created_at == now
            &&& forall|i: int| 0 <= i < log.len() ==> (#[trigger] log[i]).id != ev.id
            &&& forall|i: int|
                0 <= i < log.len() && (#[trigger] log[i]).device_id == device ==> log[i].seq < ev.seq
            &&& ev.seq == max_seq(log, device) + 1
        },
{
    law_highest_number(log, device);
    if let Ok(ev) = append_outcome(log, clock, now, device, user, event_type, payload) {
        lemma_has(log, ev.id);
        assert forall|i: int| 0 <= i < log.len() implies (#[trigger] log[i]).id != ev.id by {
            if log[i].id == ev.id {
                assert(log[i].key() == ev.id);
            }
        }
    }
}

// ---- clocks ----

/// A tick reads the later of the clock's time and physical time, with a counter that
/// starts again where physical time is later and counts on where it is not; a full counter
/// carries one into the time.
pub proof fn law_ticks_read_the_later_time(c: Hlc<Text>, now: u64)
    requires
        can_tick(c, now),
    ensures
        ({
            let n = ticked(c, now);
            &&& n.device_id == c.device_id
            &&& now > c.last_physical ==> n.last_physical == now && n.counter == 0
            &&& now <= c.last_physical && c.counter < 999_999 ==> n.last_physical
                == c.last_physical && n.counter == c.counter + 1
            &&& now <= c.last_physical && c.counter >= 999_999 ==> n.last_physical
                == c.last_physical + 1 && n.counter == 0
        }),
{
}

/// A clock that saw a remote stamp reads after its own reading and after the remote one; it
/// reads the latest of its own time, the remote time and physical time, or one later where
/// a counter was full.
pub proof fn law_observing_reads_the_latest_time(c: Hlc<Text>, r: (u64, u64), now: u64)
    requires
        can_observe(c, r, now),
    ensures
        ({
            let n = observed(c, r, now);
            &&& n.device_id == c.device_id
            &&& n.last_physical > c.last_physical || (n.last_physical == c.last_physical
                && n.counter > c.counter)
            &&& n.last_physical > r.0 || (n.last_physical == r.0 && n.counter > r.1)
            &&& n.last_physical >= now
            &&& n.last_physical == now || n.last_physical == c.last_physical || n.last_physical
                == r.0 || n.last_physical == c.last_physical + 1 || n.last_physical == r.0 + 1
            &&& n.counter <= 999_999
            &&& n.counter == 0 || n.counter == c.counter + 1 || n.counter == r.1 + 1 || n.counter
                == 1
        }),
{
}

// ---- order ----

/// Events are replayed all, by their stamps, those of one stamp by their ids.
pub proof fn law_replay_is_in_order_of_stamps(log: Seq<EventV>)
    ensures
        replay_order(log).len() == log.len(),
        forall|e: EventV| #[trigger] replay_order(log).contains(e) <==> log.contains(e),
        forall|i: int, j: int|
            0 <= i < j < log.len() ==> {
                let a = #[trigger] replay_order(log)[i];
                let b = #[trigger] replay_order(log)[j];
                !lex_lt(b.hlc, a.hlc) && (b.hlc == a.hlc ==> !lex_lt(b.id, a.id))
            },
{
    broadcast use vstd::seq_lib::group_to_multiset_ensures;

    let r = replay_order(log);
    lemma_sorted(log);
    assert forall|e: EventV| #[trigger] r.contains(e) <==> log.contains(e) by {
        assert(r.to_multiset().count(e) == log.to_multiset().count(e));
    }
    assert forall|i: int, j: int| 0 <= i < j < log.len() implies {
        let a = #[trigger] replay_order(log)[i];
        let b = #[trigger] replay_order(log)[j];
        !lex_lt(b.hlc, a.hlc) && (b.hlc == a.hlc ==> !lex_lt(b.id, a.id))
    } by {
        assert(!before(r[j], r[i]));
    }
}

/// The latest stamp of a log is that of one of its events, and none of them has a later
/// one.
pub proof fn law_latest_stamp(log: Seq<EventV>)
    ensures
        match latest_stamp(log) {
            None => log.len() == 0,
            Some(s) => (exists|i: int| 0 <= i < log.len() && (#[trigger] log[i]).hlc == s) && (
            forall|i: int| 0 <= i < log.len() ==> !lex_lt(s, (#[trigger] log[i]).hlc)),
        },
    decreases log.len(),
{
    if log.len() > 0 {
        let front = log.drop_last();
        law_latest_stamp(front);
        let last = log[log.len() - 1];
        assert(last == log.last());
        let s = latest_stamp(log)->0;
        lemma_lex_irreflexive(last.hlc);
        if let Some(m) = latest_stamp(front) {
            let i = choose|i: int| 0 <= i < front.len() && (#[trigger] front[i]).hlc == m;
            assert(log[i].hlc == m);
            lemma_lex_irreflexive(m);
            assert(log[log.len() - 1].hlc == last.hlc);
            assert forall|j: int| 0 <= j < log.len() implies !lex_lt(
                s,
                (#[trigger] log[j]).hlc,
            ) by {
                if j < front.len() {
                    assert(front[j] == log[j]);
                    if lex_lt(m, last.hlc) && lex_lt(last.hlc, log[j].hlc) {
                        lemma_lex_transitive(m, last.hlc, log[j].hlc);
                    }
                }
            }
        } else {
            assert(log[0] == last);
        }
    }
}

// ---- merging ----

/// Merging events into a log keeps the log and puts behind it only events that were given,
/// under new ids; and every given event is in it by its id.
pub proof fn law_merging_adds_what_is_new(log: Seq<EventV>, evs: Seq<EventV>, i: int)
    requires
        0 <= i,
    ensures
        merged_from(log, evs, i) matches Ok(r) ==> {
            &&& log.len() <= r.len()
            &&& r.take(log.len() as int) == log
            &&& forall|k: int|
                log.len() <= k < r.len() ==> exists|j: int|
                    i <= j < evs.len() && evs[j] == #[trigger] r[k]
            &&& forall|j: int|
                i <= j < evs.len() ==> exists|k: int|
                    0 <= k < r.len() && (#[trigger] r[k]).id == (#[trigger] evs[j]).id
            &&& forall|k: int, l: int|
                log.len() <= k < r.len() && 0 <= l < k ==> (#[trigger] r[l]).id != (
                #[trigger] r[k]).id && !(r[l].device_id == r[k].device_id && r[l].seq == r[k].seq)
        },
    decreases evs.len() - i,
{
    if i < evs.len() {
        let e = evs[i];
        lemma_has(log, e.id);
        if holds(log, e.id) {
            law_merging_adds_what_is_new(log, evs, i + 1);
            if let Ok(r) = merged_from(log, evs, i) {
                let at = place(log, e.id)->0;
                assert(r.take(log.len() as int)[at] == log[at]);
                assert(log[at].key() == e.id);
                assert(r[at].id == e.id);
                assert forall|k: int| log.len() <= k < r.len() implies exists|j: int|
                    i <= j < evs.len() && evs[j] == #[trigger] r[k] by {
                    let j = choose|j: int| i + 1 <= j < evs.len() && evs[j] == r[k];
                    assert(evs[j] == r[k]);
                }
                assert forall|j: int| i <= j < evs.len() implies exists|k: int|
                    0 <= k < r.len() && (#[trigger] r[k]).id == (#[trigger] evs[j]).id by {
                    if j == i {
                        assert(r[at].id == evs[j].id);
                    }
                }
            }
        } else if !numbered(log, e.device_id, e.seq) {
            let next = log.push(e);
            law_merging_adds_what_is_new(next, evs, i + 1);
            if let Ok(r) = merged_from(log, evs, i) {
                let n = log.len() as int;
                assert(r.take(n + 1)[n] == next[n]);
                assert(r[n] == e);
                assert(r.take(n) =~= log) by {
                    assert forall|x: int| 0 <= x < n implies r[x] == log[x] by {
                        assert(r.take(n + 1)[x] == next[x]);
                    }
                }
                assert forall|k: int| log.len() <= k < r.len() implies exists|j: int|
                    i <= j < evs.len() && evs[j] == #[trigger] r[k] by {
                    if k == n {
                        assert(evs[i] == r[k]);
                    } else {
                        let j = choose|j: int| i + 1 <= j < evs.len() && evs[j] == r[k];
                        assert(evs[j] == r[k]);
                    }
                }
                assert forall|j: int| i <= j < evs.len() implies exists|k: int|
                    0 <= k < r.len() && (#[trigger] r[k]).id == (#[trigger] evs[j]).id by {
                    if j == i {
                        assert(r[n].id == evs[j].id);
                    }
                }
                assert forall|k: int, l: int| log.len() <= k < r.len() && 0 <= l < k implies (
                #[trigger] r[l]).id != (#[trigger] r[k]).id && !(r[l].device_id == r[k].device_id
                    && r[l].seq == r[k].seq) by {
                    if k == n {
                        assert(r.take(n)[l] == log[l]);
                        if log[l].id == e.id {
                            assert(log[l].key() == e.id);
                        }
                    }
                }
            }
        }
    }
}

/// Merging is refused only for an event whose number its device used for another already.
pub proof fn law_merging_refuses_collisions(log: Seq<EventV>, evs: Seq<EventV>, i: int)
    requires
        0 <= i,
    ensures
        merged_from(log, evs, i) matches Err(e) ==> exists|j: int|
            i <= j < evs.len() && e == (ArchiveError::Collision {
                device_id: (#[trigger] evs[j]).device_id,
                seq: evs[j].seq,
            }),
    decreases evs.len() - i,
{
    if i < evs.len() {
        let e = evs[i];
        if holds(log, e.id) {
            law_merging_refuses_collisions(log, evs, i + 1);
        } else if !numbered(log, e.device_id, e.seq) {
            law_merging_refuses_collisions(log.push(e), evs, i + 1);
        } else {
            assert(evs[i] == e);
        }
    }
}

proof fn lemma_first_error(f: Seq<Result<Finding, Fault>>, i: int)
    requires
        0 <= i,
    ensures
        first_error(f, i) is None <==> forall|k: int| i <= k < f.len() ==> (#[trigger] f[k]) is Ok,
    decreases f.len() - i,
{
    if i < f.len() {
        lemma_first_error(f, i + 1);
        if f[i] is Err {
            assert(!(f[i] is Ok));
        }
    }
}

proof fn lemma_first_failure(f: Seq<Result<Finding, Fault>>, i: int)
    requires
        0 <= i,
    ensures
        first_failure(f, i) is None <==> forall|k: int|
            i <= k < f.len() ==> !((#[trigger] f[k]) matches Ok(CheckOutcome::Fail(_))),
    decreases f.len() - i,
{
    if i < f.len() {
        lemma_first_failure(f, i + 1);
        if f[i] matches Ok(CheckOutcome::Fail(_)) {
            assert(f[i] matches Ok(CheckOutcome::Fail(_)));
        }
    }
}

/// A ledger is found balanced exactly where every one of the eight checks passes.
pub proof fn law_balanced_ledgers_pass_every_check(m: ReadModel)
    ensures
        findings(m).len() == 8,
        imbalance(m) is None <==> forall|k: int|
            0 <= k < 8 ==> #[trigger] findings(m)[k] == Ok::<Finding, Fault>(CheckOutcome::Pass),
{
    let f = findings(m);
    lemma_first_error(f, 0);
    lemma_first_failure(f, 0);
    if imbalance(m) is None {
        assert forall|k: int| 0 <= k < 8 implies #[trigger] findings(m)[k] == Ok::<Finding, Fault>(
            CheckOutcome::Pass,
        ) by {
            assert(f[k] is Ok);
            assert(!(f[k] matches Ok(CheckOutcome::Fail(_))));
        }
    }
    if forall|k: int|
        0 <= k < 8 ==> #[trigger] findings(m)[k] == Ok::<Finding, Fault>(CheckOutcome::Pass) {
        assert forall|k: int| 0 <= k < f.len() implies (#[trigger] f[k]) is Ok && !(f[k] matches Ok(
            CheckOutcome::Fail(_),
        )) by {
            assert(findings(m)[k] == Ok::<Finding, Fault>(CheckOutcome::Pass));
        }
    }
}

/// The checks are those of the stock, the gross profit, the double entries, the parties,
/// the invoices, of lots below nothing, of lots out of bounds and of negative credit.
pub proof fn law_checks_that_are_made(m: ReadModel)
    ensures
        findings(m)[0] == inventory_valuation_finding(m),
        findings(m)[1] == gross_profit_finding(m),
        findings(m)[2] == double_entry_from(m.journal, 0),
        findings(m)[3] == party_balances_finding(m),
        findings(m)[4] == invoice_outstanding_finding(m),
        findings(m)[5] == Ok::<Finding, Fault>(negative_lot_from(m.lots, 0)),
        findings(m)[6] == Ok::<Finding, Fault>(unbound_lot_from(m.lots, 0)),
        findings(m)[7] == Ok::<Finding, Fault>(negative_credit_from(m.balances, 0)),
{
}

/// The dashboard shows what the units in all lots cost, what all parties owe and are owed,
/// and whether no check fails.
pub proof fn law_dashboard_adds_up(m: ReadModel)
    ensures
        dashboard(m) matches Ok(d) ==> {
            &&& d.inventory_value == sum_over(
                m.lots,
                |l: Lot<Text>| l.qty_remaining * l.unit_cost_minor,
            )
            &&& d.total_receivable == sum_over(
                m.balances,
                |b: Balance<Text>| b.receivable_minor as int,
            )
            &&& d.total_payable == sum_over(m.balances, |b: Balance<Text>| b.payable_minor as int)
            &&& d.checks_passing <==> forall|k: int|
                0 <= k < findings(m).len() ==> !((#[trigger] findings(m)[k]) matches Ok(
                    CheckOutcome::Fail(_),
                ))
        },
{
    law_valuation_adds_up(m);
    let f = |b: Balance<Text>| b.receivable_minor as int;
    let g = |b: Balance<Text>| b.payable_minor as int;
    lemma_total_is_exact(sorted(m.balances), f);
    lemma_total_is_exact(sorted(m.balances), g);
    lemma_sum_sorted(m.balances, f);
    lemma_sum_sorted(m.balances, g);
    lemma_first_failure(findings(m), 0);
}

/// An event joins the log as it is exactly where no event of the log has its id, nor its
/// number on its device.
pub proof fn law_new_events_may_join(log: Seq<EventV>, ev: EventV)
    ensures
        raw_conflict(log, ev) is None <==> forall|i: int|
            0 <= i < log.len() ==> (#[trigger] log[i]).id != ev.id && !(log[i].device_id
                == ev.device_id && log[i].seq == ev.seq),
{
    lemma_has(log, ev.id);
    if raw_conflict(log, ev) is None {
        assert forall|i: int| 0 <= i < log.len() implies (#[trigger] log[i]).id != ev.id && !(
        log[i].device_id == ev.device_id && log[i].seq == ev.seq) by {
            if log[i].id == ev.id {
                assert(log[i].key() == ev.id);
            }
        }
    }
    if holds(log, ev.id) {
        let at = place(log, ev.id)->0;
        assert(log[at].key() == ev.id);
        assert(log[at].id == ev.id);
    }
}

/// Rebuilding leaves the log and the settings alone, and the cursor at the latest stamp of
/// the log.
pub proof fn law_rebuilding_keeps_the_log(s: Store)
    ensures
        rebuilt(s) matches Ok(n) ==> {
            &&& n.events == s.events
            &&& n.settings == s.settings
            &&& n.cursor matches Some(c) ==> (exists|i: int|
                0 <= i < s.events.len() && (#[trigger] s.events[i]).hlc == c) && forall|i: int|
                0 <= i < s.events.len() ==> !lex_lt(c, (#[trigger] s.events[i]).hlc)
            &&& n.cursor is None ==> forall|i: int|
                0 <= i < s.events.len() ==> (#[trigger] s.events[i]).hlc.len() == 0
        },
{
    let log = s.events;
    let r = replay_order(log);
    law_replay_is_in_order_of_stamps(log);
    if r.len() > 0 {
        let last = r[r.len() - 1];
        assert(last == r.last());
        assert(r.contains(last));
        let at = choose|i: int| 0 <= i < log.len() && log[i] == last;
        assert(log[at].hlc == last.hlc);
        assert forall|i: int| 0 <= i < log.len() implies !lex_lt(
            last.hlc,
            (#[trigger] log[i]).hlc,
        ) by {
            assert(log.contains(log[i]));
            assert(r.contains(log[i]));
            let j = choose|j: int| 0 <= j < r.len() && r[j] == log[i];
            if j == r.len() - 1 {
                lemma_lex_irreflexive(last.hlc);
            } else {
                assert(!lex_lt(r[r.len() - 1].hlc, r[j].hlc));
            }
        }
        assert forall|i: int| 0 <= i < log.len() && last.hlc.len() == 0 implies (
        #[trigger] log[i]).hlc.len() == 0 by {
            assert(!lex_lt(last.hlc, log[i].hlc));
            lemma_lex_total(last.hlc, log[i].hlc);
        }
    }
}

/// A merge that succeeds leaves the settings alone, gives the log with the new events
/// behind it, and books that pass every check.
pub proof fn law_merged_books_pass_every_check(s: Store, evs: Seq<EventV>)
    ensures
        merge_outcome(s, evs) matches Ok(n) ==> {
            &&& n.settings == s.settings
            &&& merged_from(s.events, evs, 0) == Ok::<Seq<EventV>, ArchiveFault>(n.events)
            &&& rebuilt(Store { events: n.events, ..s }) == Ok::<Store, Fault>(n)
            &&& forall|k: int|
                0 <= k < 8 ==> #[trigger] findings(n.model)[k] == Ok::<Finding, Fault>(
                    CheckOutcome::Pass,
                )
        },
{
    if let Ok(n) = merge_outcome(s, evs) {
        let log = merged_from(s.events, evs, 0)->Ok_0;
        law_rebuilding_keeps_the_log(Store { events: log, ..s });
        law_balanced_ledgers_pass_every_check(n.model);
    }
}

} // verus!
