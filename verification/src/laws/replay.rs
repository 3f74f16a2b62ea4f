//! The read model is what replaying the log gives.

use crate::commands::{commit_outcome, Scene};
use crate::db::Store;
use crate::events::{replay_order, EventV};
use crate::json::{txt, JsonV};
use crate::model::{project, replay_from, Fault, Text};
use crate::projectors::rebuilt;
use crate::rows::{distinct, hit, lemma_has, lemma_place, lookup, place, Keyed};
use crate::sort::{before, in_order, lemma_sorted, Ranked};
use crate::tables::{no_rows, ReadModel};
use crate::text::{lemma_lex_asymmetric, lemma_lex_irreflexive, lemma_lex_total, lex_lt};
use vstd::prelude::*;

verus! {

/// The read model of a store is what rebuilding it from the log gives.
pub open spec fn faithful(s: Store) -> bool {
    rebuilt(s) matches Ok(n) && n.model == s.model
}

/// A row that is found stays found when another is appended.
proof fn lemma_lookup_push<R: Keyed>(t: Seq<R>, r: R, k: Text)
    requires
        lookup(t, k) is Some,
    ensures
        lookup(t.push(r), k) == lookup(t, k),
{
    lemma_has(t, k);
    let i = place(t, k)->0;
    assert forall|j: int| 0 <= j < i implies (#[trigger] t.push(r)[j]).key() != k by {
        assert(t[j].key() != k);
    }
    assert(hit(t.push(r), k, i));
    lemma_place(t.push(r), k, i);
}

/// An event that was projected with a log is projected alike with one more event in it.
proof fn lemma_project_push(m: ReadModel, log: Seq<EventV>, more: EventV, ev: EventV)
    requires
        project(m, log, ev) is Ok,
    ensures
        project(m, log.push(more), ev) == project(m, log, ev),
{
    let id = txt(ev.payload, "targetEventId"@);
    if lookup(log, id) is Some {
        lemma_lookup_push(log, more, id);
    }
}

proof fn lemma_replay_push(m: ReadModel, log: Seq<EventV>, more: EventV, s: Seq<EventV>, i: int)
    requires
        0 <= i,
        replay_from(m, log, s, i) is Ok,
    ensures
        replay_from(m, log.push(more), s, i) == replay_from(m, log, s, i),
    decreases s.len() - i,
{
    if i < s.len() {
        lemma_project_push(m, log, more, s[i]);
        lemma_replay_push(project(m, log, s[i])->Ok_0, log, more, s, i + 1);
    }
}

/// Replaying one more event at the end projects it onto what the others gave.
proof fn lemma_replay_last(m: ReadModel, log: Seq<EventV>, s: Seq<EventV>, last: EventV, i: int)
    requires
        0 <= i <= s.len(),
        replay_from(m, log, s, i) is Ok,
    ensures
        replay_from(m, log, s.push(last), i) == project(replay_from(m, log, s, i)->Ok_0, log, last),
    decreases s.len() - i,
{
    let t = s.push(last);
    if i < s.len() {
        assert(t[i] == s[i]);
        lemma_replay_last(project(m, log, s[i])->Ok_0, log, s, last, i + 1);
    } else {
        assert(t[i] == last);
        let o = project(m, log, last);
        if let Ok(n) = o {
            assert(replay_from(n, log, t, i + 1) == Ok::<ReadModel, Fault>(n));
        }
    }
}

/// An event behind all others in replay order is replayed last.
proof fn lemma_order_push(log: Seq<EventV>, ev: EventV)
    requires
        forall|i: int| 0 <= i < log.len() ==> lex_lt((#[trigger] log[i]).hlc, ev.hlc),
    ensures
        replay_order(log.push(ev)) == replay_order(log).push(ev),
{
    broadcast use vstd::seq_lib::group_to_multiset_ensures;

    let s = replay_order(log);
    lemma_sorted(log);
    assert(log.push(ev).drop_last() =~= log);
    if s.len() > 0 {
        let last = s.last();
        assert(s.contains(s[s.len() - 1]));
        assert(s.to_multiset().count(last) > 0);
        assert(log.contains(last));
        let i = choose|i: int| 0 <= i < log.len() && log[i] == last;
        assert(lex_lt(log[i].hlc, ev.hlc));
        lemma_lex_asymmetric(last.hlc, ev.hlc);
        if last.hlc == ev.hlc {
            lemma_lex_irreflexive(ev.hlc);
        }
    }
}

/// Projecting an event as it is committed gives what rebuilding from the longer log
/// would: a read model that replay reproduces stays one, as long as the clock is ahead
/// of the log.
pub proof fn law_commits_agree_with_replay(s: Scene, event_type: Text, payload: JsonV)
    requires
        faithful(s.store),
        commit_outcome(s, event_type, payload) matches Ok(c) && forall|i: int|
            0 <= i < s.store.events.len() ==> lex_lt(
                (#[trigger] s.store.events[i]).hlc,
                c.0.hlc,
            ),
    ensures
        faithful(commit_outcome(s, event_type, payload)->Ok_0.1),
{
    let (ev, store) = commit_outcome(s, event_type, payload)->Ok_0;
    let log = s.store.events;
    let order = replay_order(log);
    lemma_order_push(log, ev);
    lemma_replay_push(no_rows(), log, ev, order, 0);
    lemma_replay_last(no_rows(), log.push(ev), order, ev, 0);
}

/// Rebuilding twice is rebuilding once.
pub proof fn law_rebuild_is_idempotent(s: Store)
    requires
        rebuilt(s) is Ok,
    ensures
        rebuilt(rebuilt(s)->Ok_0) == rebuilt(s),
        faithful(rebuilt(s)->Ok_0),
{
}

/// Two runs in order with the same rows are the same run.
proof fn lemma_one_order<R: Ranked>(a: Seq<R>, b: Seq<R>)
    requires
        in_order(a),
        in_order(b),
        distinct(a),
        distinct(b),
        a.to_multiset() == b.to_multiset(),
        a.len() == b.len(),
    ensures
        a == b,
    decreases a.len(),
{
    broadcast use vstd::seq_lib::group_to_multiset_ensures;

    if a.len() > 0 {
        let x = a.last();
        let y = b.last();
        assert(a.contains(a[a.len() - 1]));
        assert(b.contains(b[b.len() - 1]));
        assert(b.to_multiset().count(x) > 0);
        assert(a.to_multiset().count(y) > 0);
        assert(b.contains(x) && a.contains(y));
        if x != y {
            let i = choose|i: int| 0 <= i < a.len() && a[i] == y;
            let j = choose|j: int| 0 <= j < b.len() && b[j] == x;
            assert(a[a.len() - 1] == x && b[b.len() - 1] == y);
            assert(!before(a[a.len() - 1], a[i]));
            assert(!before(b[b.len() - 1], b[j]));
            assert(a[i].key() != a[a.len() - 1].key());
            lemma_lex_total(x.rank(), y.rank());
            lemma_lex_total(x.key(), y.key());
        }
        let c = a.drop_last();
        let d = b.drop_last();
        assert(a =~= c.push(x));
        assert(b =~= d.push(x));
        assert(c.to_multiset() =~= a.to_multiset().remove(x));
        assert(d.to_multiset() =~= b.to_multiset().remove(x));
        assert(in_order(c)) by {
            assert forall|i: int, j: int| 0 <= i < j < c.len() implies !before(
                #[trigger] c[j],
                #[trigger] c[i],
            ) by {
                assert(c[i] == a[i] && c[j] == a[j]);
            }
        }
        assert(in_order(d)) by {
            assert forall|i: int, j: int| 0 <= i < j < d.len() implies !before(
                #[trigger] d[j],
                #[trigger] d[i],
            ) by {
                assert(d[i] == b[i] && d[j] == b[j]);
            }
        }
        assert(distinct(c)) by {
            assert forall|i: int, j: int| 0 <= i < j < c.len() implies (#[trigger] c[i]).key() != (
            #[trigger] c[j]).key() by {
                assert(c[i] == a[i] && c[j] == a[j]);
            }
        }
        assert(distinct(d)) by {
            assert forall|i: int, j: int| 0 <= i < j < d.len() implies (#[trigger] d[i]).key() != (
            #[trigger] d[j]).key() by {
                assert(d[i] == b[i] && d[j] == b[j]);
            }
        }
        lemma_one_order(c, d);
    } else {
        assert(a =~= b);
    }
}

/// Rows with keys that occur once keep them so in any order.
pub proof fn lemma_distinct_in_any_order<R: Keyed>(a: Seq<R>, b: Seq<R>)
    requires
        distinct(a),
        a.to_multiset() == b.to_multiset(),
    ensures
        distinct(b),
{
    broadcast use vstd::seq_lib::group_to_multiset_ensures;

    assert forall|i: int, j: int| 0 <= i < j < b.len() implies (#[trigger] b[i]).key() != (
    #[trigger] b[j]).key() by {
        assert(b.contains(b[i]) && b.contains(b[j]));
        assert(a.to_multiset().count(b[i]) > 0);
        assert(a.to_multiset().count(b[j]) > 0);
        let p = choose|p: int| 0 <= p < a.len() && a[p] == b[i];
        let q = choose|q: int| 0 <= q < a.len() && a[q] == b[j];
        if p == q {
            lemma_no_twins(a);
            lemma_twice(b, i, j);
        } else if p < q {
            assert(a[p].key() != a[q].key());
        } else {
            assert(a[q].key() != a[p].key());
        }
    }
}

/// A run with keys that occur once holds no row twice.
proof fn lemma_no_twins<R: Keyed>(a: Seq<R>)
    requires
        distinct(a),
    ensures
        forall|r: R| #[trigger] a.to_multiset().count(r) <= 1,
    decreases a.len(),
{
    broadcast use vstd::seq_lib::group_to_multiset_ensures;

    if a.len() > 0 {
        let c = a.drop_last();
        let x = a.last();
        assert(a =~= c.push(x));
        assert(distinct(c)) by {
            assert forall|i: int, j: int| 0 <= i < j < c.len() implies (#[trigger] c[i]).key() != (
            #[trigger] c[j]).key() by {
                assert(c[i] == a[i] && c[j] == a[j]);
            }
        }
        lemma_no_twins(c);
        if c.to_multiset().count(x) > 0 {
            assert(c.contains(x));
            let i = choose|i: int| 0 <= i < c.len() && c[i] == x;
            assert(a[i].key() != a[a.len() - 1].key());
        }
    } else {
        assert(a =~= Seq::<R>::empty());
    }
}

/// A run that holds a row in two places holds it twice.
proof fn lemma_twice<R>(b: Seq<R>, i: int, j: int)
    requires
        0 <= i < j < b.len(),
        b[i] == b[j],
    ensures
        b.to_multiset().count(b[i]) >= 2,
{
    broadcast use vstd::seq_lib::group_to_multiset_ensures;

    let c = b.remove(j);
    assert(c[i] == b[i]);
    assert(c.contains(b[i]));
    assert(c.to_multiset().count(b[i]) > 0);
    assert(c.insert(j, b[j]) =~= b);
    assert(b.to_multiset() =~= c.to_multiset().insert(b[j]));
}

/// A row is found by its key in any order.
proof fn lemma_lookup_in_any_order<R: Keyed>(a: Seq<R>, b: Seq<R>, k: Text)
    requires
        distinct(a),
        distinct(b),
        a.to_multiset() == b.to_multiset(),
    ensures
        lookup(a, k) == lookup(b, k),
{
    broadcast use vstd::seq_lib::group_to_multiset_ensures;

    lemma_has(a, k);
    lemma_has(b, k);
    if place(a, k) is Some {
        let x = a[place(a, k)->0];
        assert(a.contains(x));
        assert(b.to_multiset().count(x) > 0);
        let j = choose|j: int| 0 <= j < b.len() && b[j] == x;
        assert forall|n: int| 0 <= n < j implies (#[trigger] b[n]).key() != k by {
            assert(b[n].key() != b[j].key());
        }
        lemma_place(b, k, j);
    } else if place(b, k) is Some {
        let x = b[place(b, k)->0];
        assert(b.contains(x));
        assert(a.to_multiset().count(x) > 0);
        let j = choose|j: int| 0 <= j < a.len() && a[j] == x;
        assert(a[j].key() == k);
    }
}

proof fn lemma_replay_same(m: ReadModel, a: Seq<EventV>, b: Seq<EventV>, s: Seq<EventV>, i: int)
    requires
        0 <= i,
        forall|k: Text| #[trigger] lookup(a, k) == lookup(b, k),
    ensures
        replay_from(m, a, s, i) == replay_from(m, b, s, i),
    decreases s.len() - i,
{
    if i < s.len() {
        let id = txt(s[i].payload, "targetEventId"@);
        assert(lookup(a, id) == lookup(b, id));
        assert(project(m, a, s[i]) == project(m, b, s[i]));
        if let Ok(n) = project(m, a, s[i]) {
            lemma_replay_same(n, a, b, s, i + 1);
        }
    }
}

/// In which order events arrived does not matter: stores whose logs hold the same events
/// are rebuilt to the same read model.
pub proof fn law_arrival_order_does_not_matter(a: Store, b: Store)
    requires
        distinct(a.events),
        a.events.to_multiset() == b.events.to_multiset(),
    ensures
        replay_order(a.events) == replay_order(b.events),
        rebuilt(a) is Ok <==> rebuilt(b) is Ok,
        rebuilt(a) is Ok ==> rebuilt(a)->Ok_0.model == rebuilt(b)->Ok_0.model,
{
    broadcast use vstd::seq_lib::group_to_multiset_ensures;

    lemma_sorted(a.events);
    lemma_sorted(b.events);
    let p = replay_order(a.events);
    let q = replay_order(b.events);
    lemma_distinct_in_any_order(a.events, b.events);
    lemma_distinct_in_any_order(a.events, p);
    lemma_distinct_in_any_order(a.events, q);
    assert(p.to_multiset().len() == q.to_multiset().len());
    lemma_one_order(p, q);
    assert forall|k: Text| #[trigger] lookup(a.events, k) == lookup(b.events, k) by {
        lemma_lookup_in_any_order(a.events, b.events, k);
    }
    lemma_replay_same(no_rows(), a.events, b.events, p, 0);
}

} // verus!
