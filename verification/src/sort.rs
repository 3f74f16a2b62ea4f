//! Sorting rows.

use crate::rows::{rows, Keyed, Row};
use crate::text::{
    lemma_lex_asymmetric, lemma_lex_irreflexive, lemma_lex_total, lemma_lex_transitive, lex_lt,
    same, sorts_before,
};
use vstd::prelude::*;

verus! {

/// A row's mathematical value that sorts by a rank, rows of one rank by their key.
pub trait Ranked: Keyed {
    /// What the row sorts by first.
    spec fn rank(self) -> Seq<char>;
}

/// A stored row that sorts by a rank.
pub trait RankedRow: Row where Self::V: Ranked {
    /// What the row sorts by first.
    fn rank(&self) -> (r: &str)
        ensures
            r@ == self@.rank(),
    ;
}

/// `a` comes before `b`.
pub open spec fn before<R: Ranked>(a: R, b: R) -> bool {
    lex_lt(a.rank(), b.rank()) || (a.rank() == b.rank() && lex_lt(a.key(), b.key()))
}

/// A sorted run with one more row put in its place: behind every row that does not
/// come after it.
pub open spec fn put_sorted<R: Ranked>(s: Seq<R>, e: R) -> Seq<R>
    decreases s.len(),
{
    if s.len() == 0 || !before(e, s.last()) {
        s.push(e)
    } else {
        put_sorted(s.drop_last(), e).push(s.last())
    }
}

/// The rows in order.
pub open spec fn sorted<R: Ranked>(t: Seq<R>) -> Seq<R>
    decreases t.len(),
{
    if t.len() == 0 {
        Seq::empty()
    } else {
        put_sorted(sorted(t.drop_last()), t.last())
    }
}

/// No row stands behind one that it comes before.
pub open spec fn in_order<R: Ranked>(s: Seq<R>) -> bool {
    forall|i: int, j: int| 0 <= i < j < s.len() ==> !before(#[trigger] s[j], #[trigger] s[i])
}

proof fn lemma_before_transitive<R: Ranked>(a: R, b: R, c: R)
    requires
        before(a, b),
        !before(c, b),
    ensures
        before(a, c),
{
    lemma_lex_total(b.rank(), c.rank());
    if lex_lt(b.rank(), c.rank()) {
        if a.rank() != b.rank() {
            lemma_lex_transitive(a.rank(), b.rank(), c.rank());
        }
    } else if b.rank() == c.rank() {
        lemma_lex_total(b.key(), c.key());
        if a.rank() == b.rank() && lex_lt(b.key(), c.key()) {
            lemma_lex_transitive(a.key(), b.key(), c.key());
        }
    }
}

proof fn lemma_before_asymmetric<R: Ranked>(a: R, b: R)
    requires
        before(a, b),
    ensures
        !before(b, a),
{
    lemma_lex_irreflexive(a.rank());
    if lex_lt(a.rank(), b.rank()) {
        lemma_lex_asymmetric(a.rank(), b.rank());
    } else {
        lemma_lex_asymmetric(a.key(), b.key());
    }
}

/// Where `put_sorted` puts the row.
proof fn lemma_put_at<R: Ranked>(s: Seq<R>, e: R, at: int)
    requires
        0 <= at <= s.len(),
        forall|j: int| at <= j < s.len() ==> before(e, #[trigger] s[j]),
        at > 0 ==> !before(e, s[at - 1]),
    ensures
        put_sorted(s, e) == s.insert(at, e),
    decreases s.len(),
{
    if at == s.len() {
        assert(s.insert(at, e) =~= s.push(e));
    } else {
        let front = s.drop_last();
        assert(s[s.len() - 1] == s.last());
        assert forall|j: int| at <= j < front.len() implies before(e, #[trigger] front[j]) by {
            assert(front[j] == s[j]);
        }
        lemma_put_at(front, e, at);
        assert(front.insert(at, e).push(s.last()) =~= s.insert(at, e));
    }
}

/// Putting a row in its place keeps a run in order and adds just that row.
proof fn lemma_put_sorted<R: Ranked>(s: Seq<R>, e: R)
    requires
        in_order(s),
    ensures
        in_order(put_sorted(s, e)),
        put_sorted(s, e).to_multiset() == s.to_multiset().insert(e),
        put_sorted(s, e).len() == s.len() + 1,
        forall|i: int|
            0 <= i < put_sorted(s, e).len() ==> (#[trigger] put_sorted(s, e)[i] == e
                || s.contains(put_sorted(s, e)[i])),
    decreases s.len(),
{
    broadcast use vstd::seq_lib::group_to_multiset_ensures;

    let r = put_sorted(s, e);
    if s.len() == 0 || !before(e, s.last()) {
        assert forall|i: int, j: int| 0 <= i < j < r.len() implies !before(
            #[trigger] r[j],
            #[trigger] r[i],
        ) by {
            if j == s.len() {
                if before(e, s[i]) {
                    if i < s.len() - 1 {
                        assert(s[s.len() - 1] == s.last());
                        assert(!before(s[s.len() - 1], s[i]));
                    }
                    if i == s.len() - 1 {
                        assert(s[i] == s.last());
                    } else {
                        lemma_before_transitive(e, s[i], s.last());
                    }
                }
            }
        }
        assert forall|i: int| 0 <= i < r.len() implies (#[trigger] r[i] == e || s.contains(r[i])) by {
            if i < s.len() {
                assert(s[i] == r[i]);
            }
        }
    } else {
        let front = s.drop_last();
        lemma_put_sorted(front, e);
        let q = put_sorted(front, e);
        assert(s =~= front.push(s.last()));
        assert forall|i: int, j: int| 0 <= i < j < r.len() implies !before(
            #[trigger] r[j],
            #[trigger] r[i],
        ) by {
            if j == q.len() {
                assert(r[i] == q[i]);
                if q[i] == e {
                    lemma_before_asymmetric(e, s.last());
                } else {
                    assert(front.contains(q[i]));
                    let k = choose|k: int| 0 <= k < front.len() && front[k] == q[i];
                    assert(s[k] == q[i]);
                    assert(s[s.len() - 1] == s.last());
                    assert(!before(s[s.len() - 1], s[k]));
                }
            } else {
                assert(r[i] == q[i] && r[j] == q[j]);
            }
        }
        assert forall|i: int| 0 <= i < r.len() implies (#[trigger] r[i] == e || s.contains(r[i])) by {
            if i < q.len() {
                assert(r[i] == q[i]);
                if q[i] != e {
                    assert(front.contains(q[i]));
                    let k = choose|k: int| 0 <= k < front.len() && front[k] == q[i];
                    assert(s[k] == q[i]);
                }
            } else {
                assert(s[s.len() - 1] == r[i]);
            }
        }
    }
}

/// Sorting puts rows in order and keeps every one of them.
pub proof fn lemma_sorted<R: Ranked>(t: Seq<R>)
    ensures
        in_order(sorted(t)),
        sorted(t).to_multiset() == t.to_multiset(),
        sorted(t).len() == t.len(),
    decreases t.len(),
{
    broadcast use vstd::seq_lib::group_to_multiset_ensures;

    if t.len() > 0 {
        lemma_sorted(t.drop_last());
        lemma_put_sorted(sorted(t.drop_last()), t.last());
        assert(t =~= t.drop_last().push(t.last()));
    } else {
        assert(t =~= Seq::<R>::empty());
    }
}

fn comes_before<R: RankedRow>(a: &R, b: &R) -> (r: bool) where R::V: Ranked
    ensures
        r == before(a@, b@),
{
    if sorts_before(a.rank(), b.rank()) {
        true
    } else if same(a.rank(), b.rank()) {
        sorts_before(a.id(), b.id())
    } else {
        false
    }
}

/// Puts a row in its place in a sorted run.
pub fn place_sorted<R: RankedRow>(out: &mut Vec<R>, e: R) where R::V: Ranked
    ensures
        rows(final(out)@) == put_sorted(rows(old(out)@), e@),
{
    let ghost s = rows(out@);
    let mut at: usize = out.len();
    while at > 0 && comes_before(&e, &out[at - 1])
        invariant
            at <= out@.len(),
            *out == *old(out),
            s == rows(out@),
            forall|j: int| at <= j < s.len() ==> before(e@, #[trigger] s[j]),
        ensures
            at > 0 ==> !before(e@, s[at - 1]),
        decreases at,
    {
        at -= 1;
        assert(s[at as int] == out@[at as int]@);
    }
    proof {
        lemma_put_at(s, e@, at as int);
        assert(rows(out@.insert(at as int, e)) =~= s.insert(at as int, e@));
    }
    out.insert(at, e);
}

/// Sorts a copy of the rows.
pub fn sort<R: RankedRow>(t: &Vec<R>) -> (r: Vec<R>) where R::V: Ranked
    ensures
        rows(r@) == sorted(rows(t@)),
{
    let ghost s = rows(t@);
    let mut out: Vec<R> = Vec::new();
    let mut i: usize = 0;
    assert(rows(out@) =~= sorted(s.take(0)));
    while i < t.len()
        invariant
            i <= t@.len(),
            s == rows(t@),
            rows(out@) == sorted(s.take(i as int)),
        decreases t@.len() - i,
    {
        assert(s.take(i + 1).drop_last() =~= s.take(i as int));
        assert(s.take(i + 1).last() == t@[i as int]@);
        place_sorted(&mut out, t[i].copy());
        i += 1;
    }
    assert(s.take(s.len() as int) =~= s);
    out
}

} // verus!
