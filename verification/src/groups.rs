//! Grouping rows by a key.

use crate::model::Text;
use crate::rows::rows;
use crate::sums::total;
use crate::text::{lemma_lex_total, lemma_lex_transitive, lex_lt, same, sorts_before};
use vstd::prelude::*;
use vstd::string::*;

verus! {

/// Texts in strictly ascending order.
pub open spec fn ascending(s: Seq<Text>) -> bool {
    forall|i: int, j: int| 0 <= i < j < s.len() ==> lex_lt(#[trigger] s[i], #[trigger] s[j])
}

/// The keys are those of the rows that have one, each once, in ascending order.
pub open spec fn grouped<R>(
    keys: Seq<Text>,
    t: Seq<R>,
    key: spec_fn(R) -> Option<Text>,
) -> bool {
    &&& ascending(keys)
    &&& forall|x: Text| #[trigger]
        keys.contains(x) <==> exists|k: int| 0 <= k < t.len() && key(#[trigger] t[k]) == Some(x)
}

/// The sum of a figure over the rows with a key.
pub open spec fn group_total<R>(
    t: Seq<R>,
    key: spec_fn(R) -> Option<Text>,
    figure: spec_fn(R) -> int,
    k: Text,
) -> Option<i64> {
    total(
        t,
        |r: R|
            if key(r) == Some(k) {
                figure(r)
            } else {
                0
            },
    )
}

/// The keys of no rows.
pub proof fn lemma_grouped_empty<R>(t: Seq<R>, key: spec_fn(R) -> Option<Text>)
    ensures
        grouped(Seq::empty(), t.take(0), key),
{
}

/// Taking in one more row: its key is added, or was there, or it has none.
pub proof fn lemma_grouped_step<R>(
    before: Seq<Text>,
    after: Seq<Text>,
    t: Seq<R>,
    key: spec_fn(R) -> Option<Text>,
    i: int,
)
    requires
        0 <= i < t.len(),
        grouped(before, t.take(i), key),
        ascending(after),
        forall|x: Text| #[trigger]
            after.contains(x) <==> before.contains(x) || key(t[i]) == Some(x),
    ensures
        grouped(after, t.take(i + 1), key),
{
    let p = t.take(i);
    let q = t.take(i + 1);
    assert forall|x: Text| #[trigger] after.contains(x) <==> exists|k: int|
        0 <= k < q.len() && key(#[trigger] q[k]) == Some(x) by {
        if before.contains(x) {
            let k = choose|k: int| 0 <= k < p.len() && key(#[trigger] p[k]) == Some(x);
            assert(q[k] == p[k]);
        }
        if key(t[i]) == Some(x) {
            assert(q[i] == t[i]);
        }
        if exists|k: int| 0 <= k < q.len() && key(#[trigger] q[k]) == Some(x) {
            let k = choose|k: int| 0 <= k < q.len() && key(#[trigger] q[k]) == Some(x);
            if k < i {
                assert(p[k] == q[k]);
                assert(before.contains(x));
            } else {
                assert(q[k] == t[i]);
            }
        }
    }
}

/// Adds a key to ascending keys, where it is not there yet.
pub fn note(keys: &mut Vec<String>, k: &str)
    requires
        ascending(rows(old(keys)@)),
    ensures
        ascending(rows(final(keys)@)),
        forall|x: Text| #[trigger]
            rows(final(keys)@).contains(x) <==> rows(old(keys)@).contains(x) || x == k@,
{
    let ghost s = rows(keys@);
    let mut at: usize = 0;
    while at < keys.len() && sorts_before(keys[at].as_str(), k)
        invariant
            at <= keys@.len(),
            *keys == *old(keys),
            s == rows(keys@),
            forall|j: int| 0 <= j < at ==> lex_lt(#[trigger] s[j], k@),
        ensures
            at < keys@.len() ==> !lex_lt(s[at as int], k@),
        decreases keys@.len() - at,
    {
        assert(s[at as int] == keys@[at as int]@);
        at += 1;
    }
    if at < keys.len() && same(keys[at].as_str(), k) {
        assert(s[at as int] == k@);
        return ;
    }
    let new = k.to_owned();
    proof {
        let r = s.insert(at as int, k@);
        assert(rows(keys@.insert(at as int, new)) =~= r);
        if at < s.len() {
            assert(s[at as int] == keys@[at as int]@);
            lemma_lex_total(s[at as int], k@);
        }
        assert forall|i: int, j: int| 0 <= i < j < r.len() implies lex_lt(
            #[trigger] r[i],
            #[trigger] r[j],
        ) by {
            if i < at && j > at {
                assert(r[i] == s[i] && r[j] == s[j - 1]);
            } else if i < at && j == at {
                assert(r[i] == s[i]);
            } else if i == at {
                assert(r[j] == s[j - 1]);
                if j - 1 > at {
                    assert(lex_lt(s[at as int], s[j - 1]));
                    lemma_lex_transitive(k@, s[at as int], s[j - 1]);
                }
            } else if i > at {
                assert(r[i] == s[i - 1] && r[j] == s[j - 1]);
            } else {
                assert(r[i] == s[i] && r[j] == s[j]);
            }
        }
        assert forall|x: Text| #[trigger] r.contains(x) <==> s.contains(x) || x == k@ by {
            if s.contains(x) {
                let i = choose|i: int| 0 <= i < s.len() && s[i] == x;
                if i < at {
                    assert(r[i] == x);
                } else {
                    assert(r[i + 1] == x);
                }
            }
            if x == k@ {
                assert(r[at as int] == x);
            }
            if r.contains(x) && x != k@ {
                let i = choose|i: int| 0 <= i < r.len() && r[i] == x;
                if i < at {
                    assert(s[i] == x);
                } else {
                    assert(s[i - 1] == x);
                }
            }
        }
    }
    keys.insert(at, new);
}

} // verus!
