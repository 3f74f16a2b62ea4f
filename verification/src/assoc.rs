//! Names paired with values, later pairs winning.

use crate::text::same;
use vstd::prelude::*;
use vstd::string::*;

verus! {

/// The map that a list of pairs spells out: later pairs win.
pub open spec fn record_of<V>(s: Seq<(Seq<char>, V)>) -> Map<Seq<char>, V>
    decreases s.len(),
{
    if s.len() == 0 {
        Map::empty()
    } else {
        record_of(s.drop_last()).insert(s.last().0, s.last().1)
    }
}

/// The pairs of a list, each by its value.
pub open spec fn pairs<T: View>(v: Seq<(String, T)>) -> Seq<(Seq<char>, T::V)> {
    Seq::new(v.len(), |i: int| (v[i].0@, v[i].1@))
}

/// A name that occurs nowhere after place `i` is looked up before place `i`.
proof fn lemma_record_prefix<V>(s: Seq<(Seq<char>, V)>, k: Seq<char>, i: int)
    requires
        0 <= i <= s.len(),
        forall|j: int| i <= j < s.len() ==> (#[trigger] s[j]).0 != k,
    ensures
        record_of(s).contains_key(k) == record_of(s.take(i)).contains_key(k),
        record_of(s).contains_key(k) ==> record_of(s)[k] == record_of(s.take(i))[k],
    decreases s.len() - i,
{
    if i == s.len() {
        assert(s.take(i) =~= s);
    } else {
        assert(s[i].0 != k);
        lemma_record_prefix(s, k, i + 1);
        assert(s.take(i + 1).drop_last() =~= s.take(i));
    }
}

/// The domain of a spelled-out record is finite.
pub proof fn lemma_record_finite<V>(s: Seq<(Seq<char>, V)>)
    ensures
        record_of(s).dom().finite(),
    decreases s.len(),
{
    if s.len() > 0 {
        lemma_record_finite(s.drop_last());
    }
}

/// Where names occur once, each is looked up with its own value.
pub proof fn lemma_record_distinct<V>(s: Seq<(Seq<char>, V)>, i: int)
    requires
        0 <= i < s.len(),
        forall|a: int, b: int| 0 <= a < b < s.len() ==> (#[trigger] s[a]).0 != (#[trigger] s[b]).0,
    ensures
        record_of(s).contains_key(s[i].0),
        record_of(s)[s[i].0] == s[i].1,
    decreases s.len(),
{
    if i < s.len() - 1 {
        let front = s.drop_last();
        assert forall|a: int, b: int| 0 <= a < b < front.len() implies (#[trigger] front[a]).0 != (
        #[trigger] front[b]).0 by {
            assert(front[a] == s[a] && front[b] == s[b]);
        }
        lemma_record_distinct(front, i);
        assert(s[i].0 != s[s.len() - 1].0);
    }
}

/// Replacing the last occurrence of a name is inserting under that name.
proof fn lemma_record_replace<V>(s: Seq<(Seq<char>, V)>, i: int, v: V)
    requires
        0 <= i < s.len(),
        forall|j: int| i < j < s.len() ==> (#[trigger] s[j]).0 != s[i].0,
    ensures
        record_of(s.update(i, (s[i].0, v))) == record_of(s).insert(s[i].0, v),
    decreases s.len(),
{
    let t = s.update(i, (s[i].0, v));
    if i == s.len() - 1 {
        assert(t.drop_last() =~= s.drop_last());
        assert(record_of(t) =~= record_of(s).insert(s[i].0, v));
    } else {
        lemma_record_replace(s.drop_last(), i, v);
        assert(t.drop_last() =~= s.drop_last().update(i, (s.drop_last()[i].0, v)));
        assert(s.last().0 != s[i].0);
        assert(record_of(t) =~= record_of(s).insert(s[i].0, v));
    }
}

/// The value under `k`.
pub fn fetch<'a, T: View>(ps: &'a Vec<(String, T)>, k: &str) -> (r: Option<&'a T>)
    ensures
        match r {
            Some(x) => record_of(pairs(ps@)).contains_key(k@) && record_of(pairs(ps@))[k@] == x@,
            None => !record_of(pairs(ps@)).contains_key(k@),
        },
{
    let ghost s = pairs(ps@);
    let mut i: usize = ps.len();
    while i > 0
        invariant
            i <= ps@.len(),
            s == pairs(ps@),
            forall|j: int| i <= j < s.len() ==> (#[trigger] s[j]).0 != k@,
        decreases i,
    {
        i -= 1;
        if same(ps[i].0.as_str(), k) {
            proof {
                assert(s[i as int] == (ps@[i as int].0@, ps@[i as int].1@));
                lemma_record_prefix(s, k@, i + 1);
                assert(s.take(i + 1).last() == s[i as int]);
            }
            return Some(&ps[i].1);
        }
        assert(s[i as int].0 == ps@[i as int].0@);
    }
    proof {
        lemma_record_prefix(s, k@, 0);
        assert(s.take(0).len() == 0);
    }
    None
}

/// Writes `v` under `k`.
pub fn put<T: View>(ps: &mut Vec<(String, T)>, k: &str, v: T)
    ensures
        record_of(pairs(final(ps)@)) == record_of(pairs(old(ps)@)).insert(k@, v@),
{
    let ghost s = pairs(ps@);
    let mut i: usize = ps.len();
    while i > 0
        invariant
            i <= ps@.len(),
            ps@ == old(ps)@,
            s == pairs(old(ps)@),
            forall|j: int| i <= j < s.len() ==> (#[trigger] s[j]).0 != k@,
        decreases i,
    {
        i -= 1;
        assert(s[i as int].0 == ps@[i as int].0@);
        if same(ps[i].0.as_str(), k) {
            let name = ps[i].0.clone();
            let ghost w = v@;
            ps.set(i, (name, v));
            proof {
                lemma_record_replace(s, i as int, w);
                assert(pairs(ps@) =~= s.update(i as int, (s[i as int].0, w)));
            }
            return ;
        }
    }
    let ghost w = v@;
    ps.push((k.to_owned(), v));
    proof {
        assert(pairs(ps@) =~= s.push((k@, w)));
        assert(s.push((k@, w)).drop_last() =~= s);
    }
}

} // verus!
