//! Tables of keyed rows.

use crate::text::same;
use vstd::prelude::*;
use vstd::string::*;

verus! {

/// A row's mathematical value, found again by its key.
pub trait Keyed: Sized {
    /// The primary key.
    spec fn key(self) -> Seq<char>;
}

/// A stored row.
pub trait Row: View + Sized where Self::V: Keyed {
    /// The primary key.
    fn id(&self) -> (r: &str)
        ensures
            r@ == self@.key(),
    ;

    /// The same row again.
    fn copy(&self) -> (r: Self)
        ensures
            r@ == self@,
    ;
}

/// The rows of a table, each by its value.
pub open spec fn rows<R: View>(t: Seq<R>) -> Seq<R::V> {
    Seq::new(t.len(), |i: int| t[i]@)
}

/// Appending a row appends its value.
pub broadcast proof fn lemma_rows_push<R: View>(t: Seq<R>, r: R)
    ensures
        #[trigger] rows(t.push(r)) == rows(t).push(r@),
{
    assert(rows(t.push(r)) =~= rows(t).push(r@));
}

/// Replacing a row replaces its value.
pub broadcast proof fn lemma_rows_update<R: View>(t: Seq<R>, i: int, r: R)
    requires
        0 <= i < t.len(),
    ensures
        #[trigger] rows(t.update(i, r)) == rows(t).update(i, r@),
{
    assert(rows(t.update(i, r)) =~= rows(t).update(i, r@));
}

/// Taking a row out takes its value out.
pub broadcast proof fn lemma_rows_remove<R: View>(t: Seq<R>, i: int)
    requires
        0 <= i < t.len(),
    ensures
        #[trigger] rows(t.remove(i)) == rows(t).remove(i),
{
    assert(rows(t.remove(i)) =~= rows(t).remove(i));
}

/// Row `i` is the first with key `k`.
pub open spec fn hit<R: Keyed>(t: Seq<R>, k: Seq<char>, i: int) -> bool {
    &&& 0 <= i < t.len()
    &&& t[i].key() == k
    &&& forall|j: int| 0 <= j < i ==> (#[trigger] t[j]).key() != k
}

/// Where the row with key `k` stands.
pub open spec fn place<R: Keyed>(t: Seq<R>, k: Seq<char>) -> Option<int> {
    if exists|i: int| hit(t, k, i) {
        Some(choose|i: int| hit(t, k, i))
    } else {
        None
    }
}

/// The row with key `k`.
pub open spec fn lookup<R: Keyed>(t: Seq<R>, k: Seq<char>) -> Option<R> {
    match place(t, k) {
        Some(i) => Some(t[i]),
        None => None,
    }
}

/// The table has a row with key `k`.
pub open spec fn holds<R: Keyed>(t: Seq<R>, k: Seq<char>) -> bool {
    exists|i: int| 0 <= i < t.len() && (#[trigger] t[i]).key() == k
}

/// The first row with a key is where `place` says.
pub proof fn lemma_place<R: Keyed>(t: Seq<R>, k: Seq<char>, i: int)
    requires
        hit(t, k, i),
    ensures
        place(t, k) == Some(i),
        holds(t, k),
{
    let j = choose|j: int| hit(t, k, j);
    assert(hit(t, k, j));
    assert(t[i].key() == k && t[j].key() == k);
}

/// A key that occurs has a place, and one that has a place occurs.
pub proof fn lemma_has<R: Keyed>(t: Seq<R>, k: Seq<char>)
    ensures
        holds(t, k) <==> place(t, k) is Some,
        place(t, k) is Some ==> hit(t, k, place(t, k)->0),
{
    if holds(t, k) {
        let i = choose|i: int| 0 <= i < t.len() && (#[trigger] t[i]).key() == k;
        lemma_first(t, k, i);
    }
}

/// A row with a key has a first row with that key at or before it.
proof fn lemma_first<R: Keyed>(t: Seq<R>, k: Seq<char>, i: int)
    requires
        0 <= i < t.len(),
        t[i].key() == k,
    ensures
        exists|j: int| hit(t, k, j),
    decreases i,
{
    if forall|j: int| 0 <= j < i ==> (#[trigger] t[j]).key() != k {
        assert(hit(t, k, i));
    } else {
        let j = choose|j: int| 0 <= j < i && (#[trigger] t[j]).key() == k;
        lemma_first(t, k, j);
    }
}

/// No two rows share a key.
pub open spec fn distinct<R: Keyed>(t: Seq<R>) -> bool {
    forall|i: int, j: int|
        0 <= i < j < t.len() ==> (#[trigger] t[i]).key() != (#[trigger] t[j]).key()
}

/// Finds the row with key `k`.
pub fn find<R: Row>(t: &Vec<R>, k: &str) -> (r: Option<usize>) where R::V: Keyed
    ensures
        match r {
            Some(i) => i < t@.len() && hit(rows(t@), k@, i as int) && place(rows(t@), k@) == Some(
                i as int,
            ) && holds(rows(t@), k@) && lookup(rows(t@), k@) == Some(t@[i as int]@),
            None => place(rows(t@), k@) is None && lookup(rows(t@), k@) is None && !holds(
                rows(t@),
                k@,
            ),
        },
{
    let mut i: usize = 0;
    while i < t.len()
        invariant
            i <= t@.len(),
            forall|j: int| 0 <= j < i ==> (#[trigger] rows(t@)[j]).key() != k@,
        decreases t@.len() - i,
    {
        assert(rows(t@)[i as int] == t@[i as int]@);
        if same(t[i].id(), k) {
            proof {
                lemma_place(rows(t@), k@, i as int);
            }
            return Some(i);
        }
        i += 1;
    }
    proof {
        lemma_has(rows(t@), k@);
    }
    None
}

/// Copies a table.
pub fn copy_rows<R: Row>(t: &Vec<R>) -> (r: Vec<R>) where R::V: Keyed
    ensures
        rows(r@) == rows(t@),
{
    let mut out: Vec<R> = Vec::new();
    let mut i: usize = 0;
    while i < t.len()
        invariant
            i <= t@.len(),
            out@.len() == i,
            forall|j: int| 0 <= j < i ==> (#[trigger] out@[j])@ == t@[j]@,
        decreases t@.len() - i,
    {
        let c = t[i].copy();
        out.push(c);
        i += 1;
    }
    assert(rows(out@) =~= rows(t@));
    out
}

/// An optional text by its characters.
pub open spec fn opt_view(o: Option<String>) -> Option<Seq<char>> {
    match o {
        Some(s) => Some(s@),
        None => None,
    }
}

/// An optional borrowed text by its characters.
pub open spec fn opt_str(o: Option<&str>) -> Option<Seq<char>> {
    match o {
        Some(s) => Some(s@),
        None => None,
    }
}

/// Owns a borrowed optional text.
pub fn own(o: Option<&str>) -> (r: Option<String>)
    ensures
        opt_view(r) == opt_str(o),
{
    match o {
        Some(s) => Some(s.to_owned()),
        None => None,
    }
}

/// Copies an optional text.
pub fn copy_opt(o: &Option<String>) -> (r: Option<String>)
    ensures
        opt_view(r) == opt_view(*o),
{
    match o {
        Some(s) => Some(s.clone()),
        None => None,
    }
}

/// Lends an optional text.
pub fn lend(o: &Option<String>) -> (r: Option<&str>)
    ensures
        opt_str(r) == opt_view(*o),
{
    match o {
        Some(s) => Some(s.as_str()),
        None => None,
    }
}

} // verus!
