//! JSON documents: the payload of every event and the body of every master-data
//! row.

use crate::assoc::{fetch, pairs, put, record_of};
use crate::wire::{copy_fraction, Fraction};
use vstd::prelude::*;
use vstd::string::*;

verus! {

/// A JSON value.
///
/// A record keeps its members in the order they were written; where a name occurs
/// twice the later member counts.
#[derive(Debug, PartialEq)]
pub enum Json {
    Null,
    Bool(bool),
    Int(i64),
    /// A whole number above the range of `Int`.
    Uint(u64),
    /// A fraction, carried as it was read.
    Float(Fraction),
    Str(String),
    Array(Vec<Json>),
    Object(Vec<(String, Json)>),
}

/// What a JSON value means: records are maps and whole numbers are integers.
#[verifier::ext_equal]
pub enum JsonV {
    Null,
    Bool(bool),
    Int(int),
    Float(Fraction),
    Str(Seq<char>),
    Array(Seq<JsonV>),
    Object(Map<Seq<char>, JsonV>),
}

impl View for Json {
    type V = JsonV;

    open spec fn view(&self) -> JsonV {
        meaning(*self)
    }
}

/// The meaning of a value.
pub open spec fn meaning(j: Json) -> JsonV
    decreases j,
{
    match j {
        Json::Null => JsonV::Null,
        Json::Bool(b) => JsonV::Bool(b),
        Json::Int(i) => JsonV::Int(i as int),
        Json::Uint(u) => JsonV::Int(u as int),
        Json::Float(n) => JsonV::Float(n),
        Json::Str(s) => JsonV::Str(s@),
        Json::Array(v) => JsonV::Array(elements_of(v@)),
        Json::Object(v) => JsonV::Object(record_of(members(v@))),
    }
}

/// The elements of an array, each by its meaning.
pub open spec fn elements_of(v: Seq<Json>) -> Seq<JsonV>
    decreases v,
{
    Seq::new(
        v.len(),
        |i: int|
            if 0 <= i < v.len() {
                meaning(v[i])
            } else {
                JsonV::Null
            },
    )
}

/// The members of a record, each by its meaning.
pub open spec fn members(v: Seq<(String, Json)>) -> Seq<(Seq<char>, JsonV)>
    decreases v,
{
    Seq::new(
        v.len(),
        |i: int|
            if 0 <= i < v.len() {
                (v[i].0@, meaning(v[i].1))
            } else {
                (Seq::empty(), JsonV::Null)
            },
    )
}

/// The members of a record are its pairs.
pub proof fn lemma_members(v: Seq<(String, Json)>)
    ensures
        members(v) == pairs(v),
{
    assert(members(v) =~= pairs(v));
}

/// The member of a record under a name.
pub open spec fn member(v: JsonV, k: Seq<char>) -> Option<JsonV> {
    match v {
        JsonV::Object(m) => if m.contains_key(k) {
            Some(m[k])
        } else {
            None
        },
        _ => None,
    }
}

/// The whole number a value holds, where it is in the range of `i64`.
pub open spec fn number_in(v: JsonV) -> Option<i64> {
    match v {
        JsonV::Int(i) => if i64::MIN <= i <= i64::MAX {
            Some(i as i64)
        } else {
            None
        },
        _ => None,
    }
}

/// The text a value holds.
pub open spec fn text_in(v: JsonV) -> Option<Seq<char>> {
    match v {
        JsonV::Str(s) => Some(s),
        _ => None,
    }
}

/// The number under a name, 0 where there is none.
pub open spec fn num(v: JsonV, k: Seq<char>) -> i64 {
    match member(v, k) {
        Some(x) => match number_in(x) {
            Some(i) => i,
            None => 0,
        },
        None => 0,
    }
}

/// The text under a name, where there is one.
pub open spec fn opt_txt(v: JsonV, k: Seq<char>) -> Option<Seq<char>> {
    match member(v, k) {
        Some(x) => text_in(x),
        None => None,
    }
}

/// The text under a name, empty where there is none.
pub open spec fn txt(v: JsonV, k: Seq<char>) -> Seq<char> {
    match opt_txt(v, k) {
        Some(s) => s,
        None => Seq::empty(),
    }
}

/// The elements of the array under a name, none where there is no array.
pub open spec fn list(v: JsonV, k: Seq<char>) -> Seq<JsonV> {
    match member(v, k) {
        Some(JsonV::Array(s)) => s,
        _ => Seq::empty(),
    }
}

impl Json {
    /// The member of a record under `k`.
    pub fn get(&self, k: &str) -> (r: Option<&Json>)
        ensures
            match r {
                Some(j) => member(self@, k@) == Some(j@),
                None => member(self@, k@) is None,
            },
    {
        match self {
            Json::Object(ps) => {
                proof {
                    lemma_members(ps@);
                }
                fetch(ps, k)
            },
            _ => None,
        }
    }

    /// The whole number this is, where it fits.
    pub fn as_i64(&self) -> (r: Option<i64>)
        ensures
            r == number_in(self@),
    {
        match self {
            Json::Int(i) => Some(*i),
            Json::Uint(u) => if *u <= i64::MAX as u64 {
                Some(*u as i64)
            } else {
                None
            },
            _ => None,
        }
    }

    /// The whole number this is, where it is not negative.
    pub fn as_u64(&self) -> (r: Option<u64>)
        ensures
            match self@ {
                JsonV::Int(i) => if i < 0 {
                    r is None
                } else {
                    r is Some && r->0 == i
                },
                _ => r is None,
            },
    {
        match self {
            Json::Int(i) => if *i < 0 {
                None
            } else {
                Some(*i as u64)
            },
            Json::Uint(u) => Some(*u),
            _ => None,
        }
    }

    /// The text this is.
    pub fn as_str(&self) -> (r: Option<&str>)
        ensures
            match r {
                Some(t) => text_in(self@) == Some(t@),
                None => text_in(self@) is None,
            },
    {
        match self {
            Json::Str(s) => Some(s.as_str()),
            _ => None,
        }
    }

    /// The truth value this is.
    pub fn as_bool(&self) -> (r: Option<bool>)
        ensures
            match self@ {
                JsonV::Bool(b) => r == Some(b),
                _ => r is None,
            },
    {
        match self {
            Json::Bool(b) => Some(*b),
            _ => None,
        }
    }

    /// The elements of this array.
    pub fn as_array(&self) -> (r: Option<&[Json]>)
        ensures
            match r {
                Some(s) => self@ == JsonV::Array(elements_of(s@)),
                None => !(self@ is Array),
            },
    {
        match self {
            Json::Array(v) => {
                Some(v.as_slice())
            },
            _ => None,
        }
    }

    /// Whether this is a record.
    pub fn is_object(&self) -> (r: bool)
        ensures
            r == (self@ is Object),
    {
        match self {
            Json::Object(_) => true,
            _ => false,
        }
    }

    /// The same value again.
    pub fn copy(&self) -> (r: Json)
        ensures
            r@ == self@,
        decreases self,
    {
        match self {
            Json::Null => Json::Null,
            Json::Bool(b) => Json::Bool(*b),
            Json::Int(i) => Json::Int(*i),
            Json::Uint(u) => Json::Uint(*u),
            Json::Float(n) => Json::Float(copy_fraction(n)),
            Json::Str(s) => Json::Str(s.clone()),
            Json::Array(v) => {
                let mut out: Vec<Json> = Vec::new();
                let mut i: usize = 0;
                while i < v.len()
                    invariant
                        i <= v@.len(),
                        *self == Json::Array(*v),
                        out@.len() == i,
                        forall|j: int| 0 <= j < i ==> (#[trigger] out@[j])@ == v@[j]@,
                    decreases v@.len() - i,
                {
                    proof {
                        assert(decreases_to!(*self => self->Array_0));
                        assert(decreases_to!(*v => v@));
                        assert(decreases_to!(v@ => v@[i as int]));
                    }
                    let c = v[i].copy();
                    out.push(c);
                    i += 1;
                }
                proof {
                    assert(elements_of(out@) =~= elements_of(v@));
                }
                Json::Array(out)
            },
            Json::Object(v) => {
                let mut out: Vec<(String, Json)> = Vec::new();
                let mut i: usize = 0;
                while i < v.len()
                    invariant
                        i <= v@.len(),
                        *self == Json::Object(*v),
                        out@.len() == i,
                        forall|j: int|
                            0 <= j < i ==> (#[trigger] out@[j]).0@ == v@[j].0@ && out@[j].1@
                                == v@[j].1@,
                    decreases v@.len() - i,
                {
                    proof {
                        assert(decreases_to!(*self => self->Object_0));
                        assert(decreases_to!(*v => v@));
                        assert(decreases_to!(v@ => v@[i as int]));
                        assert(decreases_to!(v@[i as int] => v@[i as int].1));
                    }
                    let c = v[i].1.copy();
                    out.push((v[i].0.clone(), c));
                    i += 1;
                }
                proof {
                    assert(members(out@) =~= members(v@));
                }
                Json::Object(out)
            },
        }
    }
}

/// A record under construction.
pub struct Fields {
    pub pairs: Vec<(String, Json)>,
}

impl View for Fields {
    type V = Map<Seq<char>, JsonV>;

    open spec fn view(&self) -> Map<Seq<char>, JsonV> {
        record_of(pairs(self.pairs@))
    }
}

impl Fields {
    /// A record without members.
    pub fn new() -> (r: Fields)
        ensures
            r@ == Map::<Seq<char>, JsonV>::empty(),
    {
        Fields { pairs: Vec::new() }
    }

    /// Adds a member.
    pub fn json(self, k: &str, v: Json) -> (r: Fields)
        ensures
            r@ == self@.insert(k@, v@),
    {
        let mut pairs = self.pairs;
        put(&mut pairs, k, v);
        Fields { pairs }
    }

    /// Adds a text member.
    pub fn text(self, k: &str, v: &str) -> (r: Fields)
        ensures
            r@ == self@.insert(k@, JsonV::Str(v@)),
    {
        self.json(k, Json::Str(v.to_owned()))
    }

    /// Adds a whole-number member.
    pub fn number(self, k: &str, v: i64) -> (r: Fields)
        ensures
            r@ == self@.insert(k@, JsonV::Int(v as int)),
    {
        self.json(k, Json::Int(v))
    }

    /// Adds an array member.
    pub fn array(self, k: &str, v: Vec<Json>) -> (r: Fields)
        ensures
            r@ == self@.insert(k@, JsonV::Array(elements_of(v@))),
    {
        self.json(k, Json::Array(v))
    }

    /// The record.
    pub fn done(self) -> (r: Json)
        ensures
            r@ == JsonV::Object(self@),
    {
        proof {
            lemma_members(self.pairs@);
        }
        Json::Object(self.pairs)
    }
}

/// The number under `k`, 0 where there is none.
pub fn pi(v: &Json, k: &str) -> (r: i64)
    ensures
        r == num(v@, k@),
{
    match v.get(k) {
        Some(x) => match x.as_i64() {
            Some(i) => i,
            None => 0,
        },
        None => 0,
    }
}

/// The text under `k`, where there is one.
pub fn pos<'a>(v: &'a Json, k: &str) -> (r: Option<&'a str>)
    ensures
        match r {
            Some(t) => opt_txt(v@, k@) == Some(t@),
            None => opt_txt(v@, k@) is None,
        },
{
    match v.get(k) {
        Some(x) => x.as_str(),
        None => None,
    }
}

/// The text under `k`, empty where there is none.
pub fn ps<'a>(v: &'a Json, k: &str) -> (r: &'a str)
    ensures
        r@ == txt(v@, k@),
{
    match pos(v, k) {
        Some(t) => t,
        None => {
            proof {
                reveal_strlit("");
                assert(""@ =~= Seq::<char>::empty());
            }
            ""
        },
    }
}

/// The elements of the array under `k`, none where there is no array.
pub fn parr<'a>(v: &'a Json, k: &str) -> (r: &'a [Json])
    ensures
        elements_of(r@) == list(v@, k@),
{
    match v.get(k) {
        Some(x) => match x.as_array() {
            Some(s) => s,
            None => {
                let e: &'a [Json] = &[];
                assert(elements_of(e@) =~= Seq::<JsonV>::empty());
                e
            },
        },
        None => {
            let e: &'a [Json] = &[];
            assert(elements_of(e@) =~= Seq::<JsonV>::empty());
            e
        },
    }
}

} // verus!
