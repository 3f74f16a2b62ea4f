//! JSON as text.

use crate::assoc::{lemma_record_distinct, lemma_record_finite, record_of};
use crate::json::{elements_of, members, Json, JsonV};
use vstd::prelude::*;

verus! {

/// Declares `serde_json::Value` to the verifier; what it holds is [`value_model`].
#[verifier::external_type_specification]
#[verifier::external_body]
pub struct ExValue(serde_json::Value);

/// Declares `serde_json::Number` to the verifier: a fraction is carried, never looked
/// into.
#[verifier::external_type_specification]
#[verifier::external_body]
pub struct ExNumber(serde_json::Number);

/// A number that is not whole, or was not written as a whole one. Only reading a text
/// makes one.
#[derive(Debug, PartialEq)]
pub struct Fraction {
    number: serde_json::Number,
}

/// What a `serde_json::Value` holds.
pub uninterp spec fn value_model(v: serde_json::Value) -> JsonV;

/// What `serde_json::from_str` makes of a text: a value, or the text of the error.
pub uninterp spec fn parsed(text: Seq<char>) -> Result<JsonV, Seq<char>>;

/// How `serde_json::Value` displays what it holds.
pub uninterp spec fn json_text(j: JsonV) -> Seq<char>;

/// One layer of a value.
pub enum Shape {
    Null,
    Bool(bool),
    Int(i64),
    Uint(u64),
    Float(Fraction),
    Str(String),
    Array(Vec<serde_json::Value>),
    Object(Vec<(String, serde_json::Value)>),
}

/// Values by what they hold.
pub open spec fn held(v: Seq<serde_json::Value>) -> Seq<JsonV> {
    Seq::new(v.len(), |i: int| value_model(v[i]))
}

/// Named values by what they hold.
pub open spec fn held_pairs(v: Seq<(String, serde_json::Value)>) -> Seq<(Seq<char>, JsonV)> {
    Seq::new(v.len(), |i: int| (v[i].0@, value_model(v[i].1)))
}

/// What a layer holds.
pub open spec fn shape_model(s: Shape) -> JsonV {
    match s {
        Shape::Null => JsonV::Null,
        Shape::Bool(b) => JsonV::Bool(b),
        Shape::Int(i) => JsonV::Int(i as int),
        Shape::Uint(u) => JsonV::Int(u as int),
        Shape::Float(n) => JsonV::Float(n),
        Shape::Str(t) => JsonV::Str(t@),
        Shape::Array(v) => JsonV::Array(held(v@)),
        Shape::Object(v) => JsonV::Object(record_of(held_pairs(v@))),
    }
}

/// Names in a list of pairs occur once.
pub open spec fn names_once<V>(s: Seq<(Seq<char>, V)>) -> bool {
    forall|i: int, j: int| 0 <= i < j < s.len() ==> (#[trigger] s[i]).0 != (#[trigger] s[j]).0
}

/// Takes a value apart by one layer.
///
/// Trusted: the variants of `serde_json::Value`, and `serde_json::Number::as_i64` and
/// `as_u64`, which tell whole numbers by their sign and size and give nothing for a
/// fraction. The layer holds what the value held, and a record names each member once.
#[verifier::external_body]
fn take_apart(v: serde_json::Value) -> (r: Shape)
    ensures
        shape_model(r) == value_model(v),
        r matches Shape::Object(ps) ==> names_once(held_pairs(ps@)),
{
    match v {
        serde_json::Value::Null => Shape::Null,
        serde_json::Value::Bool(b) => Shape::Bool(b),
        serde_json::Value::Number(n) => match (n.as_i64(), n.as_u64()) {
            (Some(i), _) => Shape::Int(i),
            (None, Some(u)) => Shape::Uint(u),
            (None, None) => Shape::Float(Fraction { number: n }),
        },
        serde_json::Value::String(s) => Shape::Str(s),
        serde_json::Value::Array(a) => Shape::Array(a),
        serde_json::Value::Object(m) => Shape::Object(m.into_iter().collect()),
    }
}

/// Puts a value together from one layer.
///
/// Trusted: the variants of `serde_json::Value` and its conversions from numbers and
/// from named values; of members with one name the last counts. The value holds what
/// the layer held.
#[verifier::external_body]
fn put_together(s: Shape) -> (r: serde_json::Value)
    ensures
        value_model(r) == shape_model(s),
{
    match s {
        Shape::Null => serde_json::Value::Null,
        Shape::Bool(b) => serde_json::Value::Bool(b),
        Shape::Int(i) => serde_json::Value::from(i),
        Shape::Uint(u) => serde_json::Value::from(u),
        Shape::Float(f) => serde_json::Value::Number(f.number),
        Shape::Str(t) => serde_json::Value::String(t),
        Shape::Array(v) => serde_json::Value::Array(v),
        Shape::Object(v) => serde_json::Value::Object(v.into_iter().collect()),
    }
}

/// Copies a fraction.
///
/// Trusted: `serde_json::Number::clone` gives the same number.
#[verifier::external_body]
pub(crate) fn copy_fraction(f: &Fraction) -> (r: Fraction)
    ensures
        r == *f,
{
    Fraction { number: f.number.clone() }
}

/// Reads a JSON text.
///
/// Trusted: `serde_json::from_str`. What it makes of a text depends on the text alone
/// and is called [`parsed`].
#[verifier::external_body]
fn read_value(text: &str) -> (r: Result<serde_json::Value, String>)
    ensures
        match r {
            Ok(v) => parsed(text@) == Ok::<JsonV, Seq<char>>(value_model(v)),
            Err(e) => parsed(text@) == Err::<JsonV, Seq<char>>(e@),
        },
{
    serde_json::from_str(text).map_err(|e: serde_json::Error| e.to_string())
}

/// Without fractions, and nested at most `depth` deep.
pub open spec fn readable(j: JsonV, depth: nat) -> bool
    decreases depth,
{
    match j {
        JsonV::Float(_) => false,
        JsonV::Array(s) => depth > 0 && forall|i: int|
            0 <= i < s.len() ==> readable(#[trigger] s[i], (depth - 1) as nat),
        JsonV::Object(m) => depth > 0 && forall|k: Seq<char>| #[trigger]
            m.contains_key(k) ==> readable(m[k], (depth - 1) as nat),
        _ => true,
    }
}

/// The text is read as the value.
pub open spec fn reads_as(text: Seq<char>, j: JsonV) -> bool {
    parsed(text) == Ok::<JsonV, Seq<char>>(j)
}

/// Writes a value as JSON text.
///
/// Trusted: the display of `serde_json::Value`. The text depends on what the value
/// holds alone and is called [`json_text`]. Control characters are escaped, so it
/// holds no line break. Reading it back gives what was written, where the value is
/// nested no deeper than the reader follows and holds no fraction.
#[verifier::external_body]
fn write_value(v: &serde_json::Value) -> (r: String)
    ensures
        r@ == json_text(value_model(*v)),
        !r@.contains('\n'),
        !r@.contains('\r'),
        readable(value_model(*v), 127) ==> reads_as(r@, value_model(*v)),
{
    v.to_string()
}

fn to_value(j: &Json) -> (r: serde_json::Value)
    ensures
        value_model(r) == j@,
    decreases j,
{
    match j {
        Json::Null => put_together(Shape::Null),
        Json::Bool(b) => put_together(Shape::Bool(*b)),
        Json::Int(i) => put_together(Shape::Int(*i)),
        Json::Uint(u) => put_together(Shape::Uint(*u)),
        Json::Float(n) => put_together(Shape::Float(copy_fraction(n))),
        Json::Str(s) => put_together(Shape::Str(s.clone())),
        Json::Array(v) => {
            let mut out: Vec<serde_json::Value> = Vec::new();
            let mut i: usize = 0;
            while i < v.len()
                invariant
                    i <= v@.len(),
                    *j == Json::Array(*v),
                    out@.len() == i,
                    forall|k: int| 0 <= k < i ==> value_model(#[trigger] out@[k]) == v@[k]@,
                decreases v@.len() - i,
            {
                proof {
                    assert(decreases_to!(*j => j->Array_0));
                    assert(decreases_to!(*v => v@));
                    assert(decreases_to!(v@ => v@[i as int]));
                }
                let x = to_value(&v[i]);
                out.push(x);
                i += 1;
            }
            assert(held(out@) =~= elements_of(v@));
            put_together(Shape::Array(out))
        },
        Json::Object(v) => {
            let mut out: Vec<(String, serde_json::Value)> = Vec::new();
            let mut i: usize = 0;
            while i < v.len()
                invariant
                    i <= v@.len(),
                    *j == Json::Object(*v),
                    out@.len() == i,
                    forall|k: int|
                        0 <= k < i ==> (#[trigger] out@[k]).0@ == v@[k].0@ && value_model(
                            out@[k].1,
                        ) == v@[k].1@,
                decreases v@.len() - i,
            {
                proof {
                    assert(decreases_to!(*j => j->Object_0));
                    assert(decreases_to!(*v => v@));
                    assert(decreases_to!(v@ => v@[i as int]));
                    assert(decreases_to!(v@[i as int] => v@[i as int].1));
                }
                let x = to_value(&v[i].1);
                out.push((v[i].0.clone(), x));
                i += 1;
            }
            assert(held_pairs(out@) =~= members(v@));
            put_together(Shape::Object(out))
        },
    }
}

fn from_value(v: serde_json::Value) -> (r: Json)
    ensures
        r@ == value_model(v),
    decreases value_model(v),
{
    let ghost m = value_model(v);
    match take_apart(v) {
        Shape::Null => Json::Null,
        Shape::Bool(b) => Json::Bool(b),
        Shape::Int(i) => Json::Int(i),
        Shape::Uint(u) => Json::Uint(u),
        Shape::Float(n) => Json::Float(n),
        Shape::Str(t) => Json::Str(t),
        Shape::Array(vs) => {
            let mut rest = vs;
            let ghost all = held(rest@);
            let mut out: Vec<Json> = Vec::new();
            while rest.len() > 0
                invariant
                    m == JsonV::Array(all),
                    rest@.len() + out@.len() == all.len(),
                    forall|k: int|
                        0 <= k < rest@.len() ==> value_model(#[trigger] rest@[k])
                            == all[out@.len() + k],
                    forall|k: int| 0 <= k < out@.len() ==> (#[trigger] out@[k])@ == all[k],
                    m == value_model(v),
                decreases rest@.len(),
            {
                let ghost before = rest@;
                let ghost n = out@.len() as int;
                let x = rest.remove(0);
                proof {
                    assert(value_model(x) == all[n]);
                    assert(decreases_to!(m => m->Array_0));
                    assert(decreases_to!(all => all[n]));
                }
                let y = from_value(x);
                out.push(y);
                assert forall|k: int| 0 <= k < rest@.len() implies value_model(
                    #[trigger] rest@[k],
                ) == all[out@.len() + k] by {
                    assert(rest@[k] == before[k + 1]);
                }
            }
            assert(elements_of(out@) =~= all);
            Json::Array(out)
        },
        Shape::Object(vs) => {
            let mut rest = vs;
            let ghost all = held_pairs(rest@);
            let mut out: Vec<(String, Json)> = Vec::new();
            proof {
                lemma_record_finite(all);
            }
            while rest.len() > 0
                invariant
                    m == JsonV::Object(record_of(all)),
                    record_of(all).dom().finite(),
                    names_once(all),
                    rest@.len() + out@.len() == all.len(),
                    forall|k: int|
                        0 <= k < rest@.len() ==> (#[trigger] rest@[k]).0@ == all[out@.len() + k].0
                            && value_model(rest@[k].1) == all[out@.len() + k].1,
                    forall|k: int|
                        0 <= k < out@.len() ==> (#[trigger] out@[k]).0@ == all[k].0 && out@[k].1@
                            == all[k].1,
                    m == value_model(v),
                decreases rest@.len(),
            {
                let ghost before = rest@;
                let ghost n = out@.len() as int;
                let (name, x) = rest.remove(0);
                proof {
                    assert(value_model(x) == all[n].1);
                    lemma_record_distinct(all, n);
                    assert(decreases_to!(m => m->Object_0));
                    assert(decreases_to!(record_of(all) => record_of(all)[all[n].0]));
                }
                let y = from_value(x);
                out.push((name, y));
                assert forall|k: int| 0 <= k < rest@.len() implies (#[trigger] rest@[k]).0@
                    == all[out@.len() + k].0 && value_model(rest@[k].1) == all[out@.len()
                    + k].1 by {
                    assert(rest@[k] == before[k + 1]);
                }
            }
            assert(members(out@) =~= all);
            Json::Object(out)
        },
    }
}

/// Reads a JSON text.
pub fn parse(text: &str) -> (r: Result<Json, String>)
    ensures
        match r {
            Ok(j) => parsed(text@) == Ok::<JsonV, Seq<char>>(j@),
            Err(e) => parsed(text@) == Err::<JsonV, Seq<char>>(e@),
        },
{
    match read_value(text) {
        Ok(v) => Ok(from_value(v)),
        Err(e) => Err(e),
    }
}

/// Writes a value as JSON text on one line.
pub fn print(j: &Json) -> (r: String)
    ensures
        r@ == json_text(j@),
        !r@.contains('\n'),
        !r@.contains('\r'),
        readable(j@, 127) ==> reads_as(r@, j@),
{
    write_value(&to_value(j))
}

} // verus!
