//! What parties owe and are owed, and who may be paid.

use crate::error::DbError;
use crate::json::{member, number_in, opt_txt, pos, ps, txt, Json, JsonV};
use crate::model::{Fault, Text};
use crate::queries::aging::rows_result;
use crate::rows::{find, lookup, rows};
use crate::sort::{sort, sorted, Ranked, RankedRow};
use crate::tables::{Balance, Invoice, Party, ReadModel, Tables};
use crate::text::{lex_lt, same, sorts_before};
use vstd::prelude::*;
use vstd::string::*;

verus! {

/// What stands between the business and a party.
pub type PartyBalance<S = String> = Balance<S>;

impl Ranked for Balance<Seq<char>> {
    open spec fn rank(self) -> Seq<char> {
        self.party_id
    }
}

impl RankedRow for Balance {
    fn rank(&self) -> &str {
        self.party_id.as_str()
    }
}

/// The balances of all parties, by party.
pub fn party_balances(t: &Tables) -> (r: Result<Vec<PartyBalance>, DbError>)
    ensures
        r matches Ok(v) && rows(v@) == sorted(t@.balances),
{
    Ok(sort(&t.balances))
}

/// A party that a payment may be recorded for.
#[derive(Debug, PartialEq, Eq)]
#[verifier::ext_equal]
pub struct PayableParty<S = String> {
    pub id: S,
    pub name: S,
    pub kind: S,
    /// The party is archived, and offered only because something is still open.
    pub archived: bool,
}

impl View for PayableParty {
    type V = PayableParty<Seq<char>>;

    open spec fn view(&self) -> PayableParty<Seq<char>> {
        PayableParty {
            id: self.id@,
            name: self.name@,
            kind: self.kind@,
            archived: self.archived,
        }
    }
}

/// A party with its activity number, which it sorts by first.
#[derive(Debug)]
pub struct Offer<S = String> {
    pub act: i64,
    pub party: PayableParty<S>,
}

impl View for Offer {
    type V = Offer<Seq<char>>;

    open spec fn view(&self) -> Offer<Seq<char>> {
        Offer { act: self.act, party: self.party@ }
    }
}

/// The activity number of a document: one where it says nothing.
pub open spec fn activity(doc: JsonV) -> Option<i64> {
    match member(doc, "active"@) {
        None => Some(1),
        Some(JsonV::Null) => Some(1),
        Some(JsonV::Bool(b)) => Some(
            if b {
                1
            } else {
                0
            },
        ),
        Some(v) => number_in(v),
    }
}

fn activity_of(doc: &Json) -> (r: Option<i64>)
    ensures
        r == activity(doc@),
{
    match doc.get("active") {
        None => Some(1),
        Some(Json::Null) => Some(1),
        Some(Json::Bool(true)) => Some(1),
        Some(Json::Bool(false)) => Some(0),
        Some(v) => v.as_i64(),
    }
}

/// Money in settles what customers owe, money out what suppliers are owed.
pub open spec fn paying_kind(money_in: bool) -> Text {
    if money_in {
        "customer"@
    } else {
        "supplier"@
    }
}

/// The party is of a kind that the payment is with.
pub open spec fn kind_fits(doc: JsonV, money_in: bool) -> bool {
    opt_txt(doc, "kind"@) == Some(paying_kind(money_in)) || opt_txt(doc, "kind"@) == Some("both"@)
}

fn fits_kind(doc: &Json, money_in: bool) -> (r: bool)
    ensures
        r == kind_fits(doc@, money_in),
{
    match pos(doc, "kind") {
        Some(k) => {
            let wanted = if money_in {
                "customer"
            } else {
                "supplier"
            };
            same(k, wanted) || same(k, "both")
        },
        None => false,
    }
}

/// The invoice is the party's, not reversed and not settled.
pub open spec fn unsettled(x: Invoice<Text>, id: Text) -> bool {
    x.party_id == Some(id) && !x.reversed && x.outstanding_minor > 0
}

/// The party has an invoice that is not settled.
pub open spec fn owes_invoice(t: Seq<Invoice<Text>>, id: Text) -> bool {
    exists|i: int| 0 <= i < t.len() && unsettled(#[trigger] t[i], id)
}

fn has_unsettled(t: &Vec<Invoice>, id: &str) -> (r: bool)
    ensures
        r == owes_invoice(rows(t@), id@),
{
    let ghost s = rows(t@);
    let mut i: usize = 0;
    while i < t.len()
        invariant
            i <= t@.len(),
            s == rows(t@),
            forall|k: int| 0 <= k < i ==> !unsettled(#[trigger] s[k], id@),
        decreases t@.len() - i,
    {
        assert(s[i as int] == t@[i as int]@);
        let theirs = match &t[i].party_id {
            Some(p) => same(p.as_str(), id),
            None => false,
        };
        if theirs && !t[i].reversed && t[i].outstanding_minor > 0 {
            return true;
        }
        i += 1;
    }
    false
}

/// The party has a balance that is not zero on the side of the payment.
pub open spec fn has_balance(m: ReadModel, id: Text, money_in: bool) -> bool {
    lookup(m.balances, id) matches Some(b) && if money_in {
        b.receivable_minor != 0 || b.unallocated_cr_minor != 0
    } else {
        b.payable_minor != 0 || b.unallocated_dr_minor != 0
    }
}

fn balance_stands(t: &Tables, id: &str, money_in: bool) -> (r: bool)
    ensures
        r == has_balance(t@, id@, money_in),
{
    match find(&t.balances, id) {
        None => false,
        Some(i) => if money_in {
            t.balances[i].receivable_minor != 0 || t.balances[i].unallocated_cr_minor != 0
        } else {
            t.balances[i].payable_minor != 0 || t.balances[i].unallocated_dr_minor != 0
        },
    }
}

/// The party is offered: its kind fits, and it is active or something is open.
pub open spec fn offered(m: ReadModel, p: Party<Text, JsonV>, money_in: bool) -> bool {
    kind_fits(p.doc, money_in) && (activity(p.doc) == Some(1i64) || owes_invoice(
        if money_in {
            m.sales
        } else {
            m.purchases
        },
        p.id,
    ) || has_balance(m, p.id, money_in))
}

fn is_offered(t: &Tables, p: &Party, money_in: bool) -> (r: bool)
    ensures
        r == offered(t@, p@, money_in),
{
    if !fits_kind(&p.doc, money_in) {
        return false;
    }
    let active = match activity_of(&p.doc) {
        Some(a) => a == 1,
        None => false,
    };
    let invoices = if money_in {
        &t.sales
    } else {
        &t.purchases
    };
    active || has_unsettled(invoices, p.id.as_str()) || balance_stands(t, p.id.as_str(), money_in)
}

/// `a` is offered before `b`: the more active first, then by name.
pub open spec fn ahead(a: Offer<Text>, b: Offer<Text>) -> bool {
    a.act > b.act || (a.act == b.act && lex_lt(a.party.name, b.party.name))
}

/// Offers in order with one more put behind every one that it is not ahead of.
pub open spec fn put_offer(s: Seq<Offer<Text>>, e: Offer<Text>) -> Seq<Offer<Text>>
    decreases s.len(),
{
    if s.len() == 0 || !ahead(e, s.last()) {
        s.push(e)
    } else {
        put_offer(s.drop_last(), e).push(s.last())
    }
}

proof fn lemma_put_offer_at(s: Seq<Offer<Text>>, e: Offer<Text>, at: int)
    requires
        0 <= at <= s.len(),
        forall|j: int| at <= j < s.len() ==> ahead(e, #[trigger] s[j]),
        at > 0 ==> !ahead(e, s[at - 1]),
    ensures
        put_offer(s, e) == s.insert(at, e),
    decreases s.len(),
{
    if at == s.len() {
        assert(s.insert(at, e) =~= s.push(e));
    } else {
        let front = s.drop_last();
        assert(s[s.len() - 1] == s.last());
        assert forall|j: int| at <= j < front.len() implies ahead(e, #[trigger] front[j]) by {
            assert(front[j] == s[j]);
        }
        lemma_put_offer_at(front, e, at);
        assert(front.insert(at, e).push(s.last()) =~= s.insert(at, e));
    }
}

fn place_offer(out: &mut Vec<Offer>, e: Offer)
    ensures
        rows(final(out)@) == put_offer(rows(old(out)@), e@),
{
    let ghost s = rows(out@);
    let mut at: usize = out.len();
    while at > 0 && (e.act > out[at - 1].act || (e.act == out[at - 1].act && sorts_before(
        e.party.name.as_str(),
        out[at - 1].party.name.as_str(),
    )))
        invariant
            at <= out@.len(),
            *out == *old(out),
            s == rows(out@),
            forall|j: int| at <= j < s.len() ==> ahead(e@, #[trigger] s[j]),
        ensures
            at > 0 ==> !ahead(e@, s[at - 1]),
        decreases at,
    {
        at -= 1;
        assert(s[at as int] == out@[at as int]@);
    }
    proof {
        lemma_put_offer_at(s, e@, at as int);
        assert(rows(out@.insert(at as int, e)) =~= s.insert(at as int, e@));
    }
    out.insert(at, e);
}

/// The offers among the parties from party `i` on, put into `done`.
pub open spec fn offers_from(m: ReadModel, money_in: bool, i: int, done: Seq<Offer<Text>>) -> Result<
    Seq<Offer<Text>>,
    Fault,
>
    decreases m.parties.len() - i,
{
    if i < 0 || i >= m.parties.len() {
        Ok(done)
    } else {
        let p = m.parties[i];
        if !offered(m, p, money_in) {
            offers_from(m, money_in, i + 1, done)
        } else {
            match (opt_txt(p.doc, "name"@), activity(p.doc)) {
                (None, _) => Err(DbError::Null(1, "name"@)),
                (_, None) => Err(DbError::Refused("active is no number"@)),
                (Some(n), Some(a)) => offers_from(
                    m,
                    money_in,
                    i + 1,
                    put_offer(
                        done,
                        Offer {
                            act: a,
                            party: PayableParty {
                                id: p.id,
                                name: n,
                                kind: txt(p.doc, "kind"@),
                                archived: a == 0,
                            },
                        },
                    ),
                ),
            }
        }
    }
}

fn find_offers(t: &Tables, money_in: bool) -> (r: Result<Vec<Offer>, DbError>)
    ensures
        rows_result(r) == offers_from(t@, money_in, 0, Seq::empty()),
{
    let mut out: Vec<Offer> = Vec::new();
    let mut i: usize = 0;
    assert(rows(out@) =~= Seq::empty());
    while i < t.parties.len()
        invariant
            i <= t.parties@.len(),
            offers_from(t@, money_in, i as int, rows(out@)) == offers_from(
                t@,
                money_in,
                0,
                Seq::empty(),
            ),
        decreases t.parties@.len() - i,
    {
        let p = &t.parties[i];
        assert(t@.parties[i as int] == p@);
        if is_offered(t, p, money_in) {
            let name = match pos(&p.doc, "name") {
                Some(n) => n,
                None => {
                    return Err(DbError::Null(1, "name".to_owned()));
                },
            };
            let act: i64 = match activity_of(&p.doc) {
                Some(a) => a,
                None => {
                    return Err(DbError::Refused("active is no number".to_owned()));
                },
            };
            let party = PayableParty {
                id: p.id.clone(),
                name: name.to_owned(),
                kind: ps(&p.doc, "kind").to_owned(),
                archived: act == 0,
            };
            place_offer(&mut out, Offer { act, party });
        }
        i += 1;
    }
    Ok(out)
}

/// The parties of offers.
pub open spec fn parties_of(s: Seq<Offer<Text>>) -> Seq<PayableParty<Text>> {
    s.map(|i: int, o: Offer<Text>| o.party)
}

/// The parties that a payment may be recorded for.
pub open spec fn payable_outcome(m: ReadModel, direction: Text) -> Result<
    Seq<PayableParty<Text>>,
    Fault,
> {
    if direction != "in"@ && direction != "out"@ {
        Err(DbError::Refused("invalid direction: "@ + direction))
    } else {
        match offers_from(m, direction == "in"@, 0, Seq::empty()) {
            Ok(s) => Ok(parties_of(s)),
            Err(e) => Err(e),
        }
    }
}

/// The parties that a payment may be recorded for: every active party of a kind that
/// fits the direction, and every archived one that still has something open. The active
/// ones come first, then by name.
pub fn payable_parties(t: &Tables, direction: &str) -> (r: Result<Vec<PayableParty>, DbError>)
    ensures
        rows_result(r) == payable_outcome(t@, direction@),
{
    let money_in = same(direction, "in");
    if !money_in && !same(direction, "out") {
        return Err(DbError::Refused("invalid direction: ".to_owned().concat(direction)));
    }
    proof {
        reveal_strlit("in");
        reveal_strlit("out");
    }
    let mut left = find_offers(t, money_in)?;
    let ghost all = rows(left@);
    let mut out: Vec<PayableParty> = Vec::new();
    assert(rows(out@) + parties_of(all) =~= parties_of(all));
    while left.len() > 0
        invariant
            rows(out@) + parties_of(rows(left@)) == parties_of(all),
        decreases left@.len(),
    {
        let ghost was = rows(left@);
        let ghost had = rows(out@);
        let o = left.remove(0);
        assert(was[0] == o@);
        assert(rows(left@) =~= was.drop_first());
        out.push(o.party);
        assert(rows(out@) =~= had.push(o@.party));
        assert(parties_of(was) =~= seq![o@.party] + parties_of(was.drop_first()));
        assert(rows(out@) + parties_of(rows(left@)) =~= had + parties_of(was));
    }
    assert(rows(out@) =~= parties_of(all));
    Ok(out)
}

} // verus!
