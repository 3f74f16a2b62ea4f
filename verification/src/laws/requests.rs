//! What every request keeps to.

use crate::commands::{carried_out, CommandError, Refusal, Scene};
use crate::commands::guards::is_seeded;
use crate::commands::movement::expense_request;
use crate::commands::payment::{payment_request, AllocV};
use crate::commands::purchase::{purchase_request, PurchaseLineInput};
use crate::commands::reversal::reversal_request;
use crate::commands::sale::{sale_request, SaleLineV};
use crate::db::Store;
use crate::events::{max_seq, mentioned, EventV, LedgerEvent};
use crate::json::{opt_txt, txt, JsonV};
use crate::model::{item_deleted, party_deleted, Text};
use crate::queries::parties::{
    activity, ahead, offered, offers_from, put_offer, Offer, PayableParty,
};
use crate::refs::{referring, ITEM_REFS, PARTY_REFS, Reference};
use crate::rows::{holds, lemma_has};
use crate::tables::ReadModel;
use crate::text::{lemma_lex_asymmetric, lemma_lex_total, lemma_lex_transitive, lex_lt};
use vstd::prelude::*;

verus! {

/// A request that is refused, or that fails when it is committed, leaves the log, the
/// settings and the read model as they were.
pub proof fn law_refused_requests_change_nothing(
    before: Scene,
    after: Scene,
    r: Result<LedgerEvent, CommandError>,
    event_type: Text,
    request: Result<JsonV, Refusal>,
)
    requires
        carried_out(before, after, r, event_type, request),
        r is Err,
    ensures
        after.store == before.store,
{
}

/// A request that is granted and committed adds one event of its type to the end of the
/// log, under the next number of its device, and what it was granted is its payload.
pub proof fn law_granted_requests_add_one_event(
    before: Scene,
    after: Scene,
    r: Result<LedgerEvent, CommandError>,
    event_type: Text,
    request: Result<JsonV, Refusal>,
)
    requires
        carried_out(before, after, r, event_type, request),
        r is Ok,
    ensures
        after.store.events == before.store.events.push(r->Ok_0@),
        r->Ok_0@.event_type == event_type,
        request == Ok::<JsonV, Refusal>(r->Ok_0@.payload),
        r->Ok_0@.device_id == before.device,
        r->Ok_0@.seq == max_seq(before.store.events, before.device) + 1,
        after.store.settings == before.store.settings,
{
}

/// No sale to, no purchase from and no expense owed to a seeded party is granted on
/// credit.
pub proof fn law_seeded_parties_trade_for_cash(
    m: ReadModel,
    id: Text,
    party: Text,
    date: Text,
    sold: Seq<SaleLineV>,
    bought: Seq<PurchaseLineInput<Text>>,
    account: Text,
    amount: i64,
    memo: Option<Text>,
)
    requires
        is_seeded(party),
    ensures
        sale_request(m, id, party, date, "credit"@, sold) is Err,
        purchase_request(m, id, party, date, "credit"@, bought) is Err,
        expense_request(m, id, account, amount, date, "credit"@, Some(party), memo) is Err,
{
}

/// No payment with a seeded party is granted.
pub proof fn law_seeded_parties_take_no_payment(
    m: ReadModel,
    incoming: bool,
    id: Text,
    party: Text,
    amount: i64,
    date: Text,
    allocs: Seq<AllocV>,
)
    requires
        is_seeded(party),
    ensures
        payment_request(m, incoming, id, party, amount, date, allocs) is Err,
{
}

/// What is reversed once is not reversed again: while a reversal of an event is in the
/// log, no other is granted.
pub proof fn law_reversed_once(s: Store, target: Text, reason: Text, i: int)
    requires
        0 <= i < s.events.len(),
        s.events[i].event_type == "TransactionReversed"@,
        opt_txt(s.events[i].payload, "targetEventId"@) == Some(target),
    ensures
        reversal_request(s, target, reason) is Err,
{
    assert(mentioned(s.events, "TransactionReversed"@, "targetEventId"@, target));
}

/// Who points at a row does not depend on the tables of items and parties.
proof fn lemma_referring(m: ReadModel, n: ReadModel, refs: Seq<Reference>, id: Text)
    requires
        n == (ReadModel { items: n.items, parties: n.parties, ..m }),
    ensures
        referring(n, refs, id) == referring(m, refs, id),
    decreases refs.len(),
{
    if refs.len() > 0 {
        lemma_referring(m, n, refs.drop_last(), id);
    }
}

/// Deleting an item leaves no row that points at an item that is gone.
pub proof fn law_deleting_an_item_orphans_nothing(m: ReadModel, ev: EventV)
    ensures
        item_deleted(m, ev) matches Ok(n) && n == (ReadModel { items: n.items, ..m }) && (holds(
            m.items,
            txt(ev.payload, "itemId"@),
        ) && referring(n, ITEM_REFS@, txt(ev.payload, "itemId"@)) > 0 ==> holds(
            n.items,
            txt(ev.payload, "itemId"@),
        )),
{
    let n = item_deleted(m, ev)->Ok_0;
    lemma_referring(m, n, ITEM_REFS@, txt(ev.payload, "itemId"@));
    lemma_has(m.items, txt(ev.payload, "itemId"@));
}

/// Deleting a party leaves no row that points at a party that is gone.
pub proof fn law_deleting_a_party_orphans_nothing(m: ReadModel, ev: EventV)
    ensures
        party_deleted(m, ev) matches Ok(n) && n == (ReadModel { parties: n.parties, ..m }) && (
        holds(m.parties, txt(ev.payload, "partyId"@)) && referring(
            n,
            PARTY_REFS@,
            txt(ev.payload, "partyId"@),
        ) > 0 ==> holds(n.parties, txt(ev.payload, "partyId"@))),
{
    let n = party_deleted(m, ev)->Ok_0;
    lemma_referring(m, n, PARTY_REFS@, txt(ev.payload, "partyId"@));
    lemma_has(m.parties, txt(ev.payload, "partyId"@));
}

/// Offers in order: none stands behind one that it is ahead of.
pub open spec fn offers_in_order(s: Seq<Offer<Text>>) -> bool {
    forall|i: int, j: int| 0 <= i < j < s.len() ==> !ahead(#[trigger] s[j], #[trigger] s[i])
}

proof fn lemma_put_offer(s: Seq<Offer<Text>>, e: Offer<Text>)
    requires
        offers_in_order(s),
    ensures
        offers_in_order(put_offer(s, e)),
        forall|i: int|
            0 <= i < put_offer(s, e).len() ==> #[trigger] put_offer(s, e)[i] == e || s.contains(
                put_offer(s, e)[i],
            ),
    decreases s.len(),
{
    let r = put_offer(s, e);
    if s.len() == 0 || !ahead(e, s.last()) {
        assert forall|i: int, j: int| 0 <= i < j < r.len() implies !ahead(
            #[trigger] r[j],
            #[trigger] r[i],
        ) by {
            if j == s.len() && i < s.len() - 1 {
                assert(!ahead(s[s.len() - 1], s[i]));
                lemma_ahead(e, s[s.len() - 1], s[i]);
            }
        }
        assert forall|i: int| 0 <= i < r.len() implies #[trigger] r[i] == e || s.contains(r[i]) by {
            if i < s.len() {
                assert(s[i] == r[i]);
            }
        }
    } else {
        let front = s.drop_last();
        lemma_put_offer(front, e);
        let q = put_offer(front, e);
        assert forall|i: int, j: int| 0 <= i < j < r.len() implies !ahead(
            #[trigger] r[j],
            #[trigger] r[i],
        ) by {
            assert(r[i] == q[i]);
            if j == q.len() {
                if q[i] == e {
                    lemma_lex_asymmetric_names(e, s.last());
                } else {
                    assert(front.contains(q[i]));
                    let k = choose|k: int| 0 <= k < front.len() && front[k] == q[i];
                    assert(s[k] == q[i]);
                    assert(!ahead(s[s.len() - 1], s[k]));
                }
            } else {
                assert(r[j] == q[j]);
            }
        }
        assert forall|i: int| 0 <= i < r.len() implies #[trigger] r[i] == e || s.contains(r[i]) by {
            if i < q.len() {
                assert(r[i] == q[i]);
                if q[i] != e {
                    let k = choose|k: int| 0 <= k < front.len() && front[k] == q[i];
                    assert(s[k] == q[i]);
                }
            } else {
                assert(s[s.len() - 1] == r[i]);
            }
        }
    }
}

/// One that is not ahead of a second, which is not ahead of a third, is not ahead of the
/// third.
proof fn lemma_ahead(a: Offer<Text>, b: Offer<Text>, c: Offer<Text>)
    requires
        !ahead(a, b),
        !ahead(b, c),
    ensures
        !ahead(a, c),
{
    if ahead(a, c) {
        lemma_lex_total(a.party.name, b.party.name);
        lemma_lex_total(b.party.name, c.party.name);
        if a.act == c.act {
            if lex_lt(c.party.name, b.party.name) && lex_lt(b.party.name, a.party.name) {
                lemma_lex_transitive(c.party.name, b.party.name, a.party.name);
            }
            lemma_lex_asymmetric(a.party.name, c.party.name);
        }
    }
}

proof fn lemma_lex_asymmetric_names(a: Offer<Text>, b: Offer<Text>)
    requires
        ahead(a, b),
    ensures
        !ahead(b, a),
{
    if a.act == b.act {
        lemma_lex_asymmetric(a.party.name, b.party.name);
    }
}

proof fn lemma_offers(m: ReadModel, money_in: bool, i: int, done: Seq<Offer<Text>>)
    requires
        0 <= i,
        offers_in_order(done),
        forall|k: int|
            0 <= k < done.len() ==> (#[trigger] done[k]).party.archived == (done[k].act == 0),
    ensures
        offers_from(m, money_in, i, done) matches Ok(s) ==> offers_in_order(s) && forall|k: int|
            0 <= k < s.len() ==> (#[trigger] s[k]).party.archived == (s[k].act == 0),
    decreases m.parties.len() - i,
{
    if i < m.parties.len() {
        let p = m.parties[i];
        if !offered(m, p, money_in) {
            lemma_offers(m, money_in, i + 1, done);
        } else if let (Some(n), Some(a)) = (opt_txt(p.doc, "name"@), activity(p.doc)) {
            let e = Offer {
                act: a,
                party: PayableParty {
                    id: p.id,
                    name: n,
                    kind: txt(p.doc, "kind"@),
                    archived: a == 0,
                },
            };
            lemma_put_offer(done, e);
            let next = put_offer(done, e);
            assert forall|k: int| 0 <= k < next.len() implies (
            #[trigger] next[k]).party.archived == (next[k].act == 0) by {
                if next[k] != e {
                    let j = choose|j: int| 0 <= j < done.len() && done[j] == next[k];
                    assert(done[j].party.archived == (done[j].act == 0));
                }
            }
            lemma_offers(m, money_in, i + 1, next);
        }
    }
}

/// Among the parties that a payment may be recorded for, an archived one never stands
/// before one that is active.
pub proof fn law_active_parties_come_first(m: ReadModel, money_in: bool, i: int, j: int)
    requires
        offers_from(m, money_in, 0, Seq::empty()) is Ok,
        0 <= i < j < offers_from(m, money_in, 0, Seq::empty())->Ok_0.len(),
        offers_from(m, money_in, 0, Seq::empty())->Ok_0[i].party.archived,
    ensures
        offers_from(m, money_in, 0, Seq::empty())->Ok_0[j].act <= 0,
{
    lemma_offers(m, money_in, 0, Seq::empty());
    let s = offers_from(m, money_in, 0, Seq::empty())->Ok_0;
    assert(!ahead(s[j], s[i]));
}

/// The parties that a payment may be recorded for stand by their activity, highest first,
/// and those of the same activity by their names.
pub proof fn law_parties_stand_by_name(m: ReadModel, money_in: bool, i: int, j: int)
    requires
        offers_from(m, money_in, 0, Seq::empty()) is Ok,
        0 <= i < j < offers_from(m, money_in, 0, Seq::empty())->Ok_0.len(),
    ensures
        ({
            let a = offers_from(m, money_in, 0, Seq::empty())->Ok_0[i];
            let b = offers_from(m, money_in, 0, Seq::empty())->Ok_0[j];
            a.act >= b.act && (a.act == b.act ==> !lex_lt(b.party.name, a.party.name))
        }),
{
    lemma_offers(m, money_in, 0, Seq::empty());
    let s = offers_from(m, money_in, 0, Seq::empty())->Ok_0;
    assert(!ahead(s[j], s[i]));
}

} // verus!
