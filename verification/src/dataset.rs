//! Datasets: commands written down as JSON, to be carried out in turn.
//!
//! A dataset is replayed against books of its own, where every command counts, or loaded
//! into books that exist, where unknown commands are passed over. The two differ in how
//! a line of a sale names its lots.

use crate::commands::{
    carried_out, refusal, reject, scene, CommandContext, CommandError, Refusal, Scene,
};
use crate::commands::movement::{
    expense_request, handle_expense_recorded, handle_transfer_recorded, transfer_request,
};
use crate::commands::payment::{
    handle_payment_made, handle_payment_received, payment_request, AllocInput, AllocV,
};
use crate::commands::purchase::{handle_purchase_recorded, purchase_request, PurchaseLineInput};
use crate::commands::reversal::{handle_transaction_reversed, reversal_request};
use crate::commands::sale::{
    handle_sale_recorded, handle_sale_return_recorded, quantities, sale_request,
    sale_return_request, SaleLineInput, SaleLineV, SaleReturnItemInput, SaleReturnV,
};
use crate::commands::setup::{
    handle_item_defined, handle_party_created, item_request, party_request,
};
use crate::db::Store;
use crate::events::LedgerEvent;
use crate::json::{
    elements_of, list, member, num, number_in, opt_txt, parr, pi, pos, ps, text_in, txt, Json,
    JsonV,
};
use crate::model::Text;
use crate::rows::rows;
use crate::text::same;
use vstd::prelude::*;
use vstd::string::*;

verus! {

/// What a command asks for: an event of a type, with its payload or why it is refused.
pub struct Asked {
    pub event_type: Text,
    pub request: Result<JsonV, Refusal>,
}

// ---- lines ----

pub open spec fn bought_line(l: JsonV) -> PurchaseLineInput<Text> {
    PurchaseLineInput {
        item_id: txt(l, "item_id"@),
        qty: num(l, "qty"@),
        unit_cost_minor: num(l, "unit_cost_minor"@),
    }
}

/// The lines of a purchase.
pub open spec fn bought_lines(a: JsonV) -> Seq<PurchaseLineInput<Text>> {
    Seq::new(list(a, "lines"@).len(), |i: int| bought_line(list(a, "lines"@)[i]))
}

fn read_bought_lines(a: &Json) -> (r: Vec<PurchaseLineInput>)
    ensures
        rows(r@) == bought_lines(a@),
{
    let v = parr(a, "lines");
    let mut out: Vec<PurchaseLineInput> = Vec::new();
    let mut i: usize = 0;
    while i < v.len()
        invariant
            elements_of(v@) == list(a@, "lines"@),
            i <= v@.len(),
            out@.len() == i,
            forall|k: int| 0 <= k < i ==> (#[trigger] out@[k])@ == bought_lines(a@)[k],
        decreases v@.len() - i,
    {
        let l = &v[i];
        assert(elements_of(v@)[i as int] == l@);
        out.push(
            PurchaseLineInput {
                item_id: ps(l, "item_id").to_owned(),
                qty: pi(l, "qty"),
                unit_cost_minor: pi(l, "unit_cost_minor"),
            },
        );
        i += 1;
    }
    assert(rows(out@) =~= bought_lines(a@));
    out
}

/// A lot and a number of units of it, the number under a name.
pub open spec fn part(p: JsonV, k: Text) -> (Text, i64) {
    (txt(p, "lot_id"@), num(p, k))
}

/// Lots and units.
pub open spec fn parts(v: Seq<JsonV>, k: Text) -> Seq<(Text, i64)> {
    Seq::new(v.len(), |i: int| part(v[i], k))
}

fn read_parts(v: &[Json], k: &str) -> (r: Vec<(String, i64)>)
    ensures
        quantities(r@) == parts(elements_of(v@), k@),
{
    let mut out: Vec<(String, i64)> = Vec::new();
    let mut i: usize = 0;
    while i < v.len()
        invariant
            i <= v@.len(),
            out@.len() == i,
            forall|j: int|
                0 <= j < i ==> ((#[trigger] out@[j]).0@, out@[j].1) == parts(elements_of(v@), k@)[j],
        decreases v@.len() - i,
    {
        assert(elements_of(v@)[i as int] == v@[i as int]@);
        out.push((ps(&v[i], "lot_id").to_owned(), pi(&v[i], k)));
        i += 1;
    }
    assert(quantities(out@) =~= parts(elements_of(v@), k@));
    out
}

/// A line of a sale. Where lots count, it may name those to take from.
pub open spec fn sold_line(l: JsonV, with_picks: bool) -> SaleLineV {
    SaleLineInput {
        item_id: txt(l, "item_id"@),
        qty: num(l, "qty"@),
        unit_price_minor: num(l, "unit_price_minor"@),
        lot_picks: match member(l, "lot_picks"@) {
            Some(JsonV::Array(v)) if with_picks => Some(parts(v, "qty"@)),
            _ => None,
        },
    }
}

/// The lines of a sale.
pub open spec fn sold_lines(a: JsonV, with_picks: bool) -> Seq<SaleLineV> {
    Seq::new(list(a, "lines"@).len(), |i: int| sold_line(list(a, "lines"@)[i], with_picks))
}

fn read_sold_lines(a: &Json, with_picks: bool) -> (r: Vec<SaleLineInput>)
    ensures
        rows(r@) == sold_lines(a@, with_picks),
{
    let v = parr(a, "lines");
    let mut out: Vec<SaleLineInput> = Vec::new();
    let mut i: usize = 0;
    while i < v.len()
        invariant
            elements_of(v@) == list(a@, "lines"@),
            i <= v@.len(),
            out@.len() == i,
            forall|k: int| 0 <= k < i ==> (#[trigger] out@[k])@ == sold_lines(a@, with_picks)[k],
        decreases v@.len() - i,
    {
        let l = &v[i];
        assert(elements_of(v@)[i as int] == l@);
        let named = match l.get("lot_picks") {
            Some(p) => p.as_array(),
            None => None,
        };
        let lot_picks = match named {
            Some(p) => if with_picks {
                Some(read_parts(p, "qty"))
            } else {
                None
            },
            None => None,
        };
        let line = SaleLineInput {
            item_id: ps(l, "item_id").to_owned(),
            qty: pi(l, "qty"),
            unit_price_minor: pi(l, "unit_price_minor"),
            lot_picks,
        };
        assert(line@ == sold_line(l@, with_picks));
        out.push(line);
        i += 1;
    }
    assert(rows(out@) =~= sold_lines(a@, with_picks));
    out
}

/// A lot and a number of units of it, written as a pair.
pub open spec fn pair(p: JsonV) -> (Text, i64) {
    match p {
        JsonV::Array(v) => (text_in(v[0])->0, number_in(v[1])->0),
        _ => (Seq::empty(), 0),
    }
}

/// The value is a pair of a lot and a number of units.
pub open spec fn is_pair(p: JsonV) -> bool {
    p matches JsonV::Array(v) && v.len() >= 2 && text_in(v[0]) is Some && number_in(v[1]) is Some
}

/// Lots and units, written as pairs.
pub open spec fn pairs(v: Seq<JsonV>) -> Seq<(Text, i64)> {
    Seq::new(v.len(), |i: int| pair(v[i]))
}

fn read_pair(p: &Json) -> (r: Option<(String, i64)>)
    ensures
        r is Some == is_pair(p@),
        r matches Some(x) ==> (x.0@, x.1) == pair(p@),
{
    match p.as_array() {
        Some(v) => {
            if v.len() < 2 {
                return None;
            }
            assert(elements_of(v@)[0] == v@[0]@ && elements_of(v@)[1] == v@[1]@);
            match (v[0].as_str(), v[1].as_i64()) {
                (Some(lot), Some(n)) => Some((lot.to_owned(), n)),
                _ => None,
            }
        },
        None => None,
    }
}

fn read_pairs(v: &[Json]) -> (r: Vec<(String, i64)>)
    requires
        forall|i: int| 0 <= i < v@.len() ==> is_pair(#[trigger] elements_of(v@)[i]),
    ensures
        quantities(r@) == pairs(elements_of(v@)),
{
    let mut out: Vec<(String, i64)> = Vec::new();
    let mut i: usize = 0;
    while i < v.len()
        invariant
            i <= v@.len(),
            out@.len() == i,
            forall|i: int| 0 <= i < v@.len() ==> is_pair(#[trigger] elements_of(v@)[i]),
            forall|j: int|
                0 <= j < i ==> ((#[trigger] out@[j]).0@, out@[j].1) == pairs(elements_of(v@))[j],
        decreases v@.len() - i,
    {
        assert(elements_of(v@)[i as int] == v@[i as int]@);
        if let Some(p) = read_pair(&v[i]) {
            out.push(p);
        }
        i += 1;
    }
    assert(quantities(out@) =~= pairs(elements_of(v@)));
    out
}

/// A line of a return: in pairs, or in records that name lot and units.
pub open spec fn returned_line(l: JsonV, in_pairs: bool) -> SaleReturnV {
    SaleReturnItemInput {
        item_id: txt(l, "item_id"@),
        lot_returns: if in_pairs {
            pairs(list(l, "lot_returns"@))
        } else {
            parts(list(l, "lot_returns"@), "qty_returned"@)
        },
    }
}

/// The lines of a return.
pub open spec fn returned_lines(a: JsonV, in_pairs: bool) -> Seq<SaleReturnV> {
    Seq::new(list(a, "lines"@).len(), |i: int| returned_line(list(a, "lines"@)[i], in_pairs))
}

/// The value has an array under a name.
pub open spec fn listed(v: JsonV, k: Text) -> bool {
    member(v, k) matches Some(JsonV::Array(_))
}

/// The line of a return says which lots it returns.
pub open spec fn shaped_return(l: JsonV, in_pairs: bool) -> bool {
    &&& listed(l, "lot_returns"@)
    &&& in_pairs ==> forall|i: int|
        0 <= i < list(l, "lot_returns"@).len() ==> is_pair(#[trigger] list(l, "lot_returns"@)[i])
}

fn read_returned_lines(a: &Json, in_pairs: bool) -> (r: Vec<SaleReturnItemInput>)
    requires
        forall|i: int|
            0 <= i < list(a@, "lines"@).len() ==> shaped_return(
                #[trigger] list(a@, "lines"@)[i],
                in_pairs,
            ),
    ensures
        rows(r@) == returned_lines(a@, in_pairs),
{
    let v = parr(a, "lines");
    let mut out: Vec<SaleReturnItemInput> = Vec::new();
    let mut i: usize = 0;
    while i < v.len()
        invariant
            elements_of(v@) == list(a@, "lines"@),
            i <= v@.len(),
            out@.len() == i,
            forall|i: int|
                0 <= i < list(a@, "lines"@).len() ==> shaped_return(
                    #[trigger] list(a@, "lines"@)[i],
                    in_pairs,
                ),
            forall|k: int| 0 <= k < i ==> (#[trigger] out@[k])@ == returned_lines(a@, in_pairs)[k],
        decreases v@.len() - i,
    {
        let l = &v[i];
        assert(elements_of(v@)[i as int] == l@);
        assert(shaped_return(list(a@, "lines"@)[i as int], in_pairs));
        let named = parr(l, "lot_returns");
        let lot_returns = if in_pairs {
            assert forall|j: int| 0 <= j < named@.len() implies is_pair(
                #[trigger] elements_of(named@)[j],
            ) by {
                assert(is_pair(list(l@, "lot_returns"@)[j]));
            }
            read_pairs(named)
        } else {
            read_parts(named, "qty_returned")
        };
        out.push(SaleReturnItemInput { item_id: ps(l, "item_id").to_owned(), lot_returns });
        i += 1;
    }
    assert(rows(out@) =~= returned_lines(a@, in_pairs));
    out
}

pub open spec fn settlement(l: JsonV) -> AllocV {
    AllocInput {
        target_id: txt(l, "target_id"@),
        target_type: txt(l, "target_type"@),
        amount_minor: num(l, "amount_minor"@),
    }
}

/// What a payment settles.
pub open spec fn allocations_in(a: JsonV) -> Seq<AllocV> {
    Seq::new(list(a, "allocations"@).len(), |i: int| settlement(list(a, "allocations"@)[i]))
}

fn read_allocations(a: &Json) -> (r: Vec<AllocInput>)
    ensures
        rows(r@) == allocations_in(a@),
{
    let v = parr(a, "allocations");
    let mut out: Vec<AllocInput> = Vec::new();
    let mut i: usize = 0;
    while i < v.len()
        invariant
            elements_of(v@) == list(a@, "allocations"@),
            i <= v@.len(),
            out@.len() == i,
            forall|k: int| 0 <= k < i ==> (#[trigger] out@[k])@ == allocations_in(a@)[k],
        decreases v@.len() - i,
    {
        let l = &v[i];
        assert(elements_of(v@)[i as int] == l@);
        out.push(
            AllocInput {
                target_id: ps(l, "target_id").to_owned(),
                target_type: ps(l, "target_type").to_owned(),
                amount_minor: pi(l, "amount_minor"),
            },
        );
        i += 1;
    }
    assert(rows(out@) =~= allocations_in(a@));
    out
}

// ---- commands ----

/// What a command of either kind of dataset asks for, where it is one.
pub open spec fn common_command(s: Store, cmd: Text, a: JsonV) -> Option<Asked> {
    if cmd == "item_defined"@ {
        Some(
            Asked {
                event_type: "ItemDefined"@,
                request: item_request(
                    s.model,
                    txt(a, "item_id"@),
                    txt(a, "sku"@),
                    txt(a, "name"@),
                    txt(a, "unit"@),
                ),
            },
        )
    } else if cmd == "party_created"@ {
        Some(
            Asked {
                event_type: "PartyCreated"@,
                request: party_request(
                    s.model,
                    txt(a, "party_id"@),
                    txt(a, "name"@),
                    txt(a, "kind"@),
                ),
            },
        )
    } else if cmd == "purchase_recorded"@ {
        Some(
            Asked {
                event_type: "PurchaseRecorded"@,
                request: purchase_request(
                    s.model,
                    txt(a, "purchase_id"@),
                    txt(a, "supplier_id"@),
                    txt(a, "date"@),
                    txt(a, "terms"@),
                    bought_lines(a),
                ),
            },
        )
    } else if cmd == "payment_received"@ {
        Some(
            Asked {
                event_type: "PaymentReceived"@,
                request: payment_request(
                    s.model,
                    true,
                    txt(a, "payment_id"@),
                    txt(a, "customer_id"@),
                    num(a, "amount_minor"@),
                    txt(a, "date"@),
                    allocations_in(a),
                ),
            },
        )
    } else if cmd == "payment_made"@ {
        Some(
            Asked {
                event_type: "PaymentMade"@,
                request: payment_request(
                    s.model,
                    false,
                    txt(a, "payment_id"@),
                    txt(a, "supplier_id"@),
                    num(a, "amount_minor"@),
                    txt(a, "date"@),
                    allocations_in(a),
                ),
            },
        )
    } else if cmd == "expense_recorded"@ {
        Some(
            Asked {
                event_type: "ExpenseRecorded"@,
                request: expense_request(
                    s.model,
                    txt(a, "expense_id"@),
                    txt(a, "account_id"@),
                    num(a, "amount_minor"@),
                    txt(a, "date"@),
                    txt(a, "terms"@),
                    opt_txt(a, "supplier_id"@),
                    opt_txt(a, "memo"@),
                ),
            },
        )
    } else {
        None
    }
}

/// What a sale or its return asks for: a replayed one may pick lots and returns pairs.
pub open spec fn sale_command(s: Store, cmd: Text, a: JsonV, replayed: bool) -> Option<Asked> {
    if cmd == "sale_recorded"@ {
        Some(
            Asked {
                event_type: "SaleRecorded"@,
                request: sale_request(
                    s.model,
                    txt(a, "sale_id"@),
                    txt(a, "customer_id"@),
                    txt(a, "date"@),
                    txt(a, "terms"@),
                    sold_lines(a, replayed),
                ),
            },
        )
    } else if cmd == "sale_return_recorded"@ {
        Some(
            Asked {
                event_type: "SaleReturnRecorded"@,
                request: sale_return_request(
                    s.model,
                    txt(a, "return_id"@),
                    txt(a, "original_sale_id"@),
                    txt(a, "date"@),
                    returned_lines(a, replayed),
                ),
            },
        )
    } else {
        None
    }
}

/// What a command of a dataset to load asks for, where it is known.
pub open spec fn load_command(s: Store, cmd: Text, a: JsonV) -> Option<Asked> {
    match sale_command(s, cmd, a, false) {
        Some(x) => Some(x),
        None => common_command(s, cmd, a),
    }
}

/// What a command of a dataset to replay asks for, where it is known.
pub open spec fn replay_command(s: Store, cmd: Text, a: JsonV) -> Option<Asked> {
    if cmd == "transfer_recorded"@ {
        Some(
            Asked {
                event_type: "TransferRecorded"@,
                request: transfer_request(
                    s.model,
                    txt(a, "transfer_id"@),
                    txt(a, "from_account_id"@),
                    txt(a, "to_account_id"@),
                    num(a, "amount_minor"@),
                    txt(a, "date"@),
                    opt_txt(a, "memo"@),
                ),
            },
        )
    } else if cmd == "transaction_reversed"@ {
        Some(
            Asked {
                event_type: "TransactionReversed"@,
                request: reversal_request(s, txt(a, "target_event_id"@), txt(a, "reason"@)),
            },
        )
    } else {
        match sale_command(s, cmd, a, true) {
            Some(x) => Some(x),
            None => common_command(s, cmd, a),
        }
    }
}

/// The command has the arrays that it needs.
pub open spec fn shaped(cmd: Text, a: JsonV, replayed: bool) -> bool {
    &&& cmd == "purchase_recorded"@ || cmd == "sale_recorded"@ ==> listed(a, "lines"@)
    &&& cmd == "sale_return_recorded"@ ==> listed(a, "lines"@) && forall|i: int|
        0 <= i < list(a, "lines"@).len() ==> shaped_return(
            #[trigger] list(a, "lines"@)[i],
            replayed,
        )
    &&& cmd == "payment_received"@ || cmd == "payment_made"@ ==> listed(a, "allocations"@)
}

fn is_listed(v: &Json, k: &str) -> (r: bool)
    ensures
        r == listed(v@, k@),
{
    match v.get(k) {
        Some(x) => x.as_array().is_some(),
        None => false,
    }
}

fn is_shaped_return(l: &Json, in_pairs: bool) -> (r: bool)
    ensures
        r == shaped_return(l@, in_pairs),
{
    if !is_listed(l, "lot_returns") {
        return false;
    }
    let v = parr(l, "lot_returns");
    let mut i: usize = 0;
    while in_pairs && i < v.len()
        invariant
            elements_of(v@) == list(l@, "lot_returns"@),
            listed(l@, "lot_returns"@),
            i <= v@.len(),
            forall|k: int| 0 <= k < i ==> is_pair(#[trigger] list(l@, "lot_returns"@)[k]),
        decreases v@.len() - i,
    {
        assert(elements_of(v@)[i as int] == v@[i as int]@);
        if read_pair(&v[i]).is_none() {
            assert(!is_pair(list(l@, "lot_returns"@)[i as int]));
            return false;
        }
        i += 1;
    }
    true
}

/// Whether a command has the arrays that it needs.
pub fn is_shaped(cmd: &str, a: &Json, replayed: bool) -> (r: bool)
    ensures
        r == shaped(cmd@, a@, replayed),
{
    if (same(cmd, "purchase_recorded") || same(cmd, "sale_recorded")) && !is_listed(a, "lines") {
        return false;
    }
    if (same(cmd, "payment_received") || same(cmd, "payment_made")) && !is_listed(
        a,
        "allocations",
    ) {
        return false;
    }
    if same(cmd, "sale_return_recorded") {
        if !is_listed(a, "lines") {
            return false;
        }
        let v = parr(a, "lines");
        let mut i: usize = 0;
        while i < v.len()
            invariant
                elements_of(v@) == list(a@, "lines"@),
                i <= v@.len(),
                cmd@ == "sale_return_recorded"@,
                forall|k: int|
                    0 <= k < i ==> shaped_return(#[trigger] list(a@, "lines"@)[k], replayed),
            decreases v@.len() - i,
        {
            assert(elements_of(v@)[i as int] == v@[i as int]@);
            if !is_shaped_return(&v[i], replayed) {
                assert(!shaped_return(list(a@, "lines"@)[i as int], replayed));
                return false;
            }
            i += 1;
        }
    }
    true
}

/// The command was carried out as asked, or nothing was asked and nothing changed.
pub open spec fn answered(
    old: Scene,
    new: Scene,
    r: Option<Result<LedgerEvent, CommandError>>,
    asked: Option<Asked>,
) -> bool {
    match asked {
        Some(q) => r matches Some(x) && carried_out(old, new, x, q.event_type, q.request),
        None => r is None && new == old,
    }
}

fn do_common(ctx: &mut CommandContext, cmd: &str, a: &Json) -> (r: Option<
    Result<LedgerEvent, CommandError>,
>)
    ensures
        answered(
            scene(old(ctx)),
            scene(final(ctx)),
            r,
            common_command(old(ctx).conn@, cmd@, a@),
        ),
        *final(final(ctx).conn) == *final(old(ctx).conn),
        *final(final(ctx).hlc) == *final(old(ctx).hlc),
{
    if same(cmd, "item_defined") {
        Some(
            handle_item_defined(ctx, ps(a, "item_id"), ps(a, "sku"), ps(a, "name"), ps(a, "unit")),
        )
    } else if same(cmd, "party_created") {
        Some(handle_party_created(ctx, ps(a, "party_id"), ps(a, "name"), ps(a, "kind")))
    } else if same(cmd, "purchase_recorded") {
        Some(
            handle_purchase_recorded(
                ctx,
                ps(a, "purchase_id"),
                ps(a, "supplier_id"),
                ps(a, "date"),
                ps(a, "terms"),
                read_bought_lines(a),
            ),
        )
    } else if same(cmd, "payment_received") {
        Some(
            handle_payment_received(
                ctx,
                ps(a, "payment_id"),
                ps(a, "customer_id"),
                pi(a, "amount_minor"),
                ps(a, "date"),
                read_allocations(a),
            ),
        )
    } else if same(cmd, "payment_made") {
        Some(
            handle_payment_made(
                ctx,
                ps(a, "payment_id"),
                ps(a, "supplier_id"),
                pi(a, "amount_minor"),
                ps(a, "date"),
                read_allocations(a),
            ),
        )
    } else if same(cmd, "expense_recorded") {
        Some(
            handle_expense_recorded(
                ctx,
                ps(a, "expense_id"),
                ps(a, "account_id"),
                pi(a, "amount_minor"),
                ps(a, "date"),
                ps(a, "terms"),
                pos(a, "supplier_id"),
                pos(a, "memo"),
            ),
        )
    } else {
        None
    }
}

fn do_sale(ctx: &mut CommandContext, cmd: &str, a: &Json, replayed: bool) -> (r: Option<
    Result<LedgerEvent, CommandError>,
>)
    requires
        shaped(cmd@, a@, replayed),
    ensures
        answered(
            scene(old(ctx)),
            scene(final(ctx)),
            r,
            sale_command(old(ctx).conn@, cmd@, a@, replayed),
        ),
        *final(final(ctx).conn) == *final(old(ctx).conn),
        *final(final(ctx).hlc) == *final(old(ctx).hlc),
{
    if same(cmd, "sale_recorded") {
        Some(
            handle_sale_recorded(
                ctx,
                ps(a, "sale_id"),
                ps(a, "customer_id"),
                ps(a, "date"),
                ps(a, "terms"),
                read_sold_lines(a, replayed),
            ),
        )
    } else if same(cmd, "sale_return_recorded") {
        Some(
            handle_sale_return_recorded(
                ctx,
                ps(a, "return_id"),
                ps(a, "original_sale_id"),
                ps(a, "date"),
                read_returned_lines(a, replayed),
            ),
        )
    } else {
        None
    }
}

/// Carries out a command of a dataset that is loaded into existing books. One that is
/// not known is passed over.
pub fn load(ctx: &mut CommandContext, cmd: &str, a: &Json) -> (r: Option<
    Result<LedgerEvent, CommandError>,
>)
    requires
        shaped(cmd@, a@, false),
    ensures
        answered(scene(old(ctx)), scene(final(ctx)), r, load_command(old(ctx).conn@, cmd@, a@)),
        *final(final(ctx).conn) == *final(old(ctx).conn),
        *final(final(ctx).hlc) == *final(old(ctx).hlc),
{
    match do_sale(ctx, cmd, a, false) {
        Some(x) => Some(x),
        None => do_common(ctx, cmd, a),
    }
}

/// Carries out a command of a dataset that is replayed. One that is not known is
/// refused.
pub fn replay(ctx: &mut CommandContext, cmd: &str, a: &Json) -> (r: Result<
    LedgerEvent,
    CommandError,
>)
    requires
        shaped(cmd@, a@, true),
    ensures
        match replay_command(old(ctx).conn@, cmd@, a@) {
            Some(q) => carried_out(
                scene(old(ctx)),
                scene(final(ctx)),
                r,
                q.event_type,
                q.request,
            ),
            None => r matches Err(e) && e@ == refusal("unknown command: "@ + cmd@) && scene(
                final(ctx),
            ) == scene(old(ctx)),
        },
        *final(final(ctx).conn) == *final(old(ctx).conn),
        *final(final(ctx).hlc) == *final(old(ctx).hlc),
{
    if same(cmd, "transfer_recorded") {
        return handle_transfer_recorded(
            ctx,
            ps(a, "transfer_id"),
            ps(a, "from_account_id"),
            ps(a, "to_account_id"),
            pi(a, "amount_minor"),
            ps(a, "date"),
            pos(a, "memo"),
        );
    }
    if same(cmd, "transaction_reversed") {
        return handle_transaction_reversed(ctx, ps(a, "target_event_id"), ps(a, "reason"));
    }
    match do_sale(ctx, cmd, a, true) {
        Some(x) => {
            return x;
        },
        None => {},
    }
    match do_common(ctx, cmd, a) {
        Some(x) => x,
        None => Err(reject("unknown command: ".to_owned().concat(cmd))),
    }
}

} // verus!
