//! What comes from outside is taken as it is given: the fields of requests, commands of
//! datasets, lines of archives, and what the first run seeds.

use crate::archive::read::{event_in, header_in};
use crate::backup::{flaw, Inspection};
use crate::commands::reversal::reversal_request;
use crate::commands::sale::{sale_request, sale_return_request};
use crate::dataset::{
    allocations_in, bought_lines, load_command, replay_command, returned_lines, sold_lines,
};
use crate::dates::{date_shifted, half_year_before, last_month_start};
use crate::db::Store;
use crate::genesis::{account_payload, owner_payload, party_payload, SEEDED_ACCOUNTS};
use crate::json::{list, member, num, opt_txt, txt, JsonV};
use crate::laws::granted::{
    bought_record, law_expenses_are_granted, law_purchases_are_granted, law_transfers_are_granted,
};
use crate::laws::masters::{law_items_are_granted, law_parties_are_granted};
use crate::laws::settling::{law_payments_are_granted, law_reversals_are_granted, pays};
use crate::model::{Fault, Text};
use crate::queries::profit::{gross_profit_outcome, net_profit_outcome};
use crate::service::{
    bought, profit_outcome, settling, sold, AllocationDto, PurchaseLineDto, SaleLineDto,
};
use crate::tables::ReadModel;
use vstd::prelude::*;

verus! {

// ---- requests ----

/// The lines of a purchase that is asked for are bought as given.
pub proof fn law_purchase_lines_are_taken_as_given(v: Seq<PurchaseLineDto>)
    ensures
        bought(v).len() == v.len(),
        forall|i: int|
            0 <= i < v.len() ==> (#[trigger] bought(v)[i]).item_id == v[i].item_id@ && bought(
                v,
            )[i].qty == v[i].qty && bought(v)[i].unit_cost_minor == v[i].unit_cost_minor,
{
}

/// The lines of a sale that is asked for are sold as given, out of the oldest stock.
pub proof fn law_sale_lines_are_taken_as_given(v: Seq<SaleLineDto>)
    ensures
        sold(v).len() == v.len(),
        forall|i: int|
            0 <= i < v.len() ==> (#[trigger] sold(v)[i]).item_id == v[i].item_id@ && sold(v)[i].qty
                == v[i].qty && sold(v)[i].unit_price_minor == v[i].unit_price_minor && sold(
                v,
            )[i].lot_picks is None,
{
}

/// The allocations of a payment that is asked for settle what is given.
pub proof fn law_allocations_are_taken_as_given(v: Seq<AllocationDto>)
    ensures
        settling(v).len() == v.len(),
        forall|i: int|
            0 <= i < v.len() ==> (#[trigger] settling(v)[i]).target_id == v[i].target_id@
                && settling(v)[i].target_type == v[i].target_type@ && settling(v)[i].amount_minor
                == v[i].amount_minor,
{
}

/// The profit that is shown is the gross and the net profit of one and the same period.
pub proof fn law_profit_is_of_one_period(m: ReadModel, limit: Option<Text>)
    ensures
        profit_outcome(m, limit) matches Ok(p) ==> {
            &&& gross_profit_outcome(m, limit) matches Ok(g) && g.revenue_minor == p.revenue_minor
                && g.cogs_minor == p.cogs_minor && g.gross_profit_minor == p.gross_profit_minor
            &&& net_profit_outcome(m, limit) == Ok::<i64, Fault>(p.net_profit_minor)
        },
{
}

// ---- datasets ----

proof fn lemma_command_names()
    ensures
        "item_defined"@ != "party_created"@,
        "item_defined"@ != "payment_made"@,
        "party_created"@ != "sale_recorded"@,
        "purchase_recorded"@ != "transfer_recorded"@,
        "payment_received"@ != "expense_recorded"@,
        "sale_return_recorded"@ != "transaction_reversed"@,
        "item_defined"@.len() == 12,
        "party_created"@.len() == 13,
        "purchase_recorded"@.len() == 17,
        "payment_received"@.len() == 16,
        "payment_made"@.len() == 12,
        "expense_recorded"@.len() == 16,
        "sale_recorded"@.len() == 13,
        "sale_return_recorded"@.len() == 20,
        "transfer_recorded"@.len() == 17,
        "transaction_reversed"@.len() == 20,
{
    reveal_strlit("item_defined");
    reveal_strlit("party_created");
    reveal_strlit("purchase_recorded");
    reveal_strlit("payment_received");
    reveal_strlit("payment_made");
    reveal_strlit("expense_recorded");
    reveal_strlit("sale_recorded");
    reveal_strlit("sale_return_recorded");
    reveal_strlit("transfer_recorded");
    reveal_strlit("transaction_reversed");
    assert("item_defined"@[0] == 'i' && "payment_made"@[0] == 'p');
    assert("party_created"@[0] == 'p' && "sale_recorded"@[0] == 's');
    assert("purchase_recorded"@[0] == 'p' && "transfer_recorded"@[0] == 't');
    assert("payment_received"@[0] == 'p' && "expense_recorded"@[0] == 'e');
    assert("sale_return_recorded"@[0] == 's' && "transaction_reversed"@[0] == 't');
}

/// A command that defines an item or creates a party records what it names.
pub proof fn law_commands_define(s: Store, a: JsonV)
    ensures
        load_command(s, "item_defined"@, a) == replay_command(s, "item_defined"@, a),
        load_command(s, "party_created"@, a) == replay_command(s, "party_created"@, a),
        load_command(s, "item_defined"@, a) matches Some(x) && x.event_type == "ItemDefined"@ && (
        x.request matches Ok(p) ==> txt(p, "itemId"@) == txt(a, "item_id"@) && txt(p, "sku"@)
            == txt(a, "sku"@) && txt(p, "name"@) == txt(a, "name"@) && txt(p, "unit"@) == txt(
            a,
            "unit"@,
        )),
        load_command(s, "party_created"@, a) matches Some(x) && x.event_type == "PartyCreated"@ && (
        x.request matches Ok(p) ==> txt(p, "partyId"@) == txt(a, "party_id"@) && txt(p, "name"@)
            == txt(a, "name"@) && txt(p, "kind"@) == txt(a, "kind"@)),
{
    lemma_command_names();
    law_items_are_granted(
        s.model,
        txt(a, "item_id"@),
        txt(a, "sku"@),
        txt(a, "name"@),
        txt(a, "unit"@),
    );
    law_parties_are_granted(s.model, txt(a, "party_id"@), txt(a, "name"@), txt(a, "kind"@));
}

/// A command that records a purchase records what it names, line by line.
pub proof fn law_commands_purchase(s: Store, a: JsonV)
    ensures
        load_command(s, "purchase_recorded"@, a) == replay_command(s, "purchase_recorded"@, a),
        load_command(s, "purchase_recorded"@, a) matches Some(x) && x.event_type
            == "PurchaseRecorded"@ && (x.request matches Ok(p) ==> {
            let given = list(a, "lines"@);
            let r = list(p, "lines"@);
            &&& txt(p, "purchaseId"@) == txt(a, "purchase_id"@)
            &&& txt(p, "supplierId"@) == txt(a, "supplier_id"@)
            &&& txt(p, "date"@) == txt(a, "date"@)
            &&& txt(p, "terms"@) == txt(a, "terms"@)
            &&& r.len() == given.len()
            &&& forall|j: int|
                0 <= j < r.len() ==> txt(#[trigger] r[j], "itemId"@) == txt(given[j], "item_id"@)
                    && num(r[j], "qty"@) == num(given[j], "qty"@) && num(r[j], "unitCostMinor"@)
                    == num(given[j], "unit_cost_minor"@)
        }),
{
    lemma_command_names();
    let lines = bought_lines(a);
    law_purchases_are_granted(
        s.model,
        txt(a, "purchase_id"@),
        txt(a, "supplier_id"@),
        txt(a, "date"@),
        txt(a, "terms"@),
        lines,
    );
    if let Ok(p) = load_command(s, "purchase_recorded"@, a)->0.request {
        let r = list(p, "lines"@);
        let given = list(a, "lines"@);
        assert forall|j: int| 0 <= j < r.len() implies txt(#[trigger] r[j], "itemId"@) == txt(
            given[j],
            "item_id"@,
        ) && num(r[j], "qty"@) == num(given[j], "qty"@) && num(r[j], "unitCostMinor"@) == num(
            given[j],
            "unit_cost_minor"@,
        ) by {
            assert(bought_record(r[j], txt(a, "purchase_id"@), lines[j], j));
            assert(lines[j].item_id == txt(given[j], "item_id"@));
        }
    }
}

/// A command that records a payment records what it names, allocation by allocation, as
/// received from a customer or made to a supplier.
pub proof fn law_commands_pay(s: Store, a: JsonV, incoming: bool)
    ensures
        ({
            let cmd = if incoming {
                "payment_received"@
            } else {
                "payment_made"@
            };
            &&& load_command(s, cmd, a) == replay_command(s, cmd, a)
            &&& load_command(s, cmd, a) matches Some(x) && x.event_type == (if incoming {
                "PaymentReceived"@
            } else {
                "PaymentMade"@
            }) && (x.request matches Ok(p) ==> {
                let given = list(a, "allocations"@);
                let r = list(p, "allocations"@);
                let key = if incoming {
                    "saleId"@
                } else {
                    "purchaseId"@
                };
                &&& txt(p, "paymentId"@) == txt(a, "payment_id"@)
                &&& incoming ==> txt(p, "customerId"@) == txt(a, "customer_id"@)
                &&& !incoming ==> txt(p, "supplierId"@) == txt(a, "supplier_id"@)
                &&& num(p, "amountMinor"@) == num(a, "amount_minor"@)
                &&& txt(p, "date"@) == txt(a, "date"@)
                &&& r.len() == given.len()
                &&& forall|j: int|
                    0 <= j < r.len() ==> txt(#[trigger] r[j], key) == txt(given[j], "target_id"@)
                        && num(r[j], "amountMinor"@) == num(given[j], "amount_minor"@)
            })
        }),
{
    lemma_command_names();
    let allocs = allocations_in(a);
    let party = if incoming {
        txt(a, "customer_id"@)
    } else {
        txt(a, "supplier_id"@)
    };
    law_payments_are_granted(
        s.model,
        incoming,
        txt(a, "payment_id"@),
        party,
        num(a, "amount_minor"@),
        txt(a, "date"@),
        allocs,
    );
    let cmd = if incoming {
        "payment_received"@
    } else {
        "payment_made"@
    };
    let key = if incoming {
        "saleId"@
    } else {
        "purchaseId"@
    };
    if let Ok(p) = load_command(s, cmd, a)->0.request {
        let r = list(p, "allocations"@);
        let given = list(a, "allocations"@);
        assert forall|j: int| 0 <= j < r.len() implies txt(#[trigger] r[j], key) == txt(
            given[j],
            "target_id"@,
        ) && num(r[j], "amountMinor"@) == num(given[j], "amount_minor"@) by {
            assert(pays(r[j], key, allocs[j]));
            assert(allocs[j].target_id == txt(given[j], "target_id"@));
        }
    }
}

/// A command that records an expense, a transfer or a reversal records what it names.
pub proof fn law_commands_move(s: Store, a: JsonV)
    ensures
        load_command(s, "expense_recorded"@, a) == replay_command(s, "expense_recorded"@, a),
        load_command(s, "expense_recorded"@, a) matches Some(x) && x.event_type
            == "ExpenseRecorded"@ && (x.request matches Ok(p) ==> {
            &&& txt(p, "expenseId"@) == txt(a, "expense_id"@)
            &&& txt(p, "accountId"@) == txt(a, "account_id"@)
            &&& num(p, "amountMinor"@) == num(a, "amount_minor"@)
            &&& txt(p, "date"@) == txt(a, "date"@)
            &&& txt(p, "terms"@) == txt(a, "terms"@)
            &&& opt_txt(p, "supplierId"@) == opt_txt(a, "supplier_id"@)
            &&& opt_txt(p, "memo"@) == opt_txt(a, "memo"@)
        }),
        load_command(s, "transfer_recorded"@, a) is None,
        load_command(s, "transaction_reversed"@, a) is None,
        replay_command(s, "transfer_recorded"@, a) matches Some(x) && x.event_type
            == "TransferRecorded"@ && (x.request matches Ok(p) ==> {
            &&& txt(p, "transferId"@) == txt(a, "transfer_id"@)
            &&& txt(p, "fromAccountId"@) == txt(a, "from_account_id"@)
            &&& txt(p, "toAccountId"@) == txt(a, "to_account_id"@)
            &&& num(p, "amountMinor"@) == num(a, "amount_minor"@)
            &&& txt(p, "date"@) == txt(a, "date"@)
            &&& opt_txt(p, "memo"@) == opt_txt(a, "memo"@)
        }),
        replay_command(s, "transaction_reversed"@, a) matches Some(x) && x.event_type
            == "TransactionReversed"@ && (x.request matches Ok(p) ==> {
            &&& txt(p, "targetEventId"@) == txt(a, "target_event_id"@)
            &&& txt(p, "reason"@) == txt(a, "reason"@)
        }),
{
    lemma_command_names();
    law_expenses_are_granted(
        s.model,
        txt(a, "expense_id"@),
        txt(a, "account_id"@),
        num(a, "amount_minor"@),
        txt(a, "date"@),
        txt(a, "terms"@),
        opt_txt(a, "supplier_id"@),
        opt_txt(a, "memo"@),
    );
    law_transfers_are_granted(
        s.model,
        txt(a, "transfer_id"@),
        txt(a, "from_account_id"@),
        txt(a, "to_account_id"@),
        num(a, "amount_minor"@),
        txt(a, "date"@),
        opt_txt(a, "memo"@),
    );
    if reversal_request(s, txt(a, "target_event_id"@), txt(a, "reason"@)) is Ok {
        law_reversals_are_granted(s, txt(a, "target_event_id"@), txt(a, "reason"@));
    }
}

/// The lots and units that a replayed line picks, of its records.
pub open spec fn picks_named(l: JsonV) -> Option<Seq<JsonV>> {
    match member(l, "lot_picks"@) {
        Some(JsonV::Array(v)) => Some(v),
        _ => None,
    }
}

/// A command that records a sale asks for what it names, line by line. A replayed one sells
/// out of the lots that its lines pick, where they do; a loaded one never does.
pub proof fn law_commands_sell(s: Store, a: JsonV, replayed: bool)
    ensures
        ({
            let given = list(a, "lines"@);
            let lines = sold_lines(a, replayed);
            &&& (if replayed {
                replay_command(s, "sale_recorded"@, a)
            } else {
                load_command(s, "sale_recorded"@, a)
            }) matches Some(x) && x.event_type == "SaleRecorded"@ && x.request == sale_request(
                s.model,
                txt(a, "sale_id"@),
                txt(a, "customer_id"@),
                txt(a, "date"@),
                txt(a, "terms"@),
                lines,
            )
            &&& lines.len() == given.len()
            &&& forall|j: int|
                0 <= j < lines.len() ==> (#[trigger] lines[j]).item_id == txt(
                    given[j],
                    "item_id"@,
                ) && lines[j].qty == num(given[j], "qty"@) && lines[j].unit_price_minor == num(
                    given[j],
                    "unit_price_minor"@,
                ) && match lines[j].lot_picks {
                    None => !replayed || picks_named(given[j]) is None,
                    Some(ps) => replayed && (picks_named(given[j]) matches Some(v) && ps.len()
                        == v.len() && forall|k: int|
                        0 <= k < v.len() ==> (#[trigger] ps[k]).0 == txt(v[k], "lot_id"@) && ps[k].1
                            == num(v[k], "qty"@)),
                }
        }),
{
    lemma_command_names();
}

/// A command that records a sale return asks for what it names, line by line: the lots and
/// units of a loaded one in records, of a replayed one in pairs.
pub proof fn law_commands_return(s: Store, a: JsonV, replayed: bool)
    ensures
        ({
            let given = list(a, "lines"@);
            let lines = returned_lines(a, replayed);
            &&& (if replayed {
                replay_command(s, "sale_return_recorded"@, a)
            } else {
                load_command(s, "sale_return_recorded"@, a)
            }) matches Some(x) && x.event_type == "SaleReturnRecorded"@ && x.request
                == sale_return_request(
                s.model,
                txt(a, "return_id"@),
                txt(a, "original_sale_id"@),
                txt(a, "date"@),
                lines,
            )
            &&& lines.len() == given.len()
            &&& forall|j: int|
                0 <= j < lines.len() ==> {
                    let v = list(given[j], "lot_returns"@);
                    &&& (#[trigger] lines[j]).item_id == txt(given[j], "item_id"@)
                    &&& lines[j].lot_returns.len() == v.len()
                    &&& !replayed ==> forall|k: int|
                        0 <= k < v.len() ==> (#[trigger] lines[j].lot_returns[k]).0 == txt(
                            v[k],
                            "lot_id"@,
                        ) && lines[j].lot_returns[k].1 == num(v[k], "qty_returned"@)
                    &&& replayed ==> forall|k: int|
                        0 <= k < v.len() ==> ((#[trigger] v[k]) matches JsonV::Array(w) ==> (w.len()
                            >= 2 && w[0] is Str && w[1] is Int && i64::MIN <= w[1]->Int_0
                            <= i64::MAX ==> lines[j].lot_returns[k].0 == w[0]->Str_0
                            && lines[j].lot_returns[k].1 == w[1]->Int_0))
                }
        }),
{
    lemma_command_names();
}

// ---- archives ----

/// A line is read as an event exactly where it names all that makes one: texts for its id,
/// stamp, device, user and type, and numbers for its place and time; and the event is what
/// the line names.
pub proof fn law_event_lines_are_taken_as_given(v: JsonV, line: usize)
    ensures
        match event_in(v, line) {
            Ok(ev) => {
                &&& member(v, "id"@) == Some(JsonV::Str(ev.id))
                &&& member(v, "hlc"@) == Some(JsonV::Str(ev.hlc))
                &&& member(v, "device_id"@) == Some(JsonV::Str(ev.device_id))
                &&& member(v, "user_id"@) == Some(JsonV::Str(ev.user_id))
                &&& member(v, "seq"@) == Some(JsonV::Int(ev.seq as int))
                &&& member(v, "type"@) == Some(JsonV::Str(ev.event_type))
                &&& member(v, "created_at"@) == Some(JsonV::Int(ev.created_at as int))
                &&& ev.payload == match member(v, "payload"@) {
                    Some(x) => x,
                    None => JsonV::Null,
                }
            },
            Err(e) => e is Parse && !{
                &&& member(v, "id"@) matches Some(JsonV::Str(_))
                &&& member(v, "hlc"@) matches Some(JsonV::Str(_))
                &&& member(v, "device_id"@) matches Some(JsonV::Str(_))
                &&& member(v, "user_id"@) matches Some(JsonV::Str(_))
                &&& member(v, "seq"@) matches Some(JsonV::Int(n)) && i64::MIN <= n <= i64::MAX
                &&& member(v, "type"@) matches Some(JsonV::Str(_))
                &&& member(v, "created_at"@) matches Some(JsonV::Int(n)) && i64::MIN <= n
                    <= i64::MAX
            },
        },
{
}

/// A header is accepted exactly where it names the format and the version of an archive,
/// and says when and where it was written and with what settings.
pub proof fn law_headers_are_taken_as_given(v: JsonV)
    ensures
        match header_in(v) {
            Ok(h) => {
                &&& member(v, "format"@) == Some(JsonV::Str("accounting-eventlog"@))
                &&& member(v, "version"@) == Some(JsonV::Int(1))
                &&& h.version == 1
                &&& h.exported_at == num(v, "exported_at"@)
                &&& h.device_id == txt(v, "device_id"@)
                &&& forall|k: Text, t: Text|
                    (#[trigger] h.settings.contains_pair(k, t)) <==> (member(
                        v,
                        "settings"@,
                    ) matches Some(x) && member(x, k) == Some(JsonV::Str(t)))
            },
            Err(e) => e is Format && !(member(v, "format"@) == Some(
                JsonV::Str("accounting-eventlog"@),
            ) && member(v, "version"@) == Some(JsonV::Int(1))),
        },
{
}

// ---- backups ----

/// A file can be restored exactly where it is there, passes the integrity check, and has a
/// table of events that holds some.
pub proof fn law_sound_backups_have_no_flaw(i: Inspection)
    ensures
        flaw(i) is None <==> {
            &&& i.exists
            &&& i.integrity matches Ok(a) && a@ == "ok"@
            &&& i.event_tables matches Ok(n) && n != 0
            &&& i.events matches Ok(n) && n != 0
        },
{
}

// ---- first run ----

/// The payload of a seeded account opens it under its role, with its name, type and side.
pub proof fn law_seeded_accounts_are_opened_as_listed(
    a: (&'static str, &'static str, &'static str, &'static str),
)
    ensures
        txt(account_payload(a), "accountId"@) == "acct_"@ + a.0@,
        txt(account_payload(a), "name"@) == a.1@,
        txt(account_payload(a), "type"@) == a.2@,
        txt(account_payload(a), "normal"@) == a.3@,
        opt_txt(account_payload(a), "system_role"@) == Some(a.0@),
{
    reveal_strlit("accountId");
    reveal_strlit("name");
    reveal_strlit("type");
    reveal_strlit("normal");
    reveal_strlit("system_role");
    assert("accountId"@.len() == 9);
    assert("name"@.len() == 4 && "name"@[0] == 'n');
    assert("type"@.len() == 4 && "type"@[0] == 't');
    assert("normal"@.len() == 6);
    assert("system_role"@.len() == 11);
}

/// The payload that registers the owner names them.
pub proof fn law_owners_are_registered_as_named(id: Text, name: Text)
    ensures
        txt(owner_payload(id, name), "userId"@) == id,
        txt(owner_payload(id, name), "name"@) == name,
{
    reveal_strlit("userId");
    reveal_strlit("name");
    assert("userId"@.len() == 6);
    assert("name"@.len() == 4);
}

/// The payload of a seeded party creates it under its id, active, with its name and kind.
pub proof fn law_seeded_parties_are_created_as_named(id: Text, name: Text, kind: Text)
    ensures
        txt(party_payload(id, name, kind), "partyId"@) == id,
        txt(party_payload(id, name, kind), "name"@) == name,
        txt(party_payload(id, name, kind), "kind"@) == kind,
        member(party_payload(id, name, kind), "active"@) == Some(JsonV::Bool(true)),
{
    reveal_strlit("partyId");
    reveal_strlit("name");
    reveal_strlit("kind");
    reveal_strlit("active");
    assert("partyId"@.len() == 7);
    assert("name"@.len() == 4 && "name"@[0] == 'n');
    assert("kind"@.len() == 4 && "kind"@[0] == 'k');
    assert("active"@.len() == 6);
}

/// Every seeded account is of one of the five types, on the side of its type: what is owned
/// and what is spent on the debit side, all else on the credit side.
pub proof fn law_seeded_accounts_are_on_the_side_of_their_type(i: int)
    requires
        0 <= i < SEEDED_ACCOUNTS@.len(),
    ensures
        ({
            let a = SEEDED_ACCOUNTS@[i];
            ||| (a.2@ == "asset"@ || a.2@ == "expense"@) && a.3@ == "debit"@
            ||| (a.2@ == "liability"@ || a.2@ == "equity"@ || a.2@ == "income"@) && a.3@
                == "credit"@
        }),
{
    let s = SEEDED_ACCOUNTS@;
    assert(s.len() == 14);
}

// ---- periods ----

/// Half a year before a date is six months before it, and the month before a date begins a
/// month before the start of its own.
pub proof fn law_periods_begin(anchor: Text)
    ensures
        half_year_before(anchor) == date_shifted(anchor, "-6 months"@, "+0 days"@),
        last_month_start(anchor) == date_shifted(anchor, "start of month"@, "-1 month"@),
{
}

} // verus!
