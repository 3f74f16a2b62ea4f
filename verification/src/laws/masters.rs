//! Users, accounts, items and parties: what may be recorded of them, and what is.

use crate::commands::setup::{
    account_request, account_update, item_deletion, item_request, item_update, party_deletion,
    party_request, party_update, user_request, user_update,
};
use crate::events::EventV;
use crate::genesis::{ANON_SUPPLIER_PARTY_ID, WALKIN_PARTY_ID};
use crate::json::{member, opt_txt, txt, JsonV};
use crate::laws::owing::one_more;
use crate::model::{
    account_opened, account_updated, item_defined, item_deleted, item_updated, party_created,
    party_deleted, party_updated, patched, sku_of, sku_taken, user_registered, user_updated, Text,
};
use crate::refs::{pointing, referring, tally, ITEM_REFS, PARTY_REFS, Reference};
use crate::rows::{holds, lemma_has, place, Keyed};
use crate::tables::{
    Account, Balance, Invoice, Item, Lot, Party, Payment, PurchaseLine, ReadModel, ReturnLine,
    SaleLine, User,
};
use vstd::prelude::*;

verus! {

// ---- new records ----

/// A user is registered exactly under an id that is free, and recorded as asked for.
pub proof fn law_users_are_granted(m: ReadModel, id: Text, name: Text, role: Option<Text>)
    ensures
        user_request(m, id, name, role) is Ok <==> !holds(m.users, id),
        user_request(m, id, name, role) matches Ok(p) ==> txt(p, "userId"@) == id && txt(
            p,
            "name"@,
        ) == name && opt_txt(p, "role"@) == role,
{
    reveal_strlit("userId");
    reveal_strlit("name");
    reveal_strlit("role");
    assert("userId"@.len() == 6);
    assert("name"@[0] == 'n');
    assert("role"@[0] == 'r');
}

/// An account is opened exactly under an id that is free, with one of the five types and
/// one of the two sides, and recorded as asked for.
pub proof fn law_accounts_are_granted(
    m: ReadModel,
    id: Text,
    name: Text,
    ty: Text,
    side: Text,
    role: Option<Text>,
)
    ensures
        account_request(m, id, name, ty, side, role) is Ok <==> {
            &&& !holds(m.accounts, id)
            &&& ty == "asset"@ || ty == "liability"@ || ty == "equity"@ || ty == "income"@ || ty
                == "expense"@
            &&& side == "debit"@ || side == "credit"@
        },
        account_request(m, id, name, ty, side, role) matches Ok(p) ==> {
            &&& txt(p, "accountId"@) == id
            &&& txt(p, "name"@) == name
            &&& opt_txt(p, "type"@) == Some(ty)
            &&& opt_txt(p, "normal"@) == Some(side)
            &&& opt_txt(p, "system_role"@) == role
        },
{
    reveal_strlit("accountId");
    reveal_strlit("name");
    reveal_strlit("type");
    reveal_strlit("normal");
    reveal_strlit("system_role");
    assert("accountId"@.len() == 9);
    assert("name"@.len() == 4 && "name"@[0] == 'n');
    assert("type"@.len() == 4 && "type"@[0] == 't');
    assert("normal"@.len() == 6);
    assert("system_role"@.len() == 11);
}

/// An item is defined exactly under an id that is free, and recorded as asked for, active.
pub proof fn law_items_are_granted(m: ReadModel, id: Text, sku: Text, name: Text, unit: Text)
    ensures
        item_request(m, id, sku, name, unit) is Ok <==> !holds(m.items, id),
        item_request(m, id, sku, name, unit) matches Ok(p) ==> {
            &&& txt(p, "itemId"@) == id
            &&& opt_txt(p, "sku"@) == Some(sku)
            &&& txt(p, "name"@) == name
            &&& txt(p, "unit"@) == unit
            &&& member(p, "active"@) == Some(JsonV::Bool(true))
        },
{
    reveal_strlit("itemId");
    reveal_strlit("sku");
    reveal_strlit("name");
    reveal_strlit("unit");
    reveal_strlit("active");
    assert("itemId"@.len() == 6 && "itemId"@[0] == 'i');
    assert("sku"@.len() == 3);
    assert("name"@.len() == 4 && "name"@[0] == 'n');
    assert("unit"@.len() == 4 && "unit"@[0] == 'u');
    assert("active"@.len() == 6 && "active"@[0] == 'a');
}

/// A party is created exactly under an id that is free, as a supplier, a customer or both,
/// and recorded as asked for.
pub proof fn law_parties_are_granted(m: ReadModel, id: Text, name: Text, kind: Text)
    ensures
        party_request(m, id, name, kind) is Ok <==> !holds(m.parties, id) && (kind == "supplier"@
            || kind == "customer"@ || kind == "both"@),
        party_request(m, id, name, kind) matches Ok(p) ==> txt(p, "partyId"@) == id && opt_txt(
            p,
            "name"@,
        ) == Some(name) && opt_txt(p, "kind"@) == Some(kind),
{
    reveal_strlit("partyId");
    reveal_strlit("name");
    reveal_strlit("kind");
    assert("partyId"@.len() == 7);
    assert("name"@[0] == 'n');
    assert("kind"@[0] == 'k');
}

// ---- changes ----

/// The record of a change: of what, and the changes.
pub open spec fn change_record(p: JsonV, key: Text, id: Text, changes: JsonV) -> bool {
    txt(p, key) == id && member(p, "changes"@) == Some(changes)
}

proof fn lemma_change_keys()
    ensures
        "userId"@ != "changes"@,
        "accountId"@ != "changes"@,
        "itemId"@ != "changes"@,
        "partyId"@ != "changes"@,
{
    reveal_strlit("userId");
    reveal_strlit("accountId");
    reveal_strlit("itemId");
    reveal_strlit("partyId");
    reveal_strlit("changes");
    assert("userId"@.len() == 6);
    assert("accountId"@.len() == 9);
    assert("itemId"@.len() == 6);
    assert("partyId"@[0] == 'p');
    assert("changes"@.len() == 7 && "changes"@[0] == 'c');
}

/// A user is changed exactly where there is one.
pub proof fn law_user_changes_are_granted(m: ReadModel, id: Text, changes: JsonV)
    ensures
        user_update(m, id, changes) is Ok <==> holds(m.users, id),
        user_update(m, id, changes) matches Ok(p) ==> change_record(p, "userId"@, id, changes),
{
    lemma_change_keys();
}

/// An account is changed exactly where there is one and the changes leave its type, its
/// side and its role alone.
pub proof fn law_account_changes_are_granted(m: ReadModel, id: Text, changes: JsonV)
    ensures
        account_update(m, id, changes) is Ok <==> {
            &&& holds(m.accounts, id)
            &&& member(changes, "type"@) is None
            &&& member(changes, "normal"@) is None
            &&& member(changes, "normalSide"@) is None
            &&& member(changes, "system_role"@) is None
        },
        account_update(m, id, changes) matches Ok(p) ==> change_record(
            p,
            "accountId"@,
            id,
            changes,
        ),
{
    lemma_change_keys();
}

/// Changes say of being active nothing, or yes or no.
pub open spec fn fair_activity(changes: JsonV) -> bool {
    member(changes, "active"@) matches Some(v) ==> v is Bool
}

/// An item is changed exactly where there is one, it is left active or not, and a stock
/// keeping unit that it is given is a text that no other item carries.
pub proof fn law_item_changes_are_granted(m: ReadModel, id: Text, changes: JsonV)
    ensures
        item_update(m, id, changes) is Ok <==> {
            &&& holds(m.items, id)
            &&& fair_activity(changes)
            &&& member(changes, "sku"@) matches Some(v) ==> (v matches JsonV::Str(sku) && forall|
                i: int,
            |
                0 <= i < m.items.len() && (#[trigger] m.items[i]).id != id ==> opt_txt(
                    m.items[i].doc,
                    "sku"@,
                ) != Some(sku))
        },
        item_update(m, id, changes) matches Ok(p) ==> change_record(p, "itemId"@, id, changes),
{
    lemma_change_keys();
    if let Some(JsonV::Str(sku)) = member(changes, "sku"@) {
        if sku_taken(m.items, id, Some(sku)) {
            let i = choose|i: int|
                0 <= i < m.items.len() && (#[trigger] m.items[i]).id != id && sku_of(
                    m.items[i].doc,
                ) == Some(sku);
            assert(opt_txt(m.items[i].doc, "sku"@) == Some(sku));
        } else {
            assert forall|i: int| 0 <= i < m.items.len() && (#[trigger] m.items[i]).id != id implies opt_txt(
            m.items[i].doc, "sku"@) != Some(sku) by {
                assert(sku_of(m.items[i].doc) == opt_txt(m.items[i].doc, "sku"@));
            }
        }
    }
}

/// A party is changed exactly where there is one, a kind that it is given is one of the
/// three, it is left active or not, and it is not archived where it is built in.
pub proof fn law_party_changes_are_granted(m: ReadModel, id: Text, changes: JsonV)
    ensures
        party_update(m, id, changes) is Ok <==> {
            &&& holds(m.parties, id)
            &&& member(changes, "kind"@) matches Some(v) ==> v == JsonV::Str("supplier"@) || v
                == JsonV::Str("customer"@) || v == JsonV::Str("both"@)
            &&& fair_activity(changes)
            &&& member(changes, "active"@) == Some(JsonV::Bool(false)) ==> id != WALKIN_PARTY_ID@
                && id != ANON_SUPPLIER_PARTY_ID@
        },
        party_update(m, id, changes) matches Ok(p) ==> change_record(p, "partyId"@, id, changes),
{
    lemma_change_keys();
}

// ---- deletions ----

/// Some row of a table is counted exactly where some row meets the condition.
proof fn lemma_tally<R>(t: Seq<R>, f: spec_fn(R) -> bool)
    ensures
        tally(t, f) > 0 <==> exists|i: int| 0 <= i < t.len() && f(#[trigger] t[i]),
    decreases t.len(),
{
    if t.len() > 0 {
        let front = t.drop_last();
        lemma_tally(front, f);
        if tally(t, f) > 0 {
            if f(t.last()) {
                assert(f(t[t.len() - 1]));
            } else {
                let i = choose|i: int| 0 <= i < front.len() && f(#[trigger] front[i]);
                assert(f(t[i]));
            }
        }
        if exists|i: int| 0 <= i < t.len() && f(#[trigger] t[i]) {
            let i = choose|i: int| 0 <= i < t.len() && f(#[trigger] t[i]);
            if i < front.len() {
                assert(f(front[i]));
            }
        }
    }
}

/// The item occurs: in a lot, a sale line, a purchase line or a return line.
pub open spec fn item_occurs(m: ReadModel, id: Text) -> bool {
    ||| exists|i: int| 0 <= i < m.lots.len() && (#[trigger] m.lots[i]).item_id == id
    ||| exists|i: int| 0 <= i < m.sale_lines.len() && (#[trigger] m.sale_lines[i]).item_id == id
    ||| exists|i: int|
        0 <= i < m.purchase_lines.len() && (#[trigger] m.purchase_lines[i]).item_id == id
    ||| exists|i: int| 0 <= i < m.return_lines.len() && (#[trigger] m.return_lines[i]).item_id == id
}

spec fn lot_of_item(id: Seq<char>) -> spec_fn(Lot<Seq<char>>) -> bool {
    |r: Lot<Seq<char>>| r.item_id == id
}

spec fn sale_line_of_item(id: Seq<char>) -> spec_fn(SaleLine<Seq<char>>) -> bool {
    |r: SaleLine<Seq<char>>| r.item_id == id
}

spec fn purchase_line_of_item(id: Seq<char>) -> spec_fn(PurchaseLine<Seq<char>>) -> bool {
    |r: PurchaseLine<Seq<char>>| r.item_id == id
}

spec fn return_line_of_item(id: Seq<char>) -> spec_fn(ReturnLine<Seq<char>>) -> bool {
    |r: ReturnLine<Seq<char>>| r.item_id == id
}

spec fn payment_of_party(id: Seq<char>) -> spec_fn(Payment<Seq<char>>) -> bool {
    |r: Payment<Seq<char>>| r.party_id == id
}

spec fn balance_of_party(id: Seq<char>) -> spec_fn(Balance<Seq<char>>) -> bool {
    |r: Balance<Seq<char>>| r.party_id == id
}

/// An item is in use exactly where it occurs.
pub proof fn law_items_in_use_occur(m: ReadModel, id: Text)
    ensures
        referring(m, ITEM_REFS@, id) > 0 <==> item_occurs(m, id),
{
    let f1 = lot_of_item(id);
    let f2 = sale_line_of_item(id);
    let f3 = purchase_line_of_item(id);
    let f4 = return_line_of_item(id);
    lemma_tally(m.lots, f1);
    lemma_tally(m.sale_lines, f2);
    lemma_tally(m.purchase_lines, f3);
    lemma_tally(m.return_lines, f4);
    let r = ITEM_REFS@;
    let s4 = seq![Reference::LotItem, Reference::SaleLineItem, Reference::PurchaseLineItem, Reference::ReturnLineItem];
    let s3 = seq![Reference::LotItem, Reference::SaleLineItem, Reference::PurchaseLineItem];
    let s2 = seq![Reference::LotItem, Reference::SaleLineItem];
    let s1 = seq![Reference::LotItem];
    assert(r =~= s4);
    let s0 = Seq::<Reference>::empty();
    assert(s4.drop_last() =~= s3);
    assert(s4.last() == Reference::ReturnLineItem);
    assert(s3.drop_last() =~= s2);
    assert(s3.last() == Reference::PurchaseLineItem);
    assert(s2.drop_last() =~= s1);
    assert(s2.last() == Reference::SaleLineItem);
    assert(s1.drop_last() =~= s0);
    assert(s1.last() == Reference::LotItem);
    assert(referring(m, s0, id) == 0);
    assert(referring(m, s1, id) == referring(m, s0, id) + pointing(m, Reference::LotItem, id));
    assert(referring(m, s2, id) == referring(m, s1, id) + pointing(m, Reference::SaleLineItem, id));
    assert(referring(m, s3, id) == referring(m, s2, id) + pointing(m, Reference::PurchaseLineItem, id));
    assert(referring(m, s4, id) == referring(m, s3, id) + pointing(m, Reference::ReturnLineItem, id));
    assert(pointing(m, Reference::LotItem, id) == tally(m.lots, f1));
    assert(pointing(m, Reference::SaleLineItem, id) == tally(m.sale_lines, f2));
    assert(pointing(m, Reference::PurchaseLineItem, id) == tally(m.purchase_lines, f3));
    assert(pointing(m, Reference::ReturnLineItem, id) == tally(m.return_lines, f4));
    assert(referring(m, r, id) == tally(m.lots, f1) + tally(m.sale_lines, f2) + tally(
        m.purchase_lines,
        f3,
    ) + tally(m.return_lines, f4));
    if item_occurs(m, id) {
        if exists|i: int| 0 <= i < m.lots.len() && (#[trigger] m.lots[i]).item_id == id {
            let i = choose|i: int| 0 <= i < m.lots.len() && (#[trigger] m.lots[i]).item_id == id;
            assert(f1(m.lots[i]));
        } else if exists|i: int|
            0 <= i < m.sale_lines.len() && (#[trigger] m.sale_lines[i]).item_id == id {
            let i = choose|i: int|
                0 <= i < m.sale_lines.len() && (#[trigger] m.sale_lines[i]).item_id == id;
            assert(f2(m.sale_lines[i]));
        } else if exists|i: int|
            0 <= i < m.purchase_lines.len() && (#[trigger] m.purchase_lines[i]).item_id == id {
            let i = choose|i: int|
                0 <= i < m.purchase_lines.len() && (#[trigger] m.purchase_lines[i]).item_id == id;
            assert(f3(m.purchase_lines[i]));
        } else {
            let i = choose|i: int|
                0 <= i < m.return_lines.len() && (#[trigger] m.return_lines[i]).item_id == id;
            assert(f4(m.return_lines[i]));
        }
    }
}

/// The party occurs: as the supplier of a lot or a purchase, the customer of a sale, in a
/// payment or with a balance.
pub open spec fn party_occurs(m: ReadModel, id: Text) -> bool {
    ||| exists|i: int| 0 <= i < m.lots.len() && (#[trigger] m.lots[i]).supplier_id == Some(id)
    ||| exists|i: int| 0 <= i < m.sales.len() && (#[trigger] m.sales[i]).party_id == Some(id)
    ||| exists|i: int| 0 <= i < m.purchases.len() && (#[trigger] m.purchases[i]).party_id == Some(id)
    ||| exists|i: int| 0 <= i < m.payments.len() && (#[trigger] m.payments[i]).party_id == id
    ||| exists|i: int| 0 <= i < m.balances.len() && (#[trigger] m.balances[i]).party_id == id
}

/// A party is in use exactly where it occurs.
pub proof fn law_parties_in_use_occur(m: ReadModel, id: Text)
    ensures
        referring(m, PARTY_REFS@, id) > 0 <==> party_occurs(m, id),
{
    let f1 = |r: Lot<Seq<char>>| r.supplier_id == Some(id);
    let f2 = |r: Invoice<Seq<char>>| r.party_id == Some(id);
    let f4 = payment_of_party(id);
    let f5 = balance_of_party(id);
    lemma_tally(m.lots, f1);
    lemma_tally(m.sales, f2);
    lemma_tally(m.purchases, f2);
    lemma_tally(m.payments, f4);
    lemma_tally(m.balances, f5);
    let r = PARTY_REFS@;
    let s5 = seq![Reference::LotSupplier, Reference::SaleCustomer, Reference::PurchaseSupplier, Reference::PaymentParty, Reference::BalanceParty];
    let s4 = seq![Reference::LotSupplier, Reference::SaleCustomer, Reference::PurchaseSupplier, Reference::PaymentParty];
    let s3 = seq![Reference::LotSupplier, Reference::SaleCustomer, Reference::PurchaseSupplier];
    let s2 = seq![Reference::LotSupplier, Reference::SaleCustomer];
    let s1 = seq![Reference::LotSupplier];
    assert(r =~= s5);
    let s0 = Seq::<Reference>::empty();
    assert(s5.drop_last() =~= s4);
    assert(s5.last() == Reference::BalanceParty);
    assert(s4.drop_last() =~= s3);
    assert(s4.last() == Reference::PaymentParty);
    assert(s3.drop_last() =~= s2);
    assert(s3.last() == Reference::PurchaseSupplier);
    assert(s2.drop_last() =~= s1);
    assert(s2.last() == Reference::SaleCustomer);
    assert(s1.drop_last() =~= s0);
    assert(s1.last() == Reference::LotSupplier);
    assert(referring(m, s0, id) == 0);
    assert(referring(m, s1, id) == referring(m, s0, id) + pointing(m, Reference::LotSupplier, id));
    assert(referring(m, s2, id) == referring(m, s1, id) + pointing(m, Reference::SaleCustomer, id));
    assert(referring(m, s3, id) == referring(m, s2, id) + pointing(m, Reference::PurchaseSupplier, id));
    assert(referring(m, s4, id) == referring(m, s3, id) + pointing(m, Reference::PaymentParty, id));
    assert(referring(m, s5, id) == referring(m, s4, id) + pointing(m, Reference::BalanceParty, id));
    assert(pointing(m, Reference::LotSupplier, id) == tally(m.lots, f1));
    assert(pointing(m, Reference::SaleCustomer, id) == tally(m.sales, f2));
    assert(pointing(m, Reference::PurchaseSupplier, id) == tally(m.purchases, f2));
    assert(pointing(m, Reference::PaymentParty, id) == tally(m.payments, f4));
    assert(pointing(m, Reference::BalanceParty, id) == tally(m.balances, f5));
    assert(referring(m, r, id) == tally(m.lots, f1) + tally(m.sales, f2) + tally(m.purchases, f2)
        + tally(m.payments, f4) + tally(m.balances, f5));
    if party_occurs(m, id) {
        if exists|i: int| 0 <= i < m.lots.len() && (#[trigger] m.lots[i]).supplier_id == Some(id) {
            let i = choose|i: int|
                0 <= i < m.lots.len() && (#[trigger] m.lots[i]).supplier_id == Some(id);
            assert(f1(m.lots[i]));
        } else if exists|i: int|
            0 <= i < m.sales.len() && (#[trigger] m.sales[i]).party_id == Some(id) {
            let i = choose|i: int|
                0 <= i < m.sales.len() && (#[trigger] m.sales[i]).party_id == Some(id);
            assert(f2(m.sales[i]));
        } else if exists|i: int|
            0 <= i < m.purchases.len() && (#[trigger] m.purchases[i]).party_id == Some(id) {
            let i = choose|i: int|
                0 <= i < m.purchases.len() && (#[trigger] m.purchases[i]).party_id == Some(id);
            assert(f2(m.purchases[i]));
        } else if exists|i: int|
            0 <= i < m.payments.len() && (#[trigger] m.payments[i]).party_id == id {
            let i = choose|i: int|
                0 <= i < m.payments.len() && (#[trigger] m.payments[i]).party_id == id;
            assert(f4(m.payments[i]));
        } else {
            let i = choose|i: int|
                0 <= i < m.balances.len() && (#[trigger] m.balances[i]).party_id == id;
            assert(f5(m.balances[i]));
        }
    }
}

/// An item is deleted only where there is one that occurs nowhere, and refused there for
/// nothing.
pub proof fn law_item_deletions_are_granted(m: ReadModel, id: Text)
    ensures
        item_deletion(m, id) is Ok <==> holds(m.items, id) && !item_occurs(m, id),
        item_deletion(m, id) matches Ok(p) ==> txt(p, "itemId"@) == id,
{
    law_items_in_use_occur(m, id);
}

/// A party is deleted only where there is one that is not built in and occurs nowhere, and
/// refused there for nothing.
pub proof fn law_party_deletions_are_granted(m: ReadModel, id: Text)
    ensures
        party_deletion(m, id) is Ok <==> holds(m.parties, id) && !party_occurs(m, id) && id
            != WALKIN_PARTY_ID@ && id != ANON_SUPPLIER_PARTY_ID@,
        party_deletion(m, id) matches Ok(p) ==> txt(p, "partyId"@) == id,
{
    law_parties_in_use_occur(m, id);
}

// ---- what is recorded ----

/// Registering a user adds one row with what the event says, made when the event was.
pub proof fn law_users_are_recorded(m: ReadModel, ev: EventV)
    ensures
        user_registered(m, ev) is Ok <==> !holds(m.users, txt(ev.payload, "userId"@)),
        user_registered(m, ev) matches Ok(n) ==> {
            let u = n.users.last();
            &&& n == (ReadModel { users: n.users, ..m })
            &&& one_more(m.users, n.users)
            &&& u.id == txt(ev.payload, "userId"@)
            &&& u.doc == ev.payload
            &&& u.created_at == ev.created_at
        },
{
    if let Ok(n) = user_registered(m, ev) {
        assert(n.users.drop_last() =~= m.users);
    }
}

/// Opening an account adds one row with what the event says, and nothing on it.
pub proof fn law_accounts_are_recorded(m: ReadModel, ev: EventV)
    ensures
        account_opened(m, ev) is Ok <==> !holds(m.accounts, txt(ev.payload, "accountId"@)),
        account_opened(m, ev) matches Ok(n) ==> {
            let a = n.accounts.last();
            &&& n == (ReadModel { accounts: n.accounts, ..m })
            &&& one_more(m.accounts, n.accounts)
            &&& a.id == txt(ev.payload, "accountId"@)
            &&& a.doc == ev.payload
            &&& a.balance_minor == 0
        },
{
    if let Ok(n) = account_opened(m, ev) {
        assert(n.accounts.drop_last() =~= m.accounts);
    }
}

/// Creating a party adds one row with what the event says.
pub proof fn law_parties_are_recorded(m: ReadModel, ev: EventV)
    ensures
        party_created(m, ev) is Ok <==> !holds(m.parties, txt(ev.payload, "partyId"@)),
        party_created(m, ev) matches Ok(n) ==> {
            let p = n.parties.last();
            &&& n == (ReadModel { parties: n.parties, ..m })
            &&& one_more(m.parties, n.parties)
            &&& p.id == txt(ev.payload, "partyId"@)
            &&& p.doc == ev.payload
        },
{
    if let Ok(n) = party_created(m, ev) {
        assert(n.parties.drop_last() =~= m.parties);
    }
}

/// Defining an item adds one row with what the event says, active where it does not say,
/// under an id and a stock keeping unit that no other item has.
pub proof fn law_items_are_recorded(m: ReadModel, ev: EventV)
    ensures
        item_defined(m, ev) matches Ok(n) ==> {
            let x = n.items.last();
            let id = txt(ev.payload, "itemId"@);
            &&& n == (ReadModel { items: n.items, ..m })
            &&& !holds(m.items, id)
            &&& one_more(m.items, n.items)
            &&& x.id == id
            &&& forall|k: Text|
                k != "active"@ ==> #[trigger] member(x.doc, k) == member(ev.payload, k)
            &&& member(ev.payload, "active"@) is Some ==> x.doc == ev.payload
            &&& member(ev.payload, "active"@) is None ==> member(x.doc, "active"@) == Some(
                JsonV::Int(1),
            )
            &&& opt_txt(x.doc, "sku"@) matches Some(sku) ==> forall|i: int|
                0 <= i < m.items.len() && (#[trigger] m.items[i]).id != id ==> opt_txt(
                    m.items[i].doc,
                    "sku"@,
                ) != Some(sku)
        },
{
    if let Ok(n) = item_defined(m, ev) {
        assert(n.items.drop_last() =~= m.items);
        let x = n.items.last();
        let id = txt(ev.payload, "itemId"@);
        lemma_sku_free(m, id, x.doc);
    }
}

proof fn lemma_sku_free(m: ReadModel, id: Text, doc: JsonV)
    requires
        !sku_taken(m.items, id, sku_of(doc)),
    ensures
        opt_txt(doc, "sku"@) matches Some(sku) ==> forall|i: int|
            0 <= i < m.items.len() && (#[trigger] m.items[i]).id != id ==> opt_txt(
                m.items[i].doc,
                "sku"@,
            ) != Some(sku),
{
    if let Some(sku) = opt_txt(doc, "sku"@) {
        assert forall|i: int| 0 <= i < m.items.len() && (#[trigger] m.items[i]).id != id implies opt_txt(
        m.items[i].doc, "sku"@) != Some(sku) by {
            assert(sku_of(m.items[i].doc) == opt_txt(m.items[i].doc, "sku"@));
        }
    }
}

/// The document after changes: what they say where they say something, what it said where
/// they do not.
pub open spec fn merged(doc: JsonV, p: JsonV, after: JsonV) -> bool {
    match member(p, "changes"@) {
        Some(JsonV::Object(c)) => forall|k: Text| #[trigger]
            member(after, k) == if c.contains_key(k) {
                Some(c[k])
            } else {
                member(doc, k)
            },
        _ => after == doc,
    }
}

proof fn lemma_merged(doc: JsonV, p: JsonV)
    ensures
        patched(doc, p) matches Ok(after) ==> merged(doc, p, after),
{
    if let Ok(after) = patched(doc, p) {
        if let Some(JsonV::Object(c)) = member(p, "changes"@) {
            if c.dom() =~= Set::empty() {
                assert forall|k: Text| !c.contains_key(k) by {
                    assert(!c.dom().contains(k));
                }
            }
        }
    }
}

/// Changing a user changes the document of that user, by the changes, and nothing else.
pub proof fn law_user_changes_are_recorded(m: ReadModel, ev: EventV)
    ensures
        user_updated(m, ev) matches Ok(n) ==> {
            let id = txt(ev.payload, "userId"@);
            &&& n == (ReadModel { users: n.users, ..m })
            &&& n.users.len() == m.users.len()
            &&& exists|i: int|
                #![trigger m.users[i]]
                0 <= i < m.users.len() && m.users[i].id == id && n.users == m.users.update(
                    i,
                    n.users[i],
                ) && n.users[i] == (User { doc: n.users[i].doc, ..m.users[i] }) && merged(
                    m.users[i].doc,
                    ev.payload,
                    n.users[i].doc,
                )
        },
{
    let id = txt(ev.payload, "userId"@);
    if let Ok(n) = user_updated(m, ev) {
        lemma_has(m.users, id);
        let i = place(m.users, id)->0;
        lemma_merged(m.users[i].doc, ev.payload);
        assert(m.users[i].key() == id);
        assert(n.users =~= m.users.update(i, n.users[i]));
    }
}

/// Changing an account changes the document of that account, by the changes, and nothing
/// else.
pub proof fn law_account_changes_are_recorded(m: ReadModel, ev: EventV)
    ensures
        account_updated(m, ev) matches Ok(n) ==> {
            let id = txt(ev.payload, "accountId"@);
            &&& n == (ReadModel { accounts: n.accounts, ..m })
            &&& n.accounts.len() == m.accounts.len()
            &&& exists|i: int|
                #![trigger m.accounts[i]]
                0 <= i < m.accounts.len() && m.accounts[i].id == id && n.accounts
                    == m.accounts.update(i, n.accounts[i]) && n.accounts[i] == (Account {
                    doc: n.accounts[i].doc,
                    ..m.accounts[i]
                }) && merged(m.accounts[i].doc, ev.payload, n.accounts[i].doc)
        },
{
    let id = txt(ev.payload, "accountId"@);
    if let Ok(n) = account_updated(m, ev) {
        lemma_has(m.accounts, id);
        let i = place(m.accounts, id)->0;
        lemma_merged(m.accounts[i].doc, ev.payload);
        assert(m.accounts[i].key() == id);
        assert(n.accounts =~= m.accounts.update(i, n.accounts[i]));
    }
}

/// Changing a party changes the document of that party, by the changes, and nothing else.
pub proof fn law_party_changes_are_recorded(m: ReadModel, ev: EventV)
    ensures
        party_updated(m, ev) matches Ok(n) ==> {
            let id = txt(ev.payload, "partyId"@);
            &&& n == (ReadModel { parties: n.parties, ..m })
            &&& n.parties.len() == m.parties.len()
            &&& exists|i: int|
                #![trigger m.parties[i]]
                0 <= i < m.parties.len() && m.parties[i].id == id && n.parties
                    == m.parties.update(i, n.parties[i]) && n.parties[i] == (Party {
                    doc: n.parties[i].doc,
                    ..m.parties[i]
                }) && merged(m.parties[i].doc, ev.payload, n.parties[i].doc)
        },
{
    let id = txt(ev.payload, "partyId"@);
    if let Ok(n) = party_updated(m, ev) {
        lemma_has(m.parties, id);
        let i = place(m.parties, id)->0;
        lemma_merged(m.parties[i].doc, ev.payload);
        assert(m.parties[i].key() == id);
        assert(n.parties =~= m.parties.update(i, n.parties[i]));
    }
}

/// Changing an item changes the document of that item, by the changes, and nothing else;
/// it ends with no stock keeping unit that another item has.
pub proof fn law_item_changes_are_recorded(m: ReadModel, ev: EventV)
    ensures
        item_updated(m, ev) matches Ok(n) ==> {
            let id = txt(ev.payload, "itemId"@);
            &&& n == (ReadModel { items: n.items, ..m })
            &&& n.items.len() == m.items.len()
            &&& exists|i: int|
                #![trigger m.items[i]]
                0 <= i < m.items.len() && m.items[i].id == id && n.items == m.items.update(
                    i,
                    n.items[i],
                ) && n.items[i] == (Item { doc: n.items[i].doc, ..m.items[i] }) && merged(
                    m.items[i].doc,
                    ev.payload,
                    n.items[i].doc,
                ) && (opt_txt(n.items[i].doc, "sku"@) matches Some(sku) ==> forall|j: int|
                    0 <= j < m.items.len() && (#[trigger] m.items[j]).id != id ==> opt_txt(
                        m.items[j].doc,
                        "sku"@,
                    ) != Some(sku))
        },
{
    let id = txt(ev.payload, "itemId"@);
    if let Ok(n) = item_updated(m, ev) {
        lemma_has(m.items, id);
        let i = place(m.items, id)->0;
        lemma_merged(m.items[i].doc, ev.payload);
        assert(m.items[i].key() == id);
        lemma_sku_free(m, id, n.items[i].doc);
        assert(n.items =~= m.items.update(i, n.items[i]));
    }
}

/// Deleting an item that is there and occurs nowhere takes its row out; any other deletion
/// changes nothing.
pub proof fn law_item_deletions_are_recorded(m: ReadModel, ev: EventV)
    ensures
        ({
            let id = txt(ev.payload, "itemId"@);
            item_deleted(m, ev) matches Ok(n) && {
                &&& n == (ReadModel { items: n.items, ..m })
                &&& !holds(m.items, id) || item_occurs(m, id) ==> n.items == m.items
                &&& holds(m.items, id) && !item_occurs(m, id) ==> exists|i: int|
                    0 <= i < m.items.len() && (#[trigger] m.items[i]).id == id && n.items
                        == m.items.remove(i)
            }
        }),
{
    let id = txt(ev.payload, "itemId"@);
    law_items_in_use_occur(m, id);
    lemma_has(m.items, id);
    if holds(m.items, id) {
        let i = place(m.items, id)->0;
        assert(m.items[i].key() == id);
        assert(m.items[i].id == id);
    }
}

/// Deleting a party that is there and occurs nowhere takes its row out; any other deletion
/// changes nothing.
pub proof fn law_party_deletions_are_recorded(m: ReadModel, ev: EventV)
    ensures
        ({
            let id = txt(ev.payload, "partyId"@);
            party_deleted(m, ev) matches Ok(n) && {
                &&& n == (ReadModel { parties: n.parties, ..m })
                &&& !holds(m.parties, id) || party_occurs(m, id) ==> n.parties == m.parties
                &&& holds(m.parties, id) && !party_occurs(m, id) ==> exists|i: int|
                    0 <= i < m.parties.len() && (#[trigger] m.parties[i]).id == id && n.parties
                        == m.parties.remove(i)
            }
        }),
{
    let id = txt(ev.payload, "partyId"@);
    law_parties_in_use_occur(m, id);
    lemma_has(m.parties, id);
    if holds(m.parties, id) {
        let i = place(m.parties, id)->0;
        assert(m.parties[i].key() == id);
        assert(m.parties[i].id == id);
    }
}

} // verus!
