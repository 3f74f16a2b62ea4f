use accounting_core::projectors::{account_id_by_role, post_line};
use accounting_core::tables::{Balance, Invoice, Lot};
use accounting_core::wire::parse;
use accounting_core::{
    append_event, apply_event, open_in_memory_with_schema, rebuild, Database, Hlc, Json,
    LedgerEvent,
};

fn json(text: &str) -> Json {
    parse(text).unwrap()
}

/// The value at a path through a document.
fn at<'a>(j: &'a Json, path: &str) -> &'a Json {
    path.split('/').fold(j, |v, k| match k.parse::<usize>() {
        Ok(i) => &v.as_array().unwrap()[i],
        Err(_) => v.get(k).unwrap(),
    })
}

fn number(j: &Json, path: &str) -> i64 {
    at(j, path).as_i64().unwrap()
}

fn text<'a>(j: &'a Json, path: &str) -> &'a str {
    at(j, path).as_str().unwrap()
}

fn lot_row<'a>(db: &'a Database, id: &str) -> &'a Lot {
    db.tables.lots.iter().find(|l| l.id == id).unwrap()
}

fn sale_row<'a>(db: &'a Database, id: &str) -> &'a Invoice {
    db.tables.sales.iter().find(|s| s.id == id).unwrap()
}

fn purchase_row<'a>(db: &'a Database, id: &str) -> &'a Invoice {
    db.tables.purchases.iter().find(|s| s.id == id).unwrap()
}

fn balance_row<'a>(db: &'a Database, party: &str) -> &'a Balance {
    db.tables.balances.iter().find(|b| b.party_id == party).unwrap()
}

/// The balance of the account with a role.
fn account_balance(db: &Database, role: &str) -> i64 {
    db.tables
        .accounts
        .iter()
        .find(|a| a.doc.get("system_role").and_then(|v| v.as_str()) == Some(role))
        .unwrap()
        .balance_minor
}

/// What the journal lines of a transaction debit and credit.
fn totals(db: &Database, txn: &str) -> (i64, i64) {
    db.tables
        .journal
        .iter()
        .filter(|l| l.txn_id == txn)
        .fold((0, 0), |(d, c), l| (d + l.debit_minor, c + l.credit_minor))
}

fn stock_value(db: &Database) -> i64 {
    db.tables.lots.iter().map(|l| l.qty_remaining * l.unit_cost_minor).sum()
}

fn record(conn: &mut Database, hlc: &mut Hlc, phys: u64, ty: &str, payload: Json) -> LedgerEvent {
    let ev = append_event(conn, hlc, phys, "devA", "userX", ty, &payload).unwrap();
    apply_event(conn, &ev).unwrap();
    ev
}

fn seed_accounts(conn: &mut Database, hlc: &mut Hlc) {
    let roles = [
        ("cash", "Cash", "asset", "debit"),
        ("bank", "Bank", "asset", "debit"),
        ("inventory", "Inventory", "asset", "debit"),
        ("accounts_receivable", "Accounts Receivable", "asset", "debit"),
        ("accounts_payable", "Accounts Payable", "liability", "credit"),
        ("owner_capital", "Owner Capital", "equity", "credit"),
        ("sales", "Sales", "income", "credit"),
        ("cogs", "Cost of Goods Sold", "expense", "debit"),
        ("shrinkage", "Inventory Shrinkage", "expense", "debit"),
        ("inventory_gain", "Inventory Gain", "income", "credit"),
        ("rent", "Rent", "expense", "debit"),
    ];
    for (role, name, ty, normal) in roles {
        record(conn, hlc, 1000, "AccountOpened",
            json(&format!(r#"{{"accountId": "acct_{role}", "name": "{name}",
                   "type": "{ty}", "normal": "{normal}", "system_role": "{role}"}}"#)));
    }
}

#[test]
fn creates_user_account_item_party_rows() {
    let mut conn = open_in_memory_with_schema().unwrap();
    let mut hlc = Hlc::new("devA");

    record(&mut conn, &mut hlc, 1000, "UserRegistered",
        json(r#"{"userId": "u1", "name": "Jane"}"#));
    record(&mut conn, &mut hlc, 1000, "AccountOpened",
        json(r#"{"accountId": "a_inv", "name": "Inventory", "type": "asset",
               "normal": "debit", "system_role": "inventory"}"#));
    record(&mut conn, &mut hlc, 1000, "ItemDefined",
        json(r#"{"itemId": "i1", "sku": "SKU1", "name": "Widget", "unit": "ea"}"#));
    record(&mut conn, &mut hlc, 1000, "PartyCreated",
        json(r#"{"partyId": "p1", "name": "Acme", "kind": "supplier"}"#));

    let uname = text(&conn.tables.users[0].doc, "name");
    assert_eq!(uname, "Jane");
    let inventory = &conn.tables.accounts[0];
    let (atype, bal) = (text(&inventory.doc, "type"), inventory.balance_minor);
    assert_eq!(atype, "asset");
    assert_eq!(bal, 0);
    let active = number(&conn.tables.items[0].doc, "active");
    assert_eq!(active, 1);
    let kind = text(&conn.tables.parties[0].doc, "kind");
    assert_eq!(kind, "supplier");
}

#[test]
fn updates_patch_only_changed_fields() {
    let mut conn = open_in_memory_with_schema().unwrap();
    let mut hlc = Hlc::new("devA");

    record(&mut conn, &mut hlc, 1000, "ItemDefined",
        json(r#"{"itemId": "i1", "sku": "SKU1", "name": "Widget", "unit": "ea"}"#));
    record(&mut conn, &mut hlc, 1000, "ItemUpdated",
        json(r#"{"itemId": "i1", "changes": {"name": "Widget v2", "active": 0}}"#));

    let doc = &conn.tables.items[0].doc;
    let (name, sku, active) = (text(doc, "name"), text(doc, "sku"), number(doc, "active"));
    assert_eq!(name, "Widget v2");
    assert_eq!(sku, "SKU1", "unchanged field must survive patch");
    assert_eq!(active, 0);
}

#[test]
fn post_line_moves_balance_by_normal_side() {
    let mut conn = open_in_memory_with_schema().unwrap();
    let mut hlc = Hlc::new("devA");

    record(&mut conn, &mut hlc, 1000, "AccountOpened",
        json(r#"{"accountId": "a_inv", "name": "Inventory", "type": "asset",
               "normal": "debit", "system_role": "inventory"}"#));
    record(&mut conn, &mut hlc, 1000, "AccountOpened",
        json(r#"{"accountId": "a_ap", "name": "Accounts Payable", "type": "liability",
               "normal": "credit", "system_role": "accounts_payable"}"#));

    let inv = account_id_by_role(&conn.tables, "inventory").unwrap();
    let ap = account_id_by_role(&conn.tables, "accounts_payable").unwrap();
    post_line(&mut conn.tables, "evX", "evX", 0, &inv, 1000, 0, "2026-01-05", None).unwrap();
    post_line(&mut conn.tables, "evX", "evX", 1, &ap, 0, 1000, "2026-01-05", None).unwrap();

    let inv_bal: i64 = account_balance(&conn, "inventory");
    let ap_bal: i64 = account_balance(&conn, "accounts_payable");
    assert_eq!(inv_bal, 1000, "debit-normal account rises on debit");
    assert_eq!(ap_bal, 1000, "credit-normal account rises on credit");

    let (d, c) = totals(&conn, "evX");
    assert_eq!(d, c);
}

#[test]
fn purchase_creates_lots_and_posts_inventory() {
    let mut conn = open_in_memory_with_schema().unwrap();
    let mut hlc = Hlc::new("devA");
    seed_accounts(&mut conn, &mut hlc);
    record(&mut conn, &mut hlc, 1000, "ItemDefined",
        json(r#"{"itemId": "i1", "sku": "S1", "name": "Widget", "unit": "ea"}"#));
    record(&mut conn, &mut hlc, 1000, "PartyCreated",
        json(r#"{"partyId": "sup1", "name": "Acme", "kind": "supplier"}"#));

    record(&mut conn, &mut hlc, 1000, "PurchaseRecorded",
        json(r#"{"purchaseId": "po1", "supplierId": "sup1", "date": "2026-01-05",
               "terms": "credit",
               "lines": [{"itemId": "i1", "qty": 10, "unitCostMinor": 100, "lotId": "lot1"}]}"#));

    let (recv, rem, cost) = (lot_row(&conn, "lot1").qty_received, lot_row(&conn, "lot1").qty_remaining, lot_row(&conn, "lot1").unit_cost_minor);
    assert_eq!((recv, rem, cost), (10, 10, 100));

    let lot_value: i64 = stock_value(&conn);
    let inv_bal: i64 = account_balance(&conn, "inventory");
    assert_eq!(lot_value, 1000);
    assert_eq!(lot_value, inv_bal);

    let outstanding: i64 = purchase_row(&conn, "po1").outstanding_minor;
    let payable: i64 = balance_row(&conn, "sup1").payable_minor;
    assert_eq!(outstanding, 1000);
    assert_eq!(payable, 1000);
}

#[test]
fn sale_freezes_profit_consumes_lots_and_reconciles() {
    let mut conn = open_in_memory_with_schema().unwrap();
    let mut hlc = Hlc::new("devA");
    seed_accounts(&mut conn, &mut hlc);
    record(&mut conn, &mut hlc, 1000, "ItemDefined",
        json(r#"{"itemId": "i1", "sku": "S1", "name": "Widget", "unit": "ea"}"#));
    record(&mut conn, &mut hlc, 1000, "PartyCreated",
        json(r#"{"partyId": "cust1", "name": "Bob", "kind": "customer"}"#));
    record(&mut conn, &mut hlc, 1000, "PurchaseRecorded",
        json(r#"{"purchaseId": "po1", "supplierId": null, "date": "2026-01-01", "terms": "cash",
               "lines": [{"itemId": "i1", "qty": 10, "unitCostMinor": 100, "lotId": "lot1"}]}"#));
    record(&mut conn, &mut hlc, 1000, "SaleRecorded",
        json(r#"{"saleId": "so1", "customerId": "cust1", "date": "2026-01-10", "terms": "credit",
               "lines": [{"itemId": "i1", "qty": 4, "unitPriceMinor": 250,
                          "lotConsumption": [{"lotId": "lot1", "qtyTaken": 4, "unitCostMinor": 100}]}]}"#));

    let line = conn.tables.sale_lines.iter().find(|l| l.sale_id == "so1").unwrap();
    let (rev, cogs) = (line.revenue_minor, line.cogs_minor);
    assert_eq!((rev, cogs), (1000, 400));

    let rem: i64 = lot_row(&conn, "lot1").qty_remaining;
    assert_eq!(rem, 6);

    let lot_value: i64 = stock_value(&conn);
    let inv_bal: i64 = account_balance(&conn, "inventory");
    assert_eq!(lot_value, 600);
    assert_eq!(inv_bal, 600);

    let outstanding: i64 = sale_row(&conn, "so1").outstanding_minor;
    let recv: i64 = balance_row(&conn, "cust1").receivable_minor;
    assert_eq!(outstanding, 1000);
    assert_eq!(recv, 1000);

    let (d, c) = totals(&conn, "so1");
    assert_eq!(d, c);
}

#[test]
fn payment_received_allocates_and_holds_prepayment() {
    let mut conn = open_in_memory_with_schema().unwrap();
    let mut hlc = Hlc::new("devA");
    seed_accounts(&mut conn, &mut hlc);
    record(&mut conn, &mut hlc, 1000, "ItemDefined",
        json(r#"{"itemId": "i1", "sku": "S1", "name": "W", "unit": "ea"}"#));
    record(&mut conn, &mut hlc, 1000, "PartyCreated",
        json(r#"{"partyId": "cust1", "name": "Bob", "kind": "customer"}"#));
    record(&mut conn, &mut hlc, 1000, "PurchaseRecorded",
        json(r#"{"purchaseId": "po1", "supplierId": null, "date": "2026-01-01", "terms": "cash",
               "lines": [{"itemId": "i1", "qty": 10, "unitCostMinor": 100, "lotId": "lot1"}]}"#));
    record(&mut conn, &mut hlc, 1000, "SaleRecorded",
        json(r#"{"saleId": "so1", "customerId": "cust1", "date": "2026-01-10", "terms": "credit",
               "lines": [{"itemId": "i1", "qty": 4, "unitPriceMinor": 250,
                          "lotConsumption": [{"lotId": "lot1", "qtyTaken": 4, "unitCostMinor": 100}]}]}"#));
    record(&mut conn, &mut hlc, 1000, "PaymentReceived",
        json(r#"{"paymentId": "pay1", "customerId": "cust1", "amountMinor": 1200, "date": "2026-01-15",
               "allocations": [{"saleId": "so1", "amountMinor": 1000}]}"#));

    let outstanding: i64 = sale_row(&conn, "so1").outstanding_minor;
    assert_eq!(outstanding, 0, "invoice fully settled");
    let (recv, ucr) = (balance_row(&conn, "cust1").receivable_minor, balance_row(&conn, "cust1").unallocated_cr_minor);
    assert_eq!(recv, 0);
    assert_eq!(ucr, 200, "overpayment held as prepayment credit");
    let paid = conn.tables.payments.iter().find(|p| p.id == "pay1").unwrap();
    let (dir, amt) = (&paid.direction, paid.amount_minor);
    assert_eq!((dir.as_str(), amt), ("in", 1200));
    let ar_bal: i64 = account_balance(&conn, "accounts_receivable");
    assert_eq!(ar_bal, -200);
}

#[test]
fn payment_allocated_applies_held_credit_without_journal() {
    let mut conn = open_in_memory_with_schema().unwrap();
    let mut hlc = Hlc::new("devA");
    seed_accounts(&mut conn, &mut hlc);
    record(&mut conn, &mut hlc, 1000, "ItemDefined",
        json(r#"{"itemId": "i1", "sku": "S1", "name": "W", "unit": "ea"}"#));
    record(&mut conn, &mut hlc, 1000, "PartyCreated",
        json(r#"{"partyId": "cust1", "name": "Bob", "kind": "customer"}"#));
    record(&mut conn, &mut hlc, 1000, "PaymentReceived",
        json(r#"{"paymentId": "pay1", "customerId": "cust1", "amountMinor": 500, "date": "2026-01-01",
               "allocations": []}"#));
    record(&mut conn, &mut hlc, 1000, "PurchaseRecorded",
        json(r#"{"purchaseId": "po1", "supplierId": null, "date": "2026-01-02", "terms": "cash",
               "lines": [{"itemId": "i1", "qty": 5, "unitCostMinor": 100, "lotId": "lot1"}]}"#));
    record(&mut conn, &mut hlc, 1000, "SaleRecorded",
        json(r#"{"saleId": "so1", "customerId": "cust1", "date": "2026-01-03", "terms": "credit",
               "lines": [{"itemId": "i1", "qty": 5, "unitPriceMinor": 100,
                          "lotConsumption": [{"lotId": "lot1", "qtyTaken": 5, "unitCostMinor": 100}]}]}"#));
    let jl_before = conn.tables.journal.len();
    record(&mut conn, &mut hlc, 1000, "PaymentAllocated",
        json(r#"{"paymentId": "pay1", "partyId": "cust1", "date": "2026-01-04",
               "allocations": [{"targetId": "so1", "targetType": "sale", "amountMinor": 500}]}"#));

    let jl_after = conn.tables.journal.len();
    assert_eq!(jl_before, jl_after, "PaymentAllocated posts no journal lines");
    let outstanding: i64 = sale_row(&conn, "so1").outstanding_minor;
    let (recv, ucr) = (balance_row(&conn, "cust1").receivable_minor, balance_row(&conn, "cust1").unallocated_cr_minor);
    assert_eq!(outstanding, 0);
    assert_eq!(recv, 0);
    assert_eq!(ucr, 0, "held credit consumed");
    let pay_count = conn.tables.payments.len();
    assert_eq!(pay_count, 1);
}

#[test]
fn expense_and_transfer_post_correctly() {
    let mut conn = open_in_memory_with_schema().unwrap();
    let mut hlc = Hlc::new("devA");
    seed_accounts(&mut conn, &mut hlc);

    record(&mut conn, &mut hlc, 1000, "ExpenseRecorded",
        json(r#"{"expenseId": "ex1", "accountId": "acct_rent", "amountMinor": 300,
               "date": "2026-02-01", "terms": "cash", "memo": "Feb rent"}"#));
    let rent_bal: i64 = account_balance(&conn, "rent");
    let bank_bal: i64 = account_balance(&conn, "bank");
    assert_eq!(rent_bal, 300, "expense (debit-normal) rises");
    assert_eq!(bank_bal, -300, "bank paid out");
    let spent = conn.tables.expenses.iter().find(|e| e.id == "ex1").unwrap();
    let (ex_amt, ex_memo) = (spent.amount_minor, spent.memo.as_ref().unwrap());
    assert_eq!((ex_amt, ex_memo.as_str()), (300, "Feb rent"));

    record(&mut conn, &mut hlc, 1000, "PartyCreated",
        json(r#"{"partyId": "sup1", "name": "Landlord Co", "kind": "supplier"}"#));
    record(&mut conn, &mut hlc, 1000, "ExpenseRecorded",
        json(r#"{"expenseId": "ex2", "accountId": "acct_rent", "amountMinor": 400,
               "date": "2026-02-01", "terms": "credit", "supplierId": "sup1", "memo": "Feb rent on account"}"#));
    let ap_bal: i64 = account_balance(&conn, "accounts_payable");
    let payable: i64 = balance_row(&conn, "sup1").payable_minor;
    assert_eq!(ap_bal, 400, "credit expense credits A/P GL");
    assert_eq!(payable, 400, "credit expense raises supplier payable");

    record(&mut conn, &mut hlc, 1000, "TransferRecorded",
        json(r#"{"transferId": "tr1", "fromAccountId": "acct_cash", "toAccountId": "acct_bank",
               "amountMinor": 500, "date": "2026-02-02"}"#));
    let cash_bal: i64 = account_balance(&conn, "cash");
    let bank_bal2: i64 = account_balance(&conn, "bank");
    assert_eq!(cash_bal, -500, "credited (from) side");
    assert_eq!(bank_bal2, 200, "-300 + 500 debited (to) side");
}

#[test]
fn inventory_adjusted_and_found_move_lots_and_gl() {
    let mut conn = open_in_memory_with_schema().unwrap();
    let mut hlc = Hlc::new("devA");
    seed_accounts(&mut conn, &mut hlc);
    record(&mut conn, &mut hlc, 1000, "ItemDefined",
        json(r#"{"itemId": "i1", "sku": "S1", "name": "W", "unit": "ea"}"#));
    record(&mut conn, &mut hlc, 1000, "PurchaseRecorded",
        json(r#"{"purchaseId": "po1", "supplierId": null, "date": "2026-01-01", "terms": "cash",
               "lines": [{"itemId": "i1", "qty": 10, "unitCostMinor": 100, "lotId": "lot1"}]}"#));

    record(&mut conn, &mut hlc, 1000, "InventoryAdjusted",
        json(r#"{"adjustmentId": "adj1", "date": "2026-01-05",
               "lines": [{"itemId": "i1", "lotId": "lot1", "qtyDelta": -2,
                          "reasonCode": "damage", "expenseAccountId": "acct_shrinkage"}]}"#));
    let rem: i64 = lot_row(&conn, "lot1").qty_remaining;
    assert_eq!(rem, 8);
    let shrink: i64 = account_balance(&conn, "shrinkage");
    assert_eq!(shrink, 200);

    record(&mut conn, &mut hlc, 1000, "InventoryFound",
        json(r#"{"foundId": "f1", "date": "2026-01-06",
               "lines": [{"itemId": "i1", "lotId": "lot2", "qty": 3, "unitCostMinor": 90,
                          "acquiredAt": "2026-01-06"}]}"#));
    let (recv2, cost2) = (lot_row(&conn, "lot2").qty_received, lot_row(&conn, "lot2").unit_cost_minor);
    assert_eq!((recv2, cost2), (3, 90));
    let gain: i64 = account_balance(&conn, "inventory_gain");
    assert_eq!(gain, 270);

    let lot_value: i64 = stock_value(&conn);
    let inv_bal: i64 = account_balance(&conn, "inventory");
    assert_eq!(lot_value, 1070);
    assert_eq!(inv_bal, 1070);
}

#[test]
fn opening_balances_sets_gl_and_creates_lots() {
    let mut conn = open_in_memory_with_schema().unwrap();
    let mut hlc = Hlc::new("devA");
    seed_accounts(&mut conn, &mut hlc);
    record(&mut conn, &mut hlc, 1000, "ItemDefined",
        json(r#"{"itemId": "i1", "sku": "S1", "name": "W", "unit": "ea"}"#));

    record(&mut conn, &mut hlc, 1000, "OpeningBalancesRecorded",
        json(r#"{"date": "2026-01-01",
               "accountBalances": [
                   {"accountId": "acct_inventory", "debitMinor": 1000, "creditMinor": 0},
                   {"accountId": "acct_bank", "debitMinor": 500, "creditMinor": 0},
                   {"accountId": "acct_owner_capital", "debitMinor": 0, "creditMinor": 1500}],
               "lots": [
                   {"itemId": "i1", "lotId": "lotOB", "qty": 10, "unitCostMinor": 100,
                    "acquiredAt": "2025-12-01"}]}"#));

    let inv_bal: i64 = account_balance(&conn, "inventory");
    let cap_bal: i64 = account_balance(&conn, "owner_capital");
    assert_eq!(inv_bal, 1000);
    assert_eq!(cap_bal, 1500);

    let (rem, cost) = (lot_row(&conn, "lotOB").qty_remaining, lot_row(&conn, "lotOB").unit_cost_minor);
    assert_eq!((rem, cost), (10, 100));
    let lot_value: i64 = stock_value(&conn);
    assert_eq!(lot_value, inv_bal);
}

#[test]
fn sale_return_restores_inventory_and_reduces_receivable() {
    let mut conn = open_in_memory_with_schema().unwrap();
    let mut hlc = Hlc::new("devA");
    seed_accounts(&mut conn, &mut hlc);
    record(&mut conn, &mut hlc, 1000, "ItemDefined",
        json(r#"{"itemId": "i1", "sku": "S1", "name": "W", "unit": "ea"}"#));
    record(&mut conn, &mut hlc, 1000, "PartyCreated",
        json(r#"{"partyId": "cust1", "name": "Bob", "kind": "customer"}"#));
    record(&mut conn, &mut hlc, 1000, "PurchaseRecorded",
        json(r#"{"purchaseId": "po1", "supplierId": null, "date": "2026-01-01", "terms": "cash",
               "lines": [{"itemId": "i1", "qty": 10, "unitCostMinor": 100, "lotId": "lot1"}]}"#));
    record(&mut conn, &mut hlc, 1000, "SaleRecorded",
        json(r#"{"saleId": "so1", "customerId": "cust1", "date": "2026-01-10", "terms": "credit",
               "lines": [{"itemId": "i1", "qty": 4, "unitPriceMinor": 250,
                          "lotConsumption": [{"lotId": "lot1", "qtyTaken": 4, "unitCostMinor": 100}]}]}"#));
    record(&mut conn, &mut hlc, 1000, "SaleReturnRecorded",
        json(r#"{"returnId": "ret1", "originalSaleId": "so1", "date": "2026-01-12",
               "lines": [{"itemId": "i1", "qty": 1, "unitPriceMinor": 250,
                          "lotReturns": [{"lotId": "lot1", "qtyReturned": 1, "unitCostMinor": 100}]}]}"#));

    let rem: i64 = lot_row(&conn, "lot1").qty_remaining;
    assert_eq!(rem, 7, "1 unit restored to lot");
    let back = conn.tables.returns.iter().find(|r| r.id == "ret1").unwrap();
    let (rr, cr) = (back.revenue_reversed_minor, back.cost_restored_minor);
    assert_eq!((rr, cr), (250, 100));
    let outstanding: i64 = sale_row(&conn, "so1").outstanding_minor;
    let recv: i64 = balance_row(&conn, "cust1").receivable_minor;
    assert_eq!(outstanding, 750, "1000 - 250 returned");
    assert_eq!(recv, 750);
}

#[test]
fn transaction_reversed_unwinds_sale() {
    let mut conn = open_in_memory_with_schema().unwrap();
    let mut hlc = Hlc::new("devA");
    seed_accounts(&mut conn, &mut hlc);
    record(&mut conn, &mut hlc, 1000, "ItemDefined",
        json(r#"{"itemId": "i1", "sku": "S1", "name": "W", "unit": "ea"}"#));
    record(&mut conn, &mut hlc, 1000, "PartyCreated",
        json(r#"{"partyId": "cust1", "name": "Bob", "kind": "customer"}"#));
    record(&mut conn, &mut hlc, 1000, "PurchaseRecorded",
        json(r#"{"purchaseId": "po1", "supplierId": null, "date": "2026-01-01", "terms": "cash",
               "lines": [{"itemId": "i1", "qty": 10, "unitCostMinor": 100, "lotId": "lot1"}]}"#));
    let sale = record(&mut conn, &mut hlc, 1000, "SaleRecorded",
        json(r#"{"saleId": "so1", "customerId": "cust1", "date": "2026-01-10", "terms": "credit",
               "lines": [{"itemId": "i1", "qty": 4, "unitPriceMinor": 250,
                          "lotConsumption": [{"lotId": "lot1", "qtyTaken": 4, "unitCostMinor": 100}]}]}"#));

    let rev = record(&mut conn, &mut hlc, 1000, "TransactionReversed",
        json(&format!(r#"{{"targetEventId": "{}", "targetType": "SaleRecorded", "reason": "entry error",
               "reversalJournalLines": [
                   {{"accountId": "acct_sales", "debitMinor": 1000, "creditMinor": 0}},
                   {{"accountId": "acct_accounts_receivable", "debitMinor": 0, "creditMinor": 1000}},
                   {{"accountId": "acct_inventory", "debitMinor": 400, "creditMinor": 0}},
                   {{"accountId": "acct_cogs", "debitMinor": 0, "creditMinor": 400}}]}}"#, sale.id)));

    let rev_lines = conn.tables.journal.iter().filter(|l| l.txn_id == rev.id).count();
    let (rev_d, rev_c) = totals(&conn, &rev.id);
    assert_eq!(rev_lines, 4);
    assert_eq!(rev_d, rev_c);
    assert_eq!(rev_d, 1400);

    let rem: i64 = lot_row(&conn, "lot1").qty_remaining;
    assert_eq!(rem, 10);
    let sales_bal: i64 = account_balance(&conn, "sales");
    let inv_bal: i64 = account_balance(&conn, "inventory");
    assert_eq!(sales_bal, 0);
    assert_eq!(inv_bal, 1000);

    let outstanding: i64 = sale_row(&conn, "so1").outstanding_minor;
    let recv: i64 = balance_row(&conn, "cust1").receivable_minor;
    let ar_bal: i64 = account_balance(&conn, "accounts_receivable");
    assert_eq!(outstanding, 0);
    assert_eq!(recv, 0);
    assert_eq!(ar_bal, 0);

    assert!(sale_row(&conn, "so1").reversed);
    let sale_line_count = conn.tables.sale_lines.iter().filter(|l| l.sale_id == "so1").count();
    assert_eq!(sale_line_count, 1, "sale_lines retained for audit");
}

#[test]
fn rebuild_is_deterministic_and_sets_cursor() {
    let mut conn = open_in_memory_with_schema().unwrap();
    let mut hlc = Hlc::new("devA");
    seed_accounts(&mut conn, &mut hlc);
    record(&mut conn, &mut hlc, 1000, "ItemDefined",
        json(r#"{"itemId": "i1", "sku": "S1", "name": "W", "unit": "ea"}"#));
    record(&mut conn, &mut hlc, 1000, "PartyCreated",
        json(r#"{"partyId": "cust1", "name": "Bob", "kind": "customer"}"#));
    record(&mut conn, &mut hlc, 1000, "PurchaseRecorded",
        json(r#"{"purchaseId": "po1", "supplierId": null, "date": "2026-01-01", "terms": "cash",
               "lines": [{"itemId": "i1", "qty": 10, "unitCostMinor": 100, "lotId": "lot1"}]}"#));
    record(&mut conn, &mut hlc, 1000, "SaleRecorded",
        json(r#"{"saleId": "so1", "customerId": "cust1", "date": "2026-01-10", "terms": "credit",
               "lines": [{"itemId": "i1", "qty": 4, "unitPriceMinor": 250,
                          "lotConsumption": [{"lotId": "lot1", "qtyTaken": 4, "unitCostMinor": 100}]}]}"#));
    record(&mut conn, &mut hlc, 1000, "PaymentReceived",
        json(r#"{"paymentId": "pay1", "customerId": "cust1", "amountMinor": 500, "date": "2026-01-11",
               "allocations": [{"saleId": "so1", "amountMinor": 500}]}"#));
    record(&mut conn, &mut hlc, 1000, "SaleReturnRecorded",
        json(r#"{"returnId": "ret1", "originalSaleId": "so1", "date": "2026-01-12",
               "lines": [{"itemId": "i1", "qty": 1, "unitPriceMinor": 250,
                          "lotReturns": [{"lotId": "lot1", "qtyReturned": 1, "unitCostMinor": 100}]}]}"#));
    let sale2 = record(&mut conn, &mut hlc, 1000, "SaleRecorded",
        json(r#"{"saleId": "so2", "customerId": null, "date": "2026-01-13", "terms": "cash",
               "lines": [{"itemId": "i1", "qty": 1, "unitPriceMinor": 250,
                          "lotConsumption": [{"lotId": "lot1", "qtyTaken": 1, "unitCostMinor": 100}]}]}"#));
    record(&mut conn, &mut hlc, 1000, "TransactionReversed",
        json(&format!(r#"{{"targetEventId": "{}", "targetType": "SaleRecorded", "reason": "oops",
               "reversalJournalLines": [
                   {{"accountId": "acct_sales", "debitMinor": 250, "creditMinor": 0}},
                   {{"accountId": "acct_bank", "debitMinor": 0, "creditMinor": 250}},
                   {{"accountId": "acct_inventory", "debitMinor": 100, "creditMinor": 0}},
                   {{"accountId": "acct_cogs", "debitMinor": 0, "creditMinor": 100}}]}}"#, sale2.id)));

    let before = conn.tables.copy();
    let last_hlc = conn.events.iter().map(|e| e.hlc.clone()).max().unwrap();

    rebuild(&mut conn).unwrap();

    assert!(conn.tables == before, "rebuild must reproduce identical projected state");

    let cursor = conn.cursor.clone();
    assert_eq!(cursor, Some(last_hlc));

    let sales = conn.tables.sales.len();
    let lots = conn.tables.lots.len();
    assert_eq!((sales, lots), (2, 1));
    assert!(sale_row(&conn, "so2").reversed);
}
