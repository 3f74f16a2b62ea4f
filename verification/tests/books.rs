//! What the books keep, on a small business.

use accounting_core::events::insert_raw_event;
use accounting_core::wire::parse;
use accounting_core::{
    all_passed, append_event, apply_event, handle_expense_recorded, handle_inventory_adjusted,
    handle_inventory_found, handle_item_defined, handle_party_created, handle_payment_made,
    handle_payment_allocated, handle_payment_received, handle_purchase_recorded, handle_purchase_return_recorded,
    handle_sale_recorded, handle_sale_return_recorded, handle_transaction_reversed,
    handle_transfer_recorded, open_in_memory_with_schema, read_events, rebuild, run_all_checks,
    run_genesis, AdjustLineInput, AllocInput, CommandContext, CommandError, Database, DbError,
    FoundLineInput, Hlc, Json, PurchaseLineInput, PurchaseReturnLineInput, SaleLineInput,
    SaleReturnItemInput,
};

fn json(text: &str) -> Json {
    parse(text).unwrap()
}

fn ctx<'a>(conn: &'a mut Database, hlc: &'a mut Hlc) -> CommandContext<'a> {
    CommandContext {
        conn,
        hlc,
        physical_now: 1000,
        device_id: "deviceA".into(),
        user_id: "owner-1".into(),
    }
}

fn bought(qty: i64, cost: i64) -> Vec<PurchaseLineInput> {
    vec![PurchaseLineInput { item_id: "i1".into(), qty, unit_cost_minor: cost }]
}

fn sold(qty: i64, price: i64) -> Vec<SaleLineInput> {
    vec![SaleLineInput { item_id: "i1".into(), qty, unit_price_minor: price, lot_picks: None }]
}

fn settles(target: &str, kind: &str, amount: i64) -> Vec<AllocInput> {
    vec![AllocInput {
        target_id: target.into(),
        target_type: kind.into(),
        amount_minor: amount,
    }]
}

/// A business that has done everything but reverse.
fn business() -> (Database, Hlc) {
    let mut conn = open_in_memory_with_schema().unwrap();
    let mut hlc = Hlc::new("deviceA");
    run_genesis(&mut conn, &mut hlc, 1000, "deviceA", "owner-1", "Jane").unwrap();
    rebuild(&mut conn).unwrap();
    let mut c = ctx(&mut conn, &mut hlc);
    handle_item_defined(&mut c, "i1", "S1", "Widget", "ea").unwrap();
    handle_party_created(&mut c, "sup", "Sup", "supplier").unwrap();
    handle_party_created(&mut c, "cust", "Cust", "customer").unwrap();
    handle_purchase_recorded(&mut c, "p1", "sup", "2026-01-01", "credit", bought(10, 100)).unwrap();
    handle_purchase_recorded(&mut c, "p2", "sup", "2026-01-02", "cash", bought(10, 120)).unwrap();
    handle_sale_recorded(&mut c, "s1", "cust", "2026-01-03", "credit", sold(12, 200)).unwrap();
    handle_sale_recorded(&mut c, "s2", "cust", "2026-01-04", "cash", sold(2, 200)).unwrap();
    handle_sale_return_recorded(&mut c, "r1", "s1", "2026-01-05",
        vec![SaleReturnItemInput { item_id: "i1".into(), lot_returns: vec![("p1#lot0".into(), 3)] }])
        .unwrap();
    handle_purchase_return_recorded(&mut c, "r2", "p1", "2026-01-06",
        vec![PurchaseReturnLineInput {
            item_id: "i1".into(),
            lot_id: "p1#lot0".into(),
            qty: 1,
            unit_cost_minor: 100,
        }])
        .unwrap();
    handle_payment_received(&mut c, "pay1", "cust", 2000, "2026-01-07", settles("s1", "sale", 1500))
        .unwrap();
    handle_payment_made(&mut c, "pay2", "sup", 900, "2026-01-08", settles("p1", "purchase", 900))
        .unwrap();
    handle_expense_recorded(&mut c, "e1", "acct_rent", 300, "2026-01-09", "credit", Some("sup"), None)
        .unwrap();
    handle_transfer_recorded(&mut c, "t1", "acct_cash", "acct_bank", 50, "2026-01-10", None).unwrap();
    handle_inventory_adjusted(&mut c, "a1", "2026-01-11",
        vec![AdjustLineInput {
            item_id: "i1".into(),
            lot_id: "p2#lot0".into(),
            qty_delta: -1,
            reason_code: "damage".into(),
            expense_account_id: "acct_shrinkage".into(),
        }])
        .unwrap();
    handle_inventory_found(&mut c, "f1", "2026-01-12",
        vec![FoundLineInput {
            item_id: "i1".into(),
            qty: 2,
            unit_cost_minor: 80,
            acquired_at: "2026-01-12".into(),
            income_account_id: "acct_inventory_gain".into(),
        }])
        .unwrap();
    (conn, hlc)
}

fn is_debit_normal(doc: &Json) -> bool {
    doc.get("normal").and_then(|v| v.as_str()) == Some("debit")
}

#[test]
fn every_account_balance_is_the_tally_of_its_lines() {
    let (db, _) = business();
    for a in &db.tables.accounts {
        let debit: i64 = db
            .tables
            .journal
            .iter()
            .filter(|l| l.account_id == a.id)
            .map(|l| l.debit_minor - l.credit_minor)
            .sum();
        let tally = if is_debit_normal(&a.doc) { debit } else { -debit };
        assert_eq!(a.balance_minor, tally, "{}", a.id);
    }
}

#[test]
fn all_debits_are_all_credits() {
    let (db, _) = business();
    let debit: i64 = db.tables.journal.iter().map(|l| l.debit_minor).sum();
    let credit: i64 = db.tables.journal.iter().map(|l| l.credit_minor).sum();
    assert_eq!(debit, credit);
    assert!(debit > 0);
}

#[test]
fn every_check_passes_after_everything_but_a_reversal() {
    let (db, _) = business();
    let checks = run_all_checks(&db.tables).unwrap();
    assert!(all_passed(&checks), "{checks:?}");
}

#[test]
fn a_rebuild_reproduces_what_commands_committed_and_then_itself() {
    let (mut db, _) = business();
    let committed = db.tables.copy();
    rebuild(&mut db).unwrap();
    assert!(db.tables == committed);
    rebuild(&mut db).unwrap();
    assert!(db.tables == committed);
    assert_eq!(db.cursor, read_events(&db).unwrap().last().map(|e| e.hlc.clone()));
}

#[test]
fn the_order_of_arrival_does_not_matter() {
    let (db, _) = business();
    let mut backwards = open_in_memory_with_schema().unwrap();
    for ev in db.events.iter().rev() {
        insert_raw_event(&mut backwards, ev).unwrap();
    }
    rebuild(&mut backwards).unwrap();
    assert!(backwards.tables == db.tables);
    assert_eq!(read_events(&backwards).unwrap(), read_events(&db).unwrap());
}

#[test]
fn a_granted_command_adds_one_event_of_its_own() {
    let (mut db, mut hlc) = business();
    let before = db.events.len();
    let ev =
        handle_sale_recorded(&mut ctx(&mut db, &mut hlc), "s9", "cust", "2026-02-01", "cash", sold(1, 5))
            .unwrap();
    assert_eq!(db.events.len(), before + 1);
    assert_eq!(db.events[before], ev);
    assert_eq!(ev.seq, before as i64 + 1);
    assert_eq!((ev.device_id.as_str(), ev.user_id.as_str()), ("deviceA", "owner-1"));
    assert_eq!(ev.created_at, 1000);
}

#[test]
fn lots_stay_between_nothing_and_what_was_received() {
    let (mut db, mut hlc) = business();
    let left: i64 = db.tables.lots.iter().map(|l| l.qty_remaining).sum();
    let mut c = ctx(&mut db, &mut hlc);
    assert!(handle_sale_recorded(&mut c, "s9", "cust", "2026-02-01", "cash", sold(left + 1, 5)).is_err());
    handle_sale_recorded(&mut c, "s9", "cust", "2026-02-01", "cash", sold(left, 5)).unwrap();
    assert!(db.tables.lots.iter().all(|l| l.qty_remaining == 0 && l.qty_received > 0));
}

#[test]
fn lots_hold_what_the_movements_left() {
    let (db, _) = business();
    let lots: Vec<(&str, i64, i64)> = db
        .tables
        .lots
        .iter()
        .map(|l| (l.id.as_str(), l.qty_received, l.qty_remaining))
        .collect();
    assert_eq!(lots, vec![("p1#lot0", 10, 2), ("p2#lot0", 10, 5), ("f1#lot0", 2, 2)]);
}

#[test]
fn more_than_a_lot_holds_can_neither_be_returned_nor_written_off() {
    let (mut db, mut hlc) = business();
    let before = db.tables.copy();
    let mut c = ctx(&mut db, &mut hlc);
    let back = |qty: i64| {
        vec![PurchaseReturnLineInput {
            item_id: "i1".into(),
            lot_id: "p1#lot0".into(),
            qty,
            unit_cost_minor: 100,
        }]
    };
    assert!(handle_purchase_return_recorded(&mut c, "r3", "p1", "2026-01-13", back(3)).is_err());
    let off = vec![AdjustLineInput {
        item_id: "i1".into(),
        lot_id: "p1#lot0".into(),
        qty_delta: -3,
        reason_code: "damage".into(),
        expense_account_id: "acct_shrinkage".into(),
    }];
    assert!(handle_inventory_adjusted(&mut c, "a2", "2026-01-13", off).is_err());
    assert!(c.conn.tables == before);
    handle_purchase_return_recorded(&mut c, "r3", "p1", "2026-01-13", back(2)).unwrap();
    assert_eq!(c.conn.tables.lots[0].qty_remaining, 0);
}

#[test]
fn no_key_occurs_twice() {
    let (mut db, _) = business();
    rebuild(&mut db).unwrap();
    let t = &db.tables;
    let columns: Vec<Vec<&str>> = vec![
        t.accounts.iter().map(|r| r.id.as_str()).collect(),
        t.parties.iter().map(|r| r.id.as_str()).collect(),
        t.lots.iter().map(|r| r.id.as_str()).collect(),
        t.journal.iter().map(|r| r.id.as_str()).collect(),
        t.sales.iter().map(|r| r.id.as_str()).collect(),
        t.purchases.iter().map(|r| r.id.as_str()).collect(),
        t.balances.iter().map(|r| r.party_id.as_str()).collect(),
        t.return_lines.iter().map(|r| r.id.as_str()).collect(),
    ];
    for column in columns {
        let mut once = column.clone();
        once.sort();
        once.dedup();
        assert_eq!(once.len(), column.len());
        assert!(!column.is_empty());
    }
}

#[test]
fn credit_settles_what_an_invoice_owes_and_no_more() {
    let (mut db, mut hlc) = business();
    let mut c = ctx(&mut db, &mut hlc);
    assert_eq!(c.conn.tables.sales[0].outstanding_minor, 300);
    let held = |c: &CommandContext| {
        c.conn.tables.balances.iter().find(|b| b.party_id == "cust").unwrap().unallocated_cr_minor
    };
    assert_eq!(held(&c), 500);
    let over =
        handle_payment_allocated(&mut c, "x", "pay1", "cust", "2026-01-13", settles("s1", "sale", 301));
    assert!(over.is_err());
    handle_payment_allocated(&mut c, "x", "pay1", "cust", "2026-01-13", settles("s1", "sale", 300))
        .unwrap();
    assert_eq!(c.conn.tables.sales[0].outstanding_minor, 0);
    assert_eq!(held(&c), 200);
}

#[test]
fn a_return_beyond_what_is_owed_becomes_credit() {
    let (mut db, mut hlc) = business();
    let mut c = ctx(&mut db, &mut hlc);
    handle_sale_return_recorded(&mut c, "r3", "s1", "2026-01-13",
        vec![SaleReturnItemInput { item_id: "i1".into(), lot_returns: vec![("p1#lot0".into(), 2)] }])
        .unwrap();
    assert_eq!(c.conn.tables.sales[0].outstanding_minor, 0);
    let b = c.conn.tables.balances.iter().find(|b| b.party_id == "cust").unwrap();
    assert_eq!(b.unallocated_cr_minor, 600);
    handle_purchase_return_recorded(&mut c, "r4", "p1", "2026-01-13",
        vec![PurchaseReturnLineInput {
            item_id: "i1".into(),
            lot_id: "p1#lot0".into(),
            qty: 1,
            unit_cost_minor: 100,
        }])
        .unwrap();
    assert_eq!(c.conn.tables.purchases[0].outstanding_minor, 0);
    let b = c.conn.tables.balances.iter().find(|b| b.party_id == "sup").unwrap();
    assert_eq!(b.unallocated_dr_minor, 100);
}

#[test]
fn reversing_books_the_opposite_of_every_line() {
    let (mut db, mut hlc) = business();
    let ev =
        handle_purchase_recorded(&mut ctx(&mut db, &mut hlc), "p9", "sup", "2026-02-01", "credit", bought(3, 70))
            .unwrap();
    let balances: Vec<i64> = db.tables.accounts.iter().map(|a| a.balance_minor).collect();
    let rev = handle_transaction_reversed(&mut ctx(&mut db, &mut hlc), &ev.id, "wrong").unwrap();
    let of = |id: &str| -> Vec<(String, i64, i64)> {
        db.tables
            .journal
            .iter()
            .filter(|l| l.event_id == id)
            .map(|l| (l.account_id.clone(), l.debit_minor, l.credit_minor))
            .collect()
    };
    let booked = of(&ev.id);
    let taken_back = of(&rev.id);
    assert_eq!(booked.len(), 2);
    for ((a, d, c), (a2, d2, c2)) in booked.iter().zip(&taken_back) {
        assert_eq!((a, d, c), (a2, c2, d2));
    }
    let after: Vec<i64> = db.tables.accounts.iter().map(|a| a.balance_minor).collect();
    let moved: i64 = balances.iter().zip(&after).map(|(x, y)| (x - y).abs()).sum();
    assert_eq!(moved, 420);
}

#[test]
fn a_projection_that_cannot_be_applied_changes_nothing() {
    let mut db = open_in_memory_with_schema().unwrap();
    let mut hlc = Hlc::new("deviceA");
    let p = json(r#"{"itemId": "i1", "sku": "S1", "name": "W", "unit": "ea"}"#);
    let ev = append_event(&mut db, &mut hlc, 1, "deviceA", "u", "ItemDefined", &p).unwrap();
    apply_event(&mut db, &ev).unwrap();
    assert_eq!(apply_event(&mut db, &ev), Err(DbError::Unique("items.id".to_string())));
    let p = json(r#"{"itemId": "i2", "sku": "S1", "name": "W", "unit": "ea"}"#);
    let ev = append_event(&mut db, &mut hlc, 1, "deviceA", "u", "ItemDefined", &p).unwrap();
    assert_eq!(apply_event(&mut db, &ev), Err(DbError::Unique("items.sku".to_string())));
    assert_eq!(db.tables.items.len(), 1);
    let p = json(
        r#"{"purchaseId": "p1", "supplierId": null, "date": "2026-01-01", "terms": "cash",
            "lines": [{"itemId": "ghost", "qty": 1, "unitCostMinor": 1, "lotId": "l1"}]}"#,
    );
    let ev = append_event(&mut db, &mut hlc, 1, "deviceA", "u", "PurchaseRecorded", &p).unwrap();
    assert!(apply_event(&mut db, &ev).is_err());
    assert!(db.tables.lots.is_empty() && db.tables.purchases.is_empty());
}

#[test]
fn a_sum_beyond_the_range_of_money_is_refused() {
    let (mut db, mut hlc) = business();
    let books = db.tables.copy();
    let err = handle_purchase_recorded(
        &mut ctx(&mut db, &mut hlc), "p9", "sup", "2026-02-01", "credit", bought(i64::MAX, 2),
    )
    .unwrap_err();
    assert!(matches!(err, CommandError::Db(DbError::Overflow)), "{err:?}");
    assert!(db.tables == books);
}

/// What is left of every lot, owed on every invoice, and held for every party.
fn standing(db: &Database) -> (Vec<i64>, Vec<i64>, Vec<(i64, i64, i64, i64)>) {
    let t = &db.tables;
    (
        t.lots.iter().map(|l| l.qty_remaining).collect(),
        t.sales.iter().chain(t.purchases.iter()).map(|i| i.outstanding_minor).collect(),
        t.balances
            .iter()
            .map(|b| {
                (
                    b.receivable_minor,
                    b.payable_minor,
                    b.unallocated_cr_minor,
                    b.unallocated_dr_minor,
                )
            })
            .collect(),
    )
}

#[test]
fn reversing_a_payment_or_an_allocation_right_away_leaves_the_dues_as_they_were() {
    let (mut db, mut hlc) = business();
    let before = standing(&db);
    let paid = db.tables.payments.len();
    let mut c = ctx(&mut db, &mut hlc);
    let pay =
        handle_payment_received(&mut c, "pay3", "cust", 250, "2026-01-13", settles("s1", "sale", 200))
            .unwrap();
    assert_ne!(standing(c.conn), before);
    handle_transaction_reversed(&mut c, &pay.id, "wrong").unwrap();
    assert_eq!(standing(c.conn), before);
    assert_eq!(c.conn.tables.payments.len(), paid);
    let alloc =
        handle_payment_allocated(&mut c, "x", "pay1", "cust", "2026-01-13", settles("s1", "sale", 300))
            .unwrap();
    assert_ne!(standing(c.conn), before);
    handle_transaction_reversed(&mut c, &alloc.id, "wrong").unwrap();
    assert_eq!(standing(c.conn), before);
    assert!(c.conn.tables.allocations.iter().all(|a| a.event_id != alloc.id));
}

#[test]
fn reversing_a_sale_right_away_gives_the_stock_back_and_voids_it() {
    let (mut db, mut hlc) = business();
    let (lots, owed, held) = standing(&db);
    let mut c = ctx(&mut db, &mut hlc);
    let sale =
        handle_sale_recorded(&mut c, "s3", "cust", "2026-01-13", "credit", sold(4, 150)).unwrap();
    assert_eq!(standing(c.conn).0, vec![0, 3, 2]);
    handle_transaction_reversed(&mut c, &sale.id, "wrong").unwrap();
    let after = standing(c.conn);
    assert_eq!(after.0, lots);
    assert_eq!(after.2, held);
    assert_eq!(after.1.iter().sum::<i64>(), owed.iter().sum::<i64>());
    let row = &c.conn.tables.sales[2];
    assert_eq!((row.id.as_str(), row.reversed, row.outstanding_minor), ("s3", true, 0));
}

#[test]
fn reversing_a_purchase_right_away_empties_its_lot_and_voids_it() {
    let (mut db, mut hlc) = business();
    let (lots, _, held) = standing(&db);
    let mut c = ctx(&mut db, &mut hlc);
    let bill =
        handle_purchase_recorded(&mut c, "p3", "sup", "2026-01-13", "credit", bought(4, 90)).unwrap();
    handle_transaction_reversed(&mut c, &bill.id, "wrong").unwrap();
    let after = standing(c.conn);
    assert_eq!(after.0, [lots, vec![0]].concat());
    assert_eq!(after.2, held);
    let row = &c.conn.tables.purchases[2];
    assert_eq!((row.id.as_str(), row.reversed, row.outstanding_minor), ("p3", true, 0));
}

#[test]
fn reversing_a_write_off_or_a_purchase_return_right_away_gives_the_stock_back() {
    let (mut db, mut hlc) = business();
    let lots = standing(&db).0;
    let mut c = ctx(&mut db, &mut hlc);
    let off = handle_inventory_adjusted(&mut c, "a2", "2026-01-13",
        vec![AdjustLineInput {
            item_id: "i1".into(),
            lot_id: "p2#lot0".into(),
            qty_delta: -4,
            reason_code: "damage".into(),
            expense_account_id: "acct_shrinkage".into(),
        }])
        .unwrap();
    assert_eq!(standing(c.conn).0, vec![2, 1, 2]);
    handle_transaction_reversed(&mut c, &off.id, "wrong").unwrap();
    assert_eq!(standing(c.conn).0, lots);
    let back = handle_purchase_return_recorded(&mut c, "r3", "p1", "2026-01-13",
        vec![PurchaseReturnLineInput {
            item_id: "i1".into(),
            lot_id: "p1#lot0".into(),
            qty: 2,
            unit_cost_minor: 100,
        }])
        .unwrap();
    assert_eq!(standing(c.conn).0, vec![0, 5, 2]);
    handle_transaction_reversed(&mut c, &back.id, "wrong").unwrap();
    assert_eq!(standing(c.conn).0, lots);
}

#[test]
fn consumptions_and_sale_lines_belong_to_sales_that_are_there() {
    let (db, _) = business();
    let t = &db.tables;
    assert_eq!((t.consumptions.len(), t.sale_lines.len()), (3, 2));
    assert!(t.consumptions.iter().all(|c| t.sale_lines.iter().any(|l| l.id == c.sale_line_id)));
    assert!(t.sale_lines.iter().all(|l| t.sales.iter().any(|s| s.id == l.sale_id)));
}

#[test]
fn an_event_only_adds_lines_of_its_own_and_moves_accounts_by_them() {
    let (mut db, mut hlc) = business();
    let before = db.tables.copy();
    let log = db.events.len();
    let ev = handle_sale_recorded(&mut ctx(&mut db, &mut hlc), "s3", "cust", "2026-01-13", "credit", sold(3, 150))
        .unwrap();
    let (old, new) = db.tables.journal.split_at(before.journal.len());
    assert!(old == before.journal.as_slice());
    assert_eq!(new.len(), 4);
    assert!(new.iter().all(|l| l.event_id == ev.id && l.txn_id == "s3"));
    assert_eq!(new.iter().map(|l| l.debit_minor - l.credit_minor).sum::<i64>(), 0);
    for (was, is) in before.accounts.iter().zip(&db.tables.accounts) {
        let net: i64 = new
            .iter()
            .filter(|l| l.account_id == was.id)
            .map(|l| l.debit_minor - l.credit_minor)
            .sum();
        let moved = if is_debit_normal(&was.doc) { net } else { -net };
        assert_eq!(is.balance_minor, was.balance_minor + moved, "{}", was.id);
    }
    assert_eq!(db.events.len(), log + 1);
}

#[test]
fn reversing_a_sale_right_away_unwinds_it() {
    let (mut db, mut hlc) = business();
    let before = db.tables.copy();
    let mut c = ctx(&mut db, &mut hlc);
    let sale =
        handle_sale_recorded(&mut c, "s3", "cust", "2026-01-13", "credit", sold(3, 150)).unwrap();
    let between = c.conn.tables.copy();
    assert!(between.accounts != before.accounts);
    let rev = handle_transaction_reversed(&mut c, &sale.id, "wrong").unwrap();
    let t = &c.conn.tables;
    assert!(t.accounts == before.accounts);
    assert!(t.lots == before.lots);
    assert!(t.balances == before.balances);
    assert!(t.sale_lines == between.sale_lines && t.consumptions == between.consumptions);
    let (old, new) = t.journal.split_at(between.journal.len());
    assert!(old == between.journal.as_slice());
    assert_eq!(new.len(), 4);
    assert!(new.iter().all(|l| l.event_id == rev.id && l.txn_id == rev.id));
    assert_eq!(new.iter().map(|l| l.debit_minor - l.credit_minor).sum::<i64>(), 0);
}

#[test]
fn stock_parties_and_books_stay_in_step_through_reversals_that_give_back() {
    let (mut db, mut hlc) = business();
    let mut c = ctx(&mut db, &mut hlc);
    let done = vec![
        handle_sale_recorded(&mut c, "s3", "cust", "2026-01-13", "credit", sold(2, 150)).unwrap(),
        handle_purchase_recorded(&mut c, "p3", "sup", "2026-01-13", "credit", bought(4, 90)).unwrap(),
        handle_payment_received(&mut c, "pay3", "cust", 250, "2026-01-13", settles("s1", "sale", 200))
            .unwrap(),
        handle_payment_allocated(&mut c, "x", "pay1", "cust", "2026-01-13", settles("s1", "sale", 50))
            .unwrap(),
        handle_inventory_found(&mut c, "f2", "2026-01-13",
            vec![FoundLineInput {
                item_id: "i1".into(),
                qty: 1,
                unit_cost_minor: 70,
                acquired_at: "2026-01-13".into(),
                income_account_id: "acct_inventory_gain".into(),
            }])
            .unwrap(),
        handle_transfer_recorded(&mut c, "t2", "acct_cash", "acct_bank", 5, "2026-01-13", None).unwrap(),
    ];
    for ev in done.iter().rev() {
        handle_transaction_reversed(&mut c, &ev.id, "wrong").unwrap();
        for check in run_all_checks(&c.conn.tables).unwrap() {
            if ["inventory_valuation", "double_entry", "party_balances"].contains(&check.name) {
                assert!(all_passed(&vec![check]), "{}", ev.event_type);
            }
        }
    }
}

#[test]
fn opening_balances_that_state_what_their_lots_are_worth_keep_stock_in_step() {
    let (mut db, mut hlc) = business();
    let p = json(
        r#"{"date": "2026-01-01",
            "accountBalances": [
              {"accountId": "acct_inventory", "debitMinor": 300, "creditMinor": 0},
              {"accountId": "acct_equity", "debitMinor": 0, "creditMinor": 300}],
            "lots": [
              {"lotId": "o1", "itemId": "i1", "qty": 3, "unitCostMinor": 100, "acquiredAt": "2026-01-01"}]}"#,
    );
    let ev =
        append_event(&mut db, &mut hlc, 2000, "deviceA", "u", "OpeningBalancesRecorded", &p).unwrap();
    apply_event(&mut db, &ev).unwrap();
    let checks = run_all_checks(&db.tables).unwrap();
    assert!(all_passed(&checks), "{checks:?}");
}
