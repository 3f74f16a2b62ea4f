use accounting_core::wire::parse;
use accounting_core::queries::{ItemMargin, ReturnRate};
use accounting_core::{
    age_at_sale, aging_buckets, balance_sheet, gross_margin_per_item, gross_profit,
    handle_expense_recorded, handle_item_defined, handle_party_created, handle_party_updated,
    handle_payment_received, handle_purchase_recorded, handle_sale_recorded,
    handle_sale_return_recorded, inventory_valuation, lot_ages, net_profit,
    open_in_memory_with_schema, party_balances, payable_aging, payable_parties, profit_and_loss,
    rebuild, receivable_aging, return_rate_per_item, run_genesis, sellers_by_units, stock_on_hand,
    units_sold_by_month, AllocInput, CommandContext, Database, DbError, Hlc, Json, PurchaseLineInput,
    SaleLineInput, SaleReturnItemInput,
};

fn json(text: &str) -> Json {
    parse(text).unwrap()
}

fn ctx<'a>(conn: &'a mut Database, hlc: &'a mut Hlc) -> CommandContext<'a> {
    CommandContext {
        conn,
        hlc,
        physical_now: 1000,
        device_id: "deviceA".into(),
        user_id: "owner-1".into(),
    }
}

const ANCHOR: &str = "2026-07-06";
const WIDGET: &str = "item_widget";
const GADGET: &str = "item_gadget";
const CUST: &str = "cust_acme";
const SUPP: &str = "supp_globex";

/// A small business: three purchases on credit, a credit and a cash sale, an expense, a
/// payment and a return.
fn open_seeded() -> (Database, Hlc) {
    let mut conn = open_in_memory_with_schema().unwrap();
    let mut hlc = Hlc::new("deviceA");
    run_genesis(&mut conn, &mut hlc, 1000, "deviceA", "owner-1", "Jane Owner").unwrap();
    rebuild(&mut conn).unwrap();
    let mut c = ctx(&mut conn, &mut hlc);
    handle_item_defined(&mut c, WIDGET, "W-1", "Widget", "ea").unwrap();
    handle_item_defined(&mut c, GADGET, "G-1", "Gadget", "ea").unwrap();
    handle_party_created(&mut c, CUST, "Acme Co", "customer").unwrap();
    handle_party_created(&mut c, SUPP, "Globex", "supplier").unwrap();
    for (id, date, item, qty, cost) in [
        ("pur_1", "2026-06-01", WIDGET, 100, 500),
        ("pur_2", "2026-06-15", WIDGET, 50, 600),
        ("pur_3", "2026-06-20", GADGET, 20, 1000),
    ] {
        let line = PurchaseLineInput { item_id: item.into(), qty, unit_cost_minor: cost };
        handle_purchase_recorded(&mut c, id, SUPP, date, "credit", vec![line]).unwrap();
    }
    for (id, date, terms, item, qty, price) in [
        ("sale_1", "2026-07-02", "credit", WIDGET, 60, 900),
        ("sale_2", "2026-07-03", "cash", GADGET, 5, 1500),
    ] {
        let line =
            SaleLineInput { item_id: item.into(), qty, unit_price_minor: price, lot_picks: None };
        handle_sale_recorded(&mut c, id, CUST, date, terms, vec![line]).unwrap();
    }
    handle_expense_recorded(
        &mut c, "exp_1", "acct_rent", 3000, "2026-07-04", "cash", None, Some("July rent"),
    )
    .unwrap();
    let paid = AllocInput {
        target_id: "sale_1".into(),
        target_type: "sale".into(),
        amount_minor: 40000,
    };
    handle_payment_received(&mut c, "pay_1", CUST, 40000, "2026-07-05", vec![paid]).unwrap();
    let back = SaleReturnItemInput {
        item_id: WIDGET.into(),
        lot_returns: vec![("pur_1#lot0".into(), 10)],
    };
    handle_sale_return_recorded(&mut c, "ret_1", "sale_1", "2026-07-06", vec![back]).unwrap();
    (conn, hlc)
}

/// A share of the revenue in per cent, to two places.
fn margin_pct(m: &ItemMargin) -> Option<f64> {
    if m.revenue_minor == 0 {
        return None;
    }
    Some((10000.0 * m.profit_minor as f64 / m.revenue_minor as f64).round() / 100.0)
}

/// The share of the units sold that came back, to four places.
fn return_rate(r: &ReturnRate) -> Option<f64> {
    if r.sold_qty == 0 {
        return None;
    }
    Some((10000.0 * r.returned_qty as f64 / r.sold_qty as f64).round() / 10000.0)
}

#[test]
fn units_sold_by_month_for_widget() {
    let (conn, _) = open_seeded();
    let rows = units_sold_by_month(&conn.tables, WIDGET, ANCHOR).unwrap();
    assert_eq!(rows.len(), 1);
    assert_eq!(rows[0].month, "2026-07");
    assert_eq!(rows[0].units_sold, 60);
    assert_eq!(rows[0].revenue_minor, 54000);
}

#[test]
fn gross_and_net_profit_over_period() {
    let (conn, _) = open_seeded();
    let g = gross_profit(&conn.tables, ANCHOR).unwrap();
    assert_eq!(g.revenue_minor, 61500);
    assert_eq!(g.cogs_minor, 35000);
    assert_eq!(g.gross_profit_minor, 26500);

    let net = net_profit(&conn.tables, ANCHOR).unwrap();
    assert_eq!(net, 23500);
}

#[test]
fn inventory_age_per_lot_and_buckets() {
    let (conn, _hlc) = open_seeded();

    let lots = lot_ages(&conn.tables, WIDGET, ANCHOR).unwrap();
    assert_eq!(lots.len(), 2);
    assert_eq!(lots[0].lot_id, "pur_1#lot0");
    assert_eq!(lots[0].qty_remaining, 50);
    assert_eq!(lots[0].age_days, 35);
    assert_eq!(lots[0].value_on_hand_minor, 25000);
    assert_eq!(lots[1].lot_id, "pur_2#lot0");
    assert_eq!(lots[1].age_days, 21);

    let buckets = aging_buckets(&conn.tables, ANCHOR).unwrap();
    let find = |b: &str| buckets.iter().find(|x| x.bucket == b);
    let b0 = find("0-30d").expect("0-30d bucket");
    assert_eq!(b0.units, 65);
    assert_eq!(b0.value_minor, 45000);
    let b1 = find("31-90d").expect("31-90d bucket");
    assert_eq!(b1.units, 50);
    assert_eq!(b1.value_minor, 25000);
}

#[test]
fn stock_on_hand_and_valuation() {
    let (conn, _hlc) = open_seeded();

    let soh = stock_on_hand(&conn.tables).unwrap();
    let qty = |id: &str| soh.iter().find(|r| r.item_id == id).map(|r| r.qty).unwrap();
    assert_eq!(qty(WIDGET), 100);
    assert_eq!(qty(GADGET), 15);

    assert_eq!(inventory_valuation(&conn.tables).unwrap(), 70000);
}

#[test]
fn gross_margin_and_sellers() {
    let (conn, _hlc) = open_seeded();

    let margins = gross_margin_per_item(&conn.tables).unwrap();
    let m = |id: &str| margins.iter().find(|r| r.item_id == id).unwrap();
    assert_eq!(margin_pct(m(WIDGET)), Some(44.44));
    assert_eq!(margin_pct(m(GADGET)), Some(33.33));

    let sellers = sellers_by_units(&conn.tables).unwrap();
    assert_eq!(sellers[0].item_id, WIDGET);
    assert_eq!(sellers[0].units, 60);
    assert_eq!(sellers[0].profit_minor, 24000);
    assert_eq!(sellers[1].item_id, GADGET);
    assert_eq!(sellers[1].units, 5);
}

#[test]
fn party_balances_and_aging() {
    let (conn, _hlc) = open_seeded();

    let balances = party_balances(&conn.tables).unwrap();
    let b = |id: &str| balances.iter().find(|r| r.party_id == id).unwrap();
    assert_eq!(b(CUST).receivable_minor, 5000);
    assert_eq!(b(SUPP).payable_minor, 100000);

    let ar = receivable_aging(&conn.tables, ANCHOR).unwrap();
    assert_eq!(ar.len(), 1);
    assert_eq!(ar[0].invoice_id, "sale_1");
    assert_eq!(ar[0].outstanding_minor, 5000);
    assert_eq!(ar[0].bucket, "0-30d");

    let ap = payable_aging(&conn.tables, ANCHOR).unwrap();
    assert_eq!(ap.len(), 3);
    assert_eq!(ap.iter().map(|r| r.outstanding_minor).sum::<i64>(), 100000);
}

#[test]
fn return_rate_and_age_at_sale() {
    let (conn, _hlc) = open_seeded();

    let rr = return_rate_per_item(&conn.tables).unwrap();
    let r = |id: &str| rr.iter().find(|x| x.item_id == id).unwrap();
    assert_eq!(r(WIDGET).sold_qty, 60);
    assert_eq!(r(WIDGET).returned_qty, 10);
    assert_eq!(return_rate(r(WIDGET)), Some(0.1667));
    assert_eq!(r(GADGET).returned_qty, 0);
    assert_eq!(return_rate(r(GADGET)), Some(0.0));

    let ages = age_at_sale(&conn.tables).unwrap();
    let w = ages.iter().find(|x| x.item_id == WIDGET).unwrap();
    assert_eq!(w.age_at_sale_days, 31);
    assert_eq!(w.qty_taken, 60);
    let g = ages.iter().find(|x| x.item_id == GADGET).unwrap();
    assert_eq!(g.age_at_sale_days, 13);
}

#[test]
fn profit_and_loss_and_balance_sheet() {
    let (conn, _hlc) = open_seeded();

    let pl = profit_and_loss(&conn.tables, "2026-01-01", "2026-12-31").unwrap();
    assert_eq!(pl.income_minor, 52500);
    assert_eq!(pl.expense_minor, 33000);
    assert_eq!(pl.net_profit_minor, 19500);

    let bs = balance_sheet(&conn.tables).unwrap();
    assert_eq!(bs.assets_minor, 119500);
    assert_eq!(bs.liabilities_minor, 100000);
    assert_eq!(bs.equity_minor, 0);
    assert_eq!(bs.assets_minor, bs.liabilities_minor + bs.equity_minor + pl.net_profit_minor);
}

/// A customer who is archived while owing money must stay payable, and be flagged as
/// archived so that the row reads as deliberate.
#[test]
fn an_archived_customer_with_an_open_invoice_is_still_payable() {

    let (mut conn, mut hlc) = open_seeded();
    let owed: i64 = conn.tables.sales.iter()
        .find(|s| s.party_id.as_deref() == Some(CUST) && s.outstanding_minor > 0)
        .map(|s| s.outstanding_minor)
        .expect("the fixture must leave this customer owing something");
    assert!(owed > 0);

    {
        let mut c = ctx(&mut conn, &mut hlc);
        c.physical_now = 2000;
        handle_party_updated(&mut c, CUST, json(r#"{ "active": false }"#))
            .expect("archiving with an open invoice is allowed — that is what archive is for");
    }

    let rows = payable_parties(&conn.tables, "in").unwrap();
    let found = rows.iter().find(|p| p.id == CUST)
        .expect("an archived customer who still owes must remain payable");
    assert!(found.archived, "and must be flagged so the form can label the row");

    // Active parties sort first, so the archived exception never displaces the
    // ordinary choices at the top of the dropdown.
    let first_archived = rows.iter().position(|p| p.archived);
    let last_active = rows.iter().rposition(|p| !p.archived);
    if let (Some(fa), Some(la)) = (first_archived, last_active) {
        assert!(fa > la, "archived parties must sort after active ones");
    }
}

/// The other half of the rule: archiving is meant to remove a party from the
/// forms. A party with nothing outstanding must actually disappear, or the
/// exception above would swallow the feature.
#[test]
fn an_archived_party_with_nothing_outstanding_drops_out() {

    let (mut conn, mut hlc) = open_seeded();
    {
        let mut c = ctx(&mut conn, &mut hlc);
        c.physical_now = 2000;
        handle_party_created(&mut c, "cust_quiet", "Quiet Co", "customer").unwrap();
        handle_party_updated(&mut c, "cust_quiet", json(r#"{ "active": false }"#))
            .unwrap();
    }
    let rows = payable_parties(&conn.tables, "in").unwrap();
    assert!(
        !rows.iter().any(|p| p.id == "cust_quiet"),
        "archiving must still hide a party that owes nothing"
    );
    // While active, it was offered — so the assertion above is about the
    // archive flag and not about the kind filter.
    let all = payable_parties(&conn.tables, "in").unwrap();
    assert!(all.iter().any(|p| p.id == CUST));
}

/// The supplier mirror, checked in the same pass.
#[test]
fn an_archived_supplier_with_an_open_bill_is_still_payable() {

    let (mut conn, mut hlc) = open_seeded();
    let owed: i64 = conn.tables.purchases.iter()
        .find(|s| s.party_id.as_deref() == Some(SUPP) && s.outstanding_minor > 0)
        .map(|s| s.outstanding_minor)
        .expect("the fixture must leave this supplier owed something");
    assert!(owed > 0);
    {
        let mut c = ctx(&mut conn, &mut hlc);
        c.physical_now = 2000;
        handle_party_updated(&mut c, SUPP, json(r#"{ "active": false }"#)).unwrap();
    }
    let rows = payable_parties(&conn.tables, "out").unwrap();
    let found = rows.iter().find(|p| p.id == SUPP)
        .expect("an archived supplier still owed money must remain payable");
    assert!(found.archived);
    // Direction must still partition: a supplier is not a customer.
    let money_in = payable_parties(&conn.tables, "in").unwrap();
    assert!(!money_in.iter().any(|p| p.id == SUPP));
}

/// A party carrying only an unallocated balance has no open invoice, so the
/// invoice clause alone would miss them — and an unallocated credit is exactly
/// what `PaymentAllocated` needs a party in the form to draw down.
#[test]
fn an_archived_party_holding_an_unallocated_credit_is_still_payable() {

    let (mut conn, mut hlc) = open_seeded();
    {
        let mut c = ctx(&mut conn, &mut hlc);
        c.physical_now = 2000;
        handle_party_created(&mut c, "cust_prepaid", "Prepaid Co", "customer").unwrap();
        // A pure prepayment: no invoice, just a credit held for them.
        handle_payment_received(&mut c, "pay_pre", "cust_prepaid", 2500, "2026-07-10", vec![])
            .unwrap();
        handle_party_updated(&mut c, "cust_prepaid", json(r#"{ "active": false }"#))
            .unwrap();
    }
    let rows = payable_parties(&conn.tables, "in").unwrap();
    let found = rows.iter().find(|p| p.id == "cust_prepaid")
        .expect("an archived party still holding a credit must remain payable");
    assert!(found.archived);
}

#[test]
fn payable_parties_rejects_an_unknown_direction() {
    let (conn, _) = open_seeded();
    assert!(payable_parties(&conn.tables, "sideways").is_err());
}

#[test]
fn with_nothing_to_date_there_is_nothing_to_list() {
    let db = open_in_memory_with_schema().unwrap();
    for anchor in [ANCHOR, "now", "not a date"] {
        assert_eq!(lot_ages(&db.tables, WIDGET, anchor), Ok(vec![]));
        assert_eq!(aging_buckets(&db.tables, anchor), Ok(vec![]));
        assert_eq!(receivable_aging(&db.tables, anchor), Ok(vec![]));
        assert_eq!(payable_aging(&db.tables, anchor), Ok(vec![]));
    }
    assert_eq!(age_at_sale(&db.tables), Ok(vec![]));
    let (mut conn, _) = open_seeded();
    for l in &mut conn.tables.lots {
        l.qty_remaining = 0;
    }
    assert_eq!(aging_buckets(&conn.tables, ANCHOR), Ok(vec![]));
    assert_eq!(lot_ages(&conn.tables, WIDGET, ANCHOR), Ok(vec![]));
}

#[test]
fn a_date_may_carry_a_time() {
    let (conn, _) = open_seeded();
    let t = &conn.tables;
    for at in ["2026-07-06 12:00:00", "2026-07-06T12:00:00Z", "2026-07-06 00:30"] {
        assert_eq!(gross_profit(t, at), gross_profit(t, ANCHOR));
        assert_eq!(net_profit(t, at), Ok(23500));
        assert_eq!(units_sold_by_month(t, WIDGET, at), units_sold_by_month(t, WIDGET, ANCHOR));
        assert_eq!(lot_ages(t, WIDGET, at), lot_ages(t, WIDGET, ANCHOR));
        assert_eq!(receivable_aging(t, at), receivable_aging(t, ANCHOR));
    }
    assert_eq!(lot_ages(t, WIDGET, "2026-07-06 24:00").unwrap()[0].age_days, 36);
}

#[test]
fn a_text_that_is_no_date_has_no_age() {
    let (conn, _) = open_seeded();
    let t = &conn.tables;
    for at in ["", "never", "nowhere", "2026-13-01", "06.07.2026 noon"] {
        let no_age = DbError::Null(3, "age_days".to_string());
        assert_eq!(lot_ages(t, WIDGET, at), Err(no_age));
        let no_age = DbError::Null(3, "age_days".to_string());
        assert_eq!(receivable_aging(t, at), Err(no_age));
        let buckets = aging_buckets(t, at).unwrap();
        assert_eq!(buckets.len(), 1);
        assert_eq!((buckets[0].bucket.as_str(), buckets[0].units), ("180d+", 115));
        assert_eq!(units_sold_by_month(t, WIDGET, at), Ok(vec![]));
        assert_eq!(gross_profit(t, at).unwrap().revenue_minor, 0);
        assert_eq!(net_profit(t, at), Ok(0));
    }
}
