use accounting_core::service::{
    create_item, create_party, get_dashboard, get_profit, get_stock, open_ledger, profit_since,
    record_payment, record_purchase, record_sale, AllocationDto, AppError, DashboardData,
    ItemInput, PartyInput, PaymentInput, ProfitData, PurchaseInput, PurchaseLineDto, SaleInput,
    SaleLineDto, StockRow, OWNER_ID,
};
use accounting_core::{
    open_in_memory_with_schema, ArchiveError, CommandContext, CommandError, Database, DbError,
    Hlc, ANON_SUPPLIER_PARTY_ID, WALKIN_PARTY_ID,
};

fn opened() -> (Database, Hlc) {
    let mut db = open_in_memory_with_schema().unwrap();
    let hlc = open_ledger(&mut db, 1000).unwrap();
    (db, hlc)
}

fn ctx<'a>(conn: &'a mut Database, hlc: &'a mut Hlc) -> CommandContext<'a> {
    let device_id = conn.settings.get("device_id").unwrap().to_string();
    CommandContext { conn, hlc, physical_now: 2000, device_id, user_id: OWNER_ID.to_string() }
}

fn item(id: &str) -> ItemInput {
    ItemInput {
        id: id.to_string(),
        sku: format!("SKU-{id}"),
        name: id.to_string(),
        unit: "ea".to_string(),
    }
}

fn party(id: &str, kind: &str) -> PartyInput {
    PartyInput { id: id.to_string(), name: id.to_string(), kind: kind.to_string() }
}

fn purchase(id: &str, supplier: &str, terms: &str, qty: i64, cost: i64) -> PurchaseInput {
    PurchaseInput {
        id: id.to_string(),
        supplier_id: supplier.to_string(),
        date: "2026-06-01".to_string(),
        terms: terms.to_string(),
        lines: vec![PurchaseLineDto {
            item_id: "i1".to_string(),
            qty,
            unit_cost_minor: cost,
        }],
    }
}

fn sale(id: &str, customer: &str, terms: &str, qty: i64, price: i64) -> SaleInput {
    SaleInput {
        id: id.to_string(),
        customer_id: customer.to_string(),
        date: "2026-07-01".to_string(),
        terms: terms.to_string(),
        lines: vec![SaleLineDto {
            item_id: "i1".to_string(),
            qty,
            unit_price_minor: price,
        }],
    }
}

fn trading() -> (Database, Hlc) {
    let (mut db, mut hlc) = opened();
    let mut c = ctx(&mut db, &mut hlc);
    create_item(&mut c, &item("i1")).unwrap();
    create_party(&mut c, &party("sup", "supplier")).unwrap();
    create_party(&mut c, &party("cust", "customer")).unwrap();
    record_purchase(&mut c, &purchase("p1", "sup", "credit", 10, 100)).unwrap();
    record_sale(&mut c, &sale("s1", "cust", "credit", 4, 250)).unwrap();
    (db, hlc)
}

#[test]
fn a_trading_day_shows_on_the_dashboard() {
    let (mut db, mut hlc) = trading();
    assert_eq!(
        get_dashboard(&db.tables).unwrap(),
        DashboardData {
            inventory_value: 600,
            total_receivable: 1000,
            total_payable: 1000,
            checks_passing: true,
        }
    );
    assert_eq!(
        get_stock(&db.tables).unwrap(),
        vec![StockRow { item_id: "i1".to_string(), qty: 6 }]
    );
    let paid = PaymentInput {
        id: "pay1".to_string(),
        customer_id: "cust".to_string(),
        amount_minor: 700,
        date: "2026-07-02".to_string(),
        allocations: vec![AllocationDto {
            target_id: "s1".to_string(),
            target_type: "sale".to_string(),
            amount_minor: 700,
        }],
    };
    record_payment(&mut ctx(&mut db, &mut hlc), &paid).unwrap();
    assert_eq!(get_dashboard(&db.tables).unwrap().total_receivable, 300);
}

#[test]
fn profit_counts_the_last_half_year() {
    let (db, _) = trading();
    let expected = ProfitData {
        revenue_minor: 1000,
        cogs_minor: 400,
        gross_profit_minor: 600,
        net_profit_minor: 600,
    };
    assert_eq!(get_profit(&db.tables, "2026-07-06").unwrap(), expected);
    assert_eq!(get_profit(&db.tables, "2026-12-31").unwrap(), expected);
    let nothing =
        ProfitData { revenue_minor: 0, cogs_minor: 0, gross_profit_minor: 0, net_profit_minor: 0 };
    assert_eq!(get_profit(&db.tables, "2027-03-01").unwrap(), nothing);
    assert_eq!(profit_since(&db.tables, Some("2026-07-01")).unwrap(), expected);
    assert_eq!(profit_since(&db.tables, Some("2026-07-02")).unwrap(), nothing);
}

#[test]
fn a_refused_command_is_shown_with_its_reason() {
    let (mut db, mut hlc) = trading();
    let before = db.events.len();
    let err = record_sale(&mut ctx(&mut db, &mut hlc), &sale("s2", "cust", "barter", 1, 1))
        .unwrap_err();
    assert_eq!(err.message, "validation error: invalid terms: barter");
    assert!(record_sale(&mut ctx(&mut db, &mut hlc), &sale("s2", "cust", "cash", 7, 1)).is_err());
    assert_eq!(db.events.len(), before);
}

#[test]
fn seeded_parties_trade_for_cash_only() {
    let (mut db, mut hlc) = trading();
    let mut c = ctx(&mut db, &mut hlc);
    assert!(record_sale(&mut c, &sale("s2", WALKIN_PARTY_ID, "credit", 1, 250)).is_err());
    record_sale(&mut c, &sale("s2", WALKIN_PARTY_ID, "cash", 1, 250)).unwrap();
    assert!(
        record_purchase(&mut c, &purchase("p2", ANON_SUPPLIER_PARTY_ID, "credit", 1, 90)).is_err()
    );
    record_purchase(&mut c, &purchase("p2", ANON_SUPPLIER_PARTY_ID, "cash", 1, 90)).unwrap();
}

#[test]
fn errors_are_shown_by_where_they_come_from() {
    assert_eq!(
        AppError::of_command(&CommandError::Validation("no".to_string())).message,
        "validation error: no"
    );
    for (e, shown) in [
        (DbError::Unique("items.sku".to_string()), "UNIQUE constraint failed: items.sku"),
        (DbError::ForeignKey, "FOREIGN KEY constraint failed"),
        (DbError::NoRows, "Query returned no rows"),
        (
            DbError::NoHandler("A".to_string()),
            "projector has no handler for event type: A",
        ),
        (DbError::Null(1, "name".to_string()), "Invalid column type Null at index: 1, name: name"),
        (DbError::NotARecord, "document is not a record"),
        (DbError::Overflow, "integer overflow"),
        (DbError::Refused("no".to_string()), "no"),
    ] {
        assert_eq!(AppError::of_store(&e).message, format!("database error: {shown}"));
        assert_eq!(AppError::of_command(&CommandError::Db(e)).message, format!("db error: {shown}"));
    }
    for (e, shown) in [
        (ArchiveError::Format("x".to_string()), "unrecognised backup file: x"),
        (
            ArchiveError::Parse { line: 3, message: "x".to_string() },
            "backup file is damaged at line 3: x",
        ),
        (
            ArchiveError::Reconciliation("x".to_string()),
            "import was cancelled because the combined ledger did not balance: x",
        ),
        (ArchiveError::Io("x".to_string()), "could not read or write the file: x"),
    ] {
        assert_eq!(AppError::of_archive(&e).message, shown);
    }
}
