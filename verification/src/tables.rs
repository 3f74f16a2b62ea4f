//! The rows of the read model.
//!
//! Each row type is generic in how text and documents are held, so that one
//! declaration serves the stored row and its mathematical value.

use crate::json::{Json, JsonV};
use crate::rows::{copy_opt, copy_rows, opt_view, rows, Keyed, Row};
use vstd::prelude::*;
use vstd::string::*;

verus! {

/// A registered user.
#[derive(Debug, PartialEq)]
#[verifier::ext_equal]
pub struct User<S = String, J = Json> {
    pub id: S,
    pub doc: J,
    pub created_at: i64,
}

impl View for User {
    type V = User<Seq<char>, JsonV>;

    open spec fn view(&self) -> User<Seq<char>, JsonV> {
        User {
            id: self.id@,
            doc: self.doc@,
            created_at: self.created_at,
        }
    }
}

impl Keyed for User<Seq<char>, JsonV> {
    open spec fn key(self) -> Seq<char> {
        self.id
    }
}

impl Row for User {
    fn id(&self) -> &str {
        self.id.as_str()
    }

    fn copy(&self) -> Self {
        User {
            id: self.id.clone(),
            doc: self.doc.copy(),
            created_at: self.created_at,
        }
    }
}

/// A ledger account with its running balance.
#[derive(Debug, PartialEq)]
#[verifier::ext_equal]
pub struct Account<S = String, J = Json> {
    pub id: S,
    pub doc: J,
    pub balance_minor: i64,
}

impl View for Account {
    type V = Account<Seq<char>, JsonV>;

    open spec fn view(&self) -> Account<Seq<char>, JsonV> {
        Account {
            id: self.id@,
            doc: self.doc@,
            balance_minor: self.balance_minor,
        }
    }
}

impl Keyed for Account<Seq<char>, JsonV> {
    open spec fn key(self) -> Seq<char> {
        self.id
    }
}

impl Row for Account {
    fn id(&self) -> &str {
        self.id.as_str()
    }

    fn copy(&self) -> Self {
        Account {
            id: self.id.clone(),
            doc: self.doc.copy(),
            balance_minor: self.balance_minor,
        }
    }
}

/// A stocked item.
#[derive(Debug, PartialEq)]
#[verifier::ext_equal]
pub struct Item<S = String, J = Json> {
    pub id: S,
    pub doc: J,
}

impl View for Item {
    type V = Item<Seq<char>, JsonV>;

    open spec fn view(&self) -> Item<Seq<char>, JsonV> {
        Item {
            id: self.id@,
            doc: self.doc@,
        }
    }
}

impl Keyed for Item<Seq<char>, JsonV> {
    open spec fn key(self) -> Seq<char> {
        self.id
    }
}

impl Row for Item {
    fn id(&self) -> &str {
        self.id.as_str()
    }

    fn copy(&self) -> Self {
        Item {
            id: self.id.clone(),
            doc: self.doc.copy(),
        }
    }
}

/// A customer or supplier.
#[derive(Debug, PartialEq)]
#[verifier::ext_equal]
pub struct Party<S = String, J = Json> {
    pub id: S,
    pub doc: J,
}

impl View for Party {
    type V = Party<Seq<char>, JsonV>;

    open spec fn view(&self) -> Party<Seq<char>, JsonV> {
        Party {
            id: self.id@,
            doc: self.doc@,
        }
    }
}

impl Keyed for Party<Seq<char>, JsonV> {
    open spec fn key(self) -> Seq<char> {
        self.id
    }
}

impl Row for Party {
    fn id(&self) -> &str {
        self.id.as_str()
    }

    fn copy(&self) -> Self {
        Party {
            id: self.id.clone(),
            doc: self.doc.copy(),
        }
    }
}

/// A batch of one item acquired at one cost.
#[derive(Debug, PartialEq)]
#[verifier::ext_equal]
pub struct Lot<S = String> {
    pub id: S,
    pub item_id: S,
    pub source_event_id: S,
    pub purchase_id: Option<S>,
    pub unit_cost_minor: i64,
    pub qty_received: i64,
    pub qty_remaining: i64,
    pub acquired_at: S,
    pub supplier_id: Option<S>,
}

impl View for Lot {
    type V = Lot<Seq<char>>;

    open spec fn view(&self) -> Lot<Seq<char>> {
        Lot {
            id: self.id@,
            item_id: self.item_id@,
            source_event_id: self.source_event_id@,
            purchase_id: opt_view(self.purchase_id),
            unit_cost_minor: self.unit_cost_minor,
            qty_received: self.qty_received,
            qty_remaining: self.qty_remaining,
            acquired_at: self.acquired_at@,
            supplier_id: opt_view(self.supplier_id),
        }
    }
}

impl Keyed for Lot<Seq<char>> {
    open spec fn key(self) -> Seq<char> {
        self.id
    }
}

impl Row for Lot {
    fn id(&self) -> &str {
        self.id.as_str()
    }

    fn copy(&self) -> Self {
        Lot {
            id: self.id.clone(),
            item_id: self.item_id.clone(),
            source_event_id: self.source_event_id.clone(),
            purchase_id: copy_opt(&self.purchase_id),
            unit_cost_minor: self.unit_cost_minor,
            qty_received: self.qty_received,
            qty_remaining: self.qty_remaining,
            acquired_at: self.acquired_at.clone(),
            supplier_id: copy_opt(&self.supplier_id),
        }
    }
}

/// One posting to an account.
#[derive(Debug, PartialEq)]
#[verifier::ext_equal]
pub struct JournalLine<S = String> {
    pub id: S,
    pub event_id: S,
    pub txn_id: S,
    pub account_id: S,
    pub debit_minor: i64,
    pub credit_minor: i64,
    pub date: S,
    pub memo: Option<S>,
}

impl View for JournalLine {
    type V = JournalLine<Seq<char>>;

    open spec fn view(&self) -> JournalLine<Seq<char>> {
        JournalLine {
            id: self.id@,
            event_id: self.event_id@,
            txn_id: self.txn_id@,
            account_id: self.account_id@,
            debit_minor: self.debit_minor,
            credit_minor: self.credit_minor,
            date: self.date@,
            memo: opt_view(self.memo),
        }
    }
}

impl Keyed for JournalLine<Seq<char>> {
    open spec fn key(self) -> Seq<char> {
        self.id
    }
}

impl Row for JournalLine {
    fn id(&self) -> &str {
        self.id.as_str()
    }

    fn copy(&self) -> Self {
        JournalLine {
            id: self.id.clone(),
            event_id: self.event_id.clone(),
            txn_id: self.txn_id.clone(),
            account_id: self.account_id.clone(),
            debit_minor: self.debit_minor,
            credit_minor: self.credit_minor,
            date: self.date.clone(),
            memo: copy_opt(&self.memo),
        }
    }
}

/// A sale or a purchase.
///
/// `party_id` is the customer of a sale and the supplier of a purchase.
#[derive(Debug, PartialEq)]
#[verifier::ext_equal]
pub struct Invoice<S = String> {
    pub id: S,
    pub event_id: S,
    pub party_id: Option<S>,
    pub date: S,
    pub terms: S,
    pub total_minor: i64,
    pub outstanding_minor: i64,
    pub reversed: bool,
}

impl View for Invoice {
    type V = Invoice<Seq<char>>;

    open spec fn view(&self) -> Invoice<Seq<char>> {
        Invoice {
            id: self.id@,
            event_id: self.event_id@,
            party_id: opt_view(self.party_id),
            date: self.date@,
            terms: self.terms@,
            total_minor: self.total_minor,
            outstanding_minor: self.outstanding_minor,
            reversed: self.reversed,
        }
    }
}

impl Keyed for Invoice<Seq<char>> {
    open spec fn key(self) -> Seq<char> {
        self.id
    }
}

impl Row for Invoice {
    fn id(&self) -> &str {
        self.id.as_str()
    }

    fn copy(&self) -> Self {
        Invoice {
            id: self.id.clone(),
            event_id: self.event_id.clone(),
            party_id: copy_opt(&self.party_id),
            date: self.date.clone(),
            terms: self.terms.clone(),
            total_minor: self.total_minor,
            outstanding_minor: self.outstanding_minor,
            reversed: self.reversed,
        }
    }
}

/// One item on a sale, with its profit frozen.
#[derive(Debug, PartialEq)]
#[verifier::ext_equal]
pub struct SaleLine<S = String> {
    pub id: S,
    pub sale_id: S,
    pub item_id: S,
    pub qty: i64,
    pub unit_price_minor: i64,
    pub revenue_minor: i64,
    pub cogs_minor: i64,
    pub date: S,
}

impl View for SaleLine {
    type V = SaleLine<Seq<char>>;

    open spec fn view(&self) -> SaleLine<Seq<char>> {
        SaleLine {
            id: self.id@,
            sale_id: self.sale_id@,
            item_id: self.item_id@,
            qty: self.qty,
            unit_price_minor: self.unit_price_minor,
            revenue_minor: self.revenue_minor,
            cogs_minor: self.cogs_minor,
            date: self.date@,
        }
    }
}

impl Keyed for SaleLine<Seq<char>> {
    open spec fn key(self) -> Seq<char> {
        self.id
    }
}

impl Row for SaleLine {
    fn id(&self) -> &str {
        self.id.as_str()
    }

    fn copy(&self) -> Self {
        SaleLine {
            id: self.id.clone(),
            sale_id: self.sale_id.clone(),
            item_id: self.item_id.clone(),
            qty: self.qty,
            unit_price_minor: self.unit_price_minor,
            revenue_minor: self.revenue_minor,
            cogs_minor: self.cogs_minor,
            date: self.date.clone(),
        }
    }
}

/// Units that a sale line took out of a lot.
#[derive(Debug, PartialEq)]
#[verifier::ext_equal]
pub struct LotConsumption<S = String> {
    pub id: S,
    pub sale_line_id: S,
    pub lot_id: S,
    pub qty_taken: i64,
    pub unit_cost_minor: i64,
}

impl View for LotConsumption {
    type V = LotConsumption<Seq<char>>;

    open spec fn view(&self) -> LotConsumption<Seq<char>> {
        LotConsumption {
            id: self.id@,
            sale_line_id: self.sale_line_id@,
            lot_id: self.lot_id@,
            qty_taken: self.qty_taken,
            unit_cost_minor: self.unit_cost_minor,
        }
    }
}

impl Keyed for LotConsumption<Seq<char>> {
    open spec fn key(self) -> Seq<char> {
        self.id
    }
}

impl Row for LotConsumption {
    fn id(&self) -> &str {
        self.id.as_str()
    }

    fn copy(&self) -> Self {
        LotConsumption {
            id: self.id.clone(),
            sale_line_id: self.sale_line_id.clone(),
            lot_id: self.lot_id.clone(),
            qty_taken: self.qty_taken,
            unit_cost_minor: self.unit_cost_minor,
        }
    }
}

/// One item on a purchase, with the lot it created.
#[derive(Debug, PartialEq)]
#[verifier::ext_equal]
pub struct PurchaseLine<S = String> {
    pub id: S,
    pub purchase_id: S,
    pub item_id: S,
    pub qty: i64,
    pub unit_cost_minor: i64,
    pub lot_id: S,
}

impl View for PurchaseLine {
    type V = PurchaseLine<Seq<char>>;

    open spec fn view(&self) -> PurchaseLine<Seq<char>> {
        PurchaseLine {
            id: self.id@,
            purchase_id: self.purchase_id@,
            item_id: self.item_id@,
            qty: self.qty,
            unit_cost_minor: self.unit_cost_minor,
            lot_id: self.lot_id@,
        }
    }
}

impl Keyed for PurchaseLine<Seq<char>> {
    open spec fn key(self) -> Seq<char> {
        self.id
    }
}

impl Row for PurchaseLine {
    fn id(&self) -> &str {
        self.id.as_str()
    }

    fn copy(&self) -> Self {
        PurchaseLine {
            id: self.id.clone(),
            purchase_id: self.purchase_id.clone(),
            item_id: self.item_id.clone(),
            qty: self.qty,
            unit_cost_minor: self.unit_cost_minor,
            lot_id: self.lot_id.clone(),
        }
    }
}

/// Money received from or paid to a party.
#[derive(Debug, PartialEq)]
#[verifier::ext_equal]
pub struct Payment<S = String> {
    pub id: S,
    pub event_id: S,
    pub party_id: S,
    pub direction: S,
    pub amount_minor: i64,
    pub date: S,
}

impl View for Payment {
    type V = Payment<Seq<char>>;

    open spec fn view(&self) -> Payment<Seq<char>> {
        Payment {
            id: self.id@,
            event_id: self.event_id@,
            party_id: self.party_id@,
            direction: self.direction@,
            amount_minor: self.amount_minor,
            date: self.date@,
        }
    }
}

impl Keyed for Payment<Seq<char>> {
    open spec fn key(self) -> Seq<char> {
        self.id
    }
}

impl Row for Payment {
    fn id(&self) -> &str {
        self.id.as_str()
    }

    fn copy(&self) -> Self {
        Payment {
            id: self.id.clone(),
            event_id: self.event_id.clone(),
            party_id: self.party_id.clone(),
            direction: self.direction.clone(),
            amount_minor: self.amount_minor,
            date: self.date.clone(),
        }
    }
}

/// The part of a payment that settles one invoice.
#[derive(Debug, PartialEq)]
#[verifier::ext_equal]
pub struct Allocation<S = String> {
    pub id: S,
    pub event_id: S,
    pub payment_id: S,
    pub target_id: S,
    pub target_type: S,
    pub amount_minor: i64,
}

impl View for Allocation {
    type V = Allocation<Seq<char>>;

    open spec fn view(&self) -> Allocation<Seq<char>> {
        Allocation {
            id: self.id@,
            event_id: self.event_id@,
            payment_id: self.payment_id@,
            target_id: self.target_id@,
            target_type: self.target_type@,
            amount_minor: self.amount_minor,
        }
    }
}

impl Keyed for Allocation<Seq<char>> {
    open spec fn key(self) -> Seq<char> {
        self.id
    }
}

impl Row for Allocation {
    fn id(&self) -> &str {
        self.id.as_str()
    }

    fn copy(&self) -> Self {
        Allocation {
            id: self.id.clone(),
            event_id: self.event_id.clone(),
            payment_id: self.payment_id.clone(),
            target_id: self.target_id.clone(),
            target_type: self.target_type.clone(),
            amount_minor: self.amount_minor,
        }
    }
}

/// What a party owes and is owed.
#[derive(Debug, PartialEq)]
#[verifier::ext_equal]
pub struct Balance<S = String> {
    pub party_id: S,
    pub receivable_minor: i64,
    pub payable_minor: i64,
    pub unallocated_cr_minor: i64,
    pub unallocated_dr_minor: i64,
}

impl View for Balance {
    type V = Balance<Seq<char>>;

    open spec fn view(&self) -> Balance<Seq<char>> {
        Balance {
            party_id: self.party_id@,
            receivable_minor: self.receivable_minor,
            payable_minor: self.payable_minor,
            unallocated_cr_minor: self.unallocated_cr_minor,
            unallocated_dr_minor: self.unallocated_dr_minor,
        }
    }
}

impl Keyed for Balance<Seq<char>> {
    open spec fn key(self) -> Seq<char> {
        self.party_id
    }
}

impl Row for Balance {
    fn id(&self) -> &str {
        self.party_id.as_str()
    }

    fn copy(&self) -> Self {
        Balance {
            party_id: self.party_id.clone(),
            receivable_minor: self.receivable_minor,
            payable_minor: self.payable_minor,
            unallocated_cr_minor: self.unallocated_cr_minor,
            unallocated_dr_minor: self.unallocated_dr_minor,
        }
    }
}

/// Goods given back to the business or to a supplier.
#[derive(Debug, PartialEq)]
#[verifier::ext_equal]
pub struct Return<S = String> {
    pub id: S,
    pub event_id: S,
    pub return_type: S,
    pub original_id: S,
    pub date: S,
    pub revenue_reversed_minor: i64,
    pub cost_restored_minor: i64,
}

impl View for Return {
    type V = Return<Seq<char>>;

    open spec fn view(&self) -> Return<Seq<char>> {
        Return {
            id: self.id@,
            event_id: self.event_id@,
            return_type: self.return_type@,
            original_id: self.original_id@,
            date: self.date@,
            revenue_reversed_minor: self.revenue_reversed_minor,
            cost_restored_minor: self.cost_restored_minor,
        }
    }
}

impl Keyed for Return<Seq<char>> {
    open spec fn key(self) -> Seq<char> {
        self.id
    }
}

impl Row for Return {
    fn id(&self) -> &str {
        self.id.as_str()
    }

    fn copy(&self) -> Self {
        Return {
            id: self.id.clone(),
            event_id: self.event_id.clone(),
            return_type: self.return_type.clone(),
            original_id: self.original_id.clone(),
            date: self.date.clone(),
            revenue_reversed_minor: self.revenue_reversed_minor,
            cost_restored_minor: self.cost_restored_minor,
        }
    }
}

/// Units of one lot on a return.
#[derive(Debug, PartialEq)]
#[verifier::ext_equal]
pub struct ReturnLine<S = String> {
    pub id: S,
    pub return_id: S,
    pub item_id: S,
    pub qty: i64,
    pub unit_price_minor: i64,
    pub unit_cost_minor: i64,
    pub lot_id: S,
}

impl View for ReturnLine {
    type V = ReturnLine<Seq<char>>;

    open spec fn view(&self) -> ReturnLine<Seq<char>> {
        ReturnLine {
            id: self.id@,
            return_id: self.return_id@,
            item_id: self.item_id@,
            qty: self.qty,
            unit_price_minor: self.unit_price_minor,
            unit_cost_minor: self.unit_cost_minor,
            lot_id: self.lot_id@,
        }
    }
}

impl Keyed for ReturnLine<Seq<char>> {
    open spec fn key(self) -> Seq<char> {
        self.id
    }
}

impl Row for ReturnLine {
    fn id(&self) -> &str {
        self.id.as_str()
    }

    fn copy(&self) -> Self {
        ReturnLine {
            id: self.id.clone(),
            return_id: self.return_id.clone(),
            item_id: self.item_id.clone(),
            qty: self.qty,
            unit_price_minor: self.unit_price_minor,
            unit_cost_minor: self.unit_cost_minor,
            lot_id: self.lot_id.clone(),
        }
    }
}

/// A recorded expense.
#[derive(Debug, PartialEq)]
#[verifier::ext_equal]
pub struct Expense<S = String> {
    pub id: S,
    pub event_id: S,
    pub account_id: S,
    pub amount_minor: i64,
    pub date: S,
    pub memo: Option<S>,
    pub terms: S,
}

impl View for Expense {
    type V = Expense<Seq<char>>;

    open spec fn view(&self) -> Expense<Seq<char>> {
        Expense {
            id: self.id@,
            event_id: self.event_id@,
            account_id: self.account_id@,
            amount_minor: self.amount_minor,
            date: self.date@,
            memo: opt_view(self.memo),
            terms: self.terms@,
        }
    }
}

impl Keyed for Expense<Seq<char>> {
    open spec fn key(self) -> Seq<char> {
        self.id
    }
}

impl Row for Expense {
    fn id(&self) -> &str {
        self.id.as_str()
    }

    fn copy(&self) -> Self {
        Expense {
            id: self.id.clone(),
            event_id: self.event_id.clone(),
            account_id: self.account_id.clone(),
            amount_minor: self.amount_minor,
            date: self.date.clone(),
            memo: copy_opt(&self.memo),
            terms: self.terms.clone(),
        }
    }
}

/// The read model: every table that the event log projects into.
#[derive(Debug, PartialEq)]
pub struct Tables {
    /// Registered users.
    pub users: Vec<User>,
    /// The chart of accounts.
    pub accounts: Vec<Account>,
    /// Stocked items.
    pub items: Vec<Item>,
    /// Customers and suppliers.
    pub parties: Vec<Party>,
    /// Inventory lots.
    pub lots: Vec<Lot>,
    /// Journal lines.
    pub journal: Vec<JournalLine>,
    /// Sales.
    pub sales: Vec<Invoice>,
    /// Lines of sales.
    pub sale_lines: Vec<SaleLine>,
    /// Lot consumptions of sale lines.
    pub consumptions: Vec<LotConsumption>,
    /// Purchases.
    pub purchases: Vec<Invoice>,
    /// Lines of purchases.
    pub purchase_lines: Vec<PurchaseLine>,
    /// Payments in both directions.
    pub payments: Vec<Payment>,
    /// Payment allocations.
    pub allocations: Vec<Allocation>,
    /// Party balances.
    pub balances: Vec<Balance>,
    /// Returns in both directions.
    pub returns: Vec<Return>,
    /// Lines of returns.
    pub return_lines: Vec<ReturnLine>,
    /// Expenses.
    pub expenses: Vec<Expense>,
}

/// The mathematical value of the read model.
#[verifier::ext_equal]
pub struct ReadModel {
    pub users: Seq<User<Seq<char>, JsonV>>,
    pub accounts: Seq<Account<Seq<char>, JsonV>>,
    pub items: Seq<Item<Seq<char>, JsonV>>,
    pub parties: Seq<Party<Seq<char>, JsonV>>,
    pub lots: Seq<Lot<Seq<char>>>,
    pub journal: Seq<JournalLine<Seq<char>>>,
    pub sales: Seq<Invoice<Seq<char>>>,
    pub sale_lines: Seq<SaleLine<Seq<char>>>,
    pub consumptions: Seq<LotConsumption<Seq<char>>>,
    pub purchases: Seq<Invoice<Seq<char>>>,
    pub purchase_lines: Seq<PurchaseLine<Seq<char>>>,
    pub payments: Seq<Payment<Seq<char>>>,
    pub allocations: Seq<Allocation<Seq<char>>>,
    pub balances: Seq<Balance<Seq<char>>>,
    pub returns: Seq<Return<Seq<char>>>,
    pub return_lines: Seq<ReturnLine<Seq<char>>>,
    pub expenses: Seq<Expense<Seq<char>>>,
}

impl View for Tables {
    type V = ReadModel;

    open spec fn view(&self) -> ReadModel {
        ReadModel {
            users: rows(self.users@),
            accounts: rows(self.accounts@),
            items: rows(self.items@),
            parties: rows(self.parties@),
            lots: rows(self.lots@),
            journal: rows(self.journal@),
            sales: rows(self.sales@),
            sale_lines: rows(self.sale_lines@),
            consumptions: rows(self.consumptions@),
            purchases: rows(self.purchases@),
            purchase_lines: rows(self.purchase_lines@),
            payments: rows(self.payments@),
            allocations: rows(self.allocations@),
            balances: rows(self.balances@),
            returns: rows(self.returns@),
            return_lines: rows(self.return_lines@),
            expenses: rows(self.expenses@),
        }
    }
}

/// The read model of an empty log.
pub open spec fn no_rows() -> ReadModel {
    ReadModel {
        users: Seq::empty(),
        accounts: Seq::empty(),
        items: Seq::empty(),
        parties: Seq::empty(),
        lots: Seq::empty(),
        journal: Seq::empty(),
        sales: Seq::empty(),
        sale_lines: Seq::empty(),
        consumptions: Seq::empty(),
        purchases: Seq::empty(),
        purchase_lines: Seq::empty(),
        payments: Seq::empty(),
        allocations: Seq::empty(),
        balances: Seq::empty(),
        returns: Seq::empty(),
        return_lines: Seq::empty(),
        expenses: Seq::empty(),
    }
}

impl Tables {
    /// Tables without rows.
    pub fn new() -> (r: Tables)
        ensures
            r@ == no_rows(),
    {
        let t = Tables {
            users: Vec::new(),
            accounts: Vec::new(),
            items: Vec::new(),
            parties: Vec::new(),
            lots: Vec::new(),
            journal: Vec::new(),
            sales: Vec::new(),
            sale_lines: Vec::new(),
            consumptions: Vec::new(),
            purchases: Vec::new(),
            purchase_lines: Vec::new(),
            payments: Vec::new(),
            allocations: Vec::new(),
            balances: Vec::new(),
            returns: Vec::new(),
            return_lines: Vec::new(),
            expenses: Vec::new(),
        };
        assert(t@ =~= no_rows());
        t
    }

    /// The same tables again.
    pub fn copy(&self) -> (r: Tables)
        ensures
            r@ == self@,
    {
        Tables {
            users: copy_rows(&self.users),
            accounts: copy_rows(&self.accounts),
            items: copy_rows(&self.items),
            parties: copy_rows(&self.parties),
            lots: copy_rows(&self.lots),
            journal: copy_rows(&self.journal),
            sales: copy_rows(&self.sales),
            sale_lines: copy_rows(&self.sale_lines),
            consumptions: copy_rows(&self.consumptions),
            purchases: copy_rows(&self.purchases),
            purchase_lines: copy_rows(&self.purchase_lines),
            payments: copy_rows(&self.payments),
            allocations: copy_rows(&self.allocations),
            balances: copy_rows(&self.balances),
            returns: copy_rows(&self.returns),
            return_lines: copy_rows(&self.return_lines),
            expenses: copy_rows(&self.expenses),
        }
    }
}

} // verus!
