//! Event-sourced double-entry bookkeeping for a small trading business.
//!
//! The event log is the only source of truth; every table of the read model is a
//! projection that replaying the log reproduces.

pub mod archive;
pub mod assoc;
pub mod backup;
pub mod calendar;
pub mod commands;
pub mod dataset;
pub mod dates;
pub mod db;
pub mod error;
pub mod events;
pub mod genesis;
pub mod groups;
pub mod hlc;
pub mod json;
pub mod laws;
pub mod model;
pub mod projectors;
pub mod queries;
pub mod reconciliation;
pub mod refs;
pub mod rows;
pub mod service;
pub mod settings;
pub mod sort;
pub mod sums;
pub mod tables;
pub mod text;
pub mod wire;

pub use archive::{
    export_jsonl, import_jsonl, parse_event, parse_header, ArchiveError, ArchiveHeader,
    ImportSummary,
};
pub use commands::movement::{
    handle_expense_recorded, handle_inventory_adjusted, handle_inventory_found,
    handle_transfer_recorded, AdjustLineInput, FoundLineInput,
};
pub use commands::payment::{
    handle_payment_allocated, handle_payment_made, handle_payment_received, AllocInput,
};
pub use commands::purchase::{
    handle_purchase_recorded, handle_purchase_return_recorded, PurchaseLineInput,
    PurchaseReturnLineInput,
};
pub use commands::reversal::handle_transaction_reversed;
pub use commands::sale::{
    handle_sale_recorded, handle_sale_return_recorded, SaleLineInput, SaleReturnItemInput,
};
pub use commands::setup::{
    handle_account_opened, handle_account_updated, handle_item_defined, handle_item_deleted,
    handle_item_updated, handle_party_created, handle_party_deleted, handle_party_updated,
    handle_user_registered, handle_user_updated,
};
pub use commands::{CommandContext, CommandError};
pub use db::{open_in_memory_with_schema, Database};
pub use error::DbError;
pub use events::{append_event, missing_seqs, read_events, rehydrate_from_log, LedgerEvent};
pub use genesis::{
    ensure_anon_supplier, ensure_walkin_party, run_genesis, ANON_SUPPLIER_PARTY_ID,
    SYSTEM_USER_ID, WALKIN_PARTY_ID,
};
pub use hlc::Hlc;
pub use json::Json;
pub use projectors::{apply_event, rebuild};
pub use queries::{
    age_at_sale, aging_buckets, balance_sheet, gross_margin_per_item, gross_profit,
    inventory_valuation, lot_ages, net_profit, party_balances, payable_aging, payable_parties,
    profit_and_loss, receivable_aging, return_rate_per_item, sellers_by_units, stock_on_hand,
    units_sold_by_month, AgeAtSale, AgingBucket, AgingInvoice, BalanceSheet, GrossProfit,
    ItemMargin, LotAge, MonthlyUnits, PartyBalance, PayableParty, ProfitAndLoss, ReturnRate,
    SellerRow, StockOnHand,
};
pub use reconciliation::{all_passed, run_all_checks, Check, CheckOutcome};
pub use settings::{
    ensure_device_id, get_settings, remint_device_id, set_setting, SETTING_KEYS,
};
pub use tables::Tables;
