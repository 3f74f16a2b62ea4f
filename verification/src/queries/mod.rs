//! Reports on the read model.

pub mod aging;
pub mod common;
pub mod items;
pub mod monthly;
pub mod parties;
pub mod profit;
pub mod statements;
pub mod stock;

pub use aging::{
    age_at_sale, aging_buckets, lot_ages, payable_aging, receivable_aging, AgeAtSale, AgingBucket,
    AgingInvoice, LotAge,
};
pub use items::{
    gross_margin_per_item, return_rate_per_item, sellers_by_units, ItemMargin, ReturnRate,
    SellerRow,
};
pub use monthly::{units_sold_by_month, MonthlyUnits};
pub use parties::{party_balances, payable_parties, PartyBalance, PayableParty};
pub use profit::{gross_profit, net_profit, GrossProfit};
pub use statements::{balance_sheet, profit_and_loss, BalanceSheet, ProfitAndLoss};
pub use stock::{inventory_valuation, stock_on_hand, StockOnHand};
