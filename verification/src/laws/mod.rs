//! Laws of the ledger: what holds of every event, whatever it carries.

pub mod accounts;
pub mod archives;
pub mod bookings;
pub mod bounds;
pub mod checks;
pub mod dated;
pub mod double_entry;
pub mod dues;
pub mod fair;
pub mod fifo;
pub mod frames;
pub mod granted;
pub mod inputs;
pub mod instep;
pub mod keys;
pub mod known;
pub mod logs;
pub mod masters;
pub mod offers;
pub mod oldest;
pub mod opening;
pub mod owing;
pub mod parties;
pub mod periods;
pub mod prices;
pub mod replay;
pub mod reports;
pub mod requests;
pub mod reversal;
pub mod roles;
pub mod sales;
pub mod settling;
pub mod stock;
pub mod totals;
pub mod unbooked;
pub mod undo;
pub mod unpaid;
pub mod written;
