//! The store: the event log, the settings and the read model.

use crate::error::DbError;
use crate::events::LedgerEvent;
use crate::json::JsonV;
use crate::rows::rows;
use crate::settings::Settings;
use crate::tables::{no_rows, ReadModel, Tables};
use vstd::prelude::*;

verus! {

/// The store of one business.
#[derive(Debug)]
pub struct Database {
    /// The append-only event log, in the order in which events arrived.
    pub events: Vec<LedgerEvent>,
    /// Settings of this install. They are no projection: a rebuild keeps them.
    pub settings: Settings,
    /// The read model.
    pub tables: Tables,
    /// The stamp of the last event that the read model reflects, set by a rebuild.
    pub cursor: Option<String>,
}

/// The mathematical value of the store.
#[verifier::ext_equal]
pub struct Store {
    pub events: Seq<LedgerEvent<Seq<char>, JsonV>>,
    pub settings: Map<Seq<char>, Seq<char>>,
    pub model: ReadModel,
    pub cursor: Option<Seq<char>>,
}

impl View for Database {
    type V = Store;

    open spec fn view(&self) -> Store {
        Store {
            events: rows(self.events@),
            settings: self.settings@,
            model: self.tables@,
            cursor: crate::rows::opt_view(self.cursor),
        }
    }
}

/// A store that nothing was written to.
pub open spec fn empty_store() -> Store {
    Store {
        events: Seq::empty(),
        settings: Map::empty(),
        model: no_rows(),
        cursor: None,
    }
}

/// Opens an empty store.
pub fn open_in_memory_with_schema() -> (r: Result<Database, DbError>)
    ensures
        r matches Ok(db) && db@ == empty_store(),
{
    let db = Database {
        events: Vec::new(),
        settings: Settings::new(),
        tables: Tables::new(),
        cursor: None,
    };
    assert(db@.events =~= empty_store().events);
    Ok(db)
}

} // verus!
