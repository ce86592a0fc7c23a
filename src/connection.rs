use vstd::prelude::*;
use std::sync::Arc;
use crate::import::{
    import_history, import_result_spec, place_views, places_after, visits_after, ForeignDatabase,
    HistoryMigrationResult, ImportError, MIN_FOREIGN_DB_VERSION, Store,
};
use crate::interrupt::InterruptHandle;
use crate::registry::ConnectionKind;

verus! {

/// One connection to the store, with the cancellation signal that every holder
/// of it shares.
pub struct PlacesConnection {
    pub kind: ConnectionKind,
    pub store: Store,
    pub interrupt_handle: Arc<InterruptHandle>,
}

impl PlacesConnection {
    /// Wraps `store` in a connection of `kind` with a fresh, un-interrupted handle.
    pub fn new(kind: ConnectionKind, store: Store) -> (r: PlacesConnection)
        ensures
            r.kind == kind,
            r.store == store,
    {
        PlacesConnection { kind, store, interrupt_handle: Arc::new(InterruptHandle::new()) }
    }

    /// The connection's cancellation signal, shared with the caller.
    pub fn new_interrupt_handle(&self) -> (r: Arc<InterruptHandle>)
        ensures
            r == self.interrupt_handle,
    {
        Arc::clone(&self.interrupt_handle)
    }

    /// Imports a legacy history database through this connection, watching the
    /// connection's own handle for cancellation.
    pub fn import_history(&mut self, src: &ForeignDatabase) -> (r: Result<
        HistoryMigrationResult,
        ImportError,
    >)
        ensures
            final(self).kind == old(self).kind,
            src.user_version < MIN_FOREIGN_DB_VERSION ==> r == Err::<
                HistoryMigrationResult,
                ImportError,
            >(ImportError::UnsupportedDatabaseVersion(src.user_version)),
            src.user_version >= MIN_FOREIGN_DB_VERSION ==> (r is Ok || r == Err::<
                HistoryMigrationResult,
                ImportError,
            >(ImportError::Interrupted)),
            r is Err ==> final(self).store == old(self).store,
            r is Ok ==> {
                &&& place_views(final(self).store.places@) == places_after(
                    place_views(old(self).store.places@),
                    *src,
                )
                &&& final(self).store.visits@ == visits_after(
                    place_views(old(self).store.places@),
                    old(self).store.visits@,
                    *src,
                )
                &&& r->Ok_0 == import_result_spec(
                    place_views(old(self).store.places@),
                    old(self).store.visits@,
                    *src,
                )
            },
    {
        import_history(&mut self.store, src, &*self.interrupt_handle)
    }
}

} // verus!
