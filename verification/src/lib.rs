//! Fine-grained reactive state.
//!
//! An [`ObservableValue`] is a cell whose reads are tracked and whose writes
//! notify. A read made while an observation session is installed in an
//! [`ObserverScope`] links the cell to that session; a write calls every
//! explicit subscriber with the new value and then runs the invalidate
//! action of every linked session that is still live. A [`StoreRegistry`]
//! keeps one instance of each kind of store, a bundle of such cells, and a
//! [`ContextManager`] keeps named registries.
//!
//! All state is owned and passed explicitly: the scope that a read consults
//! and a write notifies is an argument, and a registry hands out references
//! to the stores it owns.

pub mod context;
pub mod observable;
pub mod observer;
pub mod prelude;
pub mod seqs;
pub mod store;

pub use context::{
    create_named_context, current_context, get_context_store, provide_store, switch_to_context,
    use_context_store, ContextManager, ManagerState, StoreContext,
};
pub use observable::{
    observable, observable_bool, observable_map, observable_number, observable_option,
    observable_string, observable_vec, CellState, Fired, Notified, Observable, ObservableBool,
    ObservableI32, ObservableMap, ObservableOption, ObservableString, ObservableU32,
    ObservableValue, ObservableVec,
};
pub use observer::{ObserverContext, ObserverScope, ScopeState};
pub use store::{
    clear_all_stores, create_store, get_store, has_store, init_global_stores, register_store,
    remove_store, store_action, store_action_mut, store_count, use_store, GlobalStore,
    SimpleStore, Store, StoreRegistry,
};

use vstd::prelude::*;

verus! {

/// The library as a whole.
pub struct Reaxion;

impl Reaxion {
    /// The version of the library.
    pub fn version() -> (version: &'static str)
        ensures
            version@ == "1.0.0"@,
    {
        "1.0.0"
    }

    /// Prepares the library for use.
    pub fn init() {
        init_global_stores();
    }
}

} // verus!
