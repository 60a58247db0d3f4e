//! The names that most users of the library need.

pub use crate::context::{
    create_named_context, current_context, get_context_store, provide_store, switch_to_context,
    use_context_store, ContextManager, StoreContext,
};
pub use crate::observable::{
    observable, observable_bool, observable_map, observable_number, observable_option,
    observable_string, observable_vec, Fired, Notified, Observable, ObservableBool, ObservableI32,
    ObservableMap, ObservableOption, ObservableString, ObservableU32, ObservableValue,
    ObservableVec,
};
pub use crate::observer::{ObserverContext, ObserverScope};
pub use crate::store::{
    clear_all_stores, create_store, get_store, has_store, register_store, remove_store,
    store_action, store_action_mut, store_count, use_store, GlobalStore, SimpleStore, Store,
    StoreRegistry,
};
