//! Stores and the registry that keeps one instance of each kind.
//!
//! A store is a bundle of observable cells. The registry owns the bundles
//! and hands out references to them: everyone who asks for the store of a
//! kind is given the same instance, so a change made through one handle is
//! what the next handle sees. A store that is registered is kept under its
//! own kind; a store that is made because a kind was asked for is kept
//! under the kind that was asked for.

use crate::observable::{fans_out, CellState, Notified, Observable, ObservableValue};
use crate::observer::ObserverScope;
use std::collections::hash_map::Entry;
use std::collections::HashMap;
use vstd::prelude::*;

verus! {

/// A bundle of state that a registry can keep.
pub trait Store: Sized {
    /// The kind of bundle this is. A registry keeps one store of each kind.
    spec fn kind(&self) -> u64;

    /// The kind of bundle this is, which is what `kind` says.
    fn id(&self) -> (id: u64)
        ensures
            id == self.kind(),
    ;
}

/// What asking for the store of kind `id` does to stores `before`. If a
/// store of that kind is among them, it is what is handed out; if not, the
/// store that is handed out is a new one. Either way the store is kept
/// under `id` as the handle leaves it, and no other kind is touched.
pub open spec fn hands_out<S>(
    before: Map<u64, S>,
    id: u64,
    handed: S,
    left: S,
    after: Map<u64, S>,
) -> bool {
    &&& before.contains_key(id) ==> handed == before[id]
    &&& after == before.insert(id, left)
}

/// A registry of stores, one of each kind.
pub struct StoreRegistry<S> {
    stores: HashMap<u64, S>,
}

impl<S> View for StoreRegistry<S> {
    type V = Map<u64, S>;

    closed spec fn view(&self) -> Map<u64, S> {
        self.stores@
    }
}

impl<S> StoreRegistry<S> {
    /// Creates an empty registry.
    pub fn new() -> (registry: Self)
        ensures
            registry@ == Map::<u64, S>::empty(),
    {
        StoreRegistry { stores: HashMap::new() }
    }

    /// Registers `store` under its own kind. A store of that kind that was
    /// registered before is replaced.
    pub fn register(&mut self, store: S) where S: Store
        ensures
            final(self)@ == old(self)@.insert(store.kind(), store),
    {
        let id = store.id();
        self.stores.insert(id, store);
    }

    /// Hands out the store of kind `id`, if one is registered. What is done
    /// to the store through the handle is done to the registered instance.
    pub fn get(&mut self, id: u64) -> (found: Option<&mut S>)
        ensures
            found is Some <==> old(self)@.contains_key(id),
            found is None ==> final(self)@ == old(self)@,
            found matches Some(handle) ==> *handle == old(self)@[id],
            found matches Some(handle) ==> final(self)@ == old(self)@.insert(id, *final(handle)),
    {
        match self.stores.entry(id) {
            Entry::Occupied(entry) => Some(entry.into_mut()),
            Entry::Vacant(_) => {
                proof {
                    assert(old(self)@.remove(id) =~= old(self)@);
                }
                None
            },
        }
    }

    /// The store of kind `id`, to look at.
    pub fn peek(&self, id: u64) -> (found: Option<&S>)
        ensures
            found is Some <==> self@.contains_key(id),
            found matches Some(store) ==> *store == self@[id],
    {
        self.stores.get(&id)
    }

    /// Hands out the store of kind `id`. If none is registered, a store is
    /// made by `S::default()`, registered under `id`, and handed out.
    pub fn get_or_create(&mut self, id: u64) -> (handle: &mut S) where S: Store + Default
        ensures
            hands_out(old(self)@, id, *handle, *final(handle), final(self)@),
            !old(self)@.contains_key(id) ==> call_ensures(S::default, (), *handle),
    {
        self.get_or_create_with(id, S::default)
    }

    /// Hands out the store of kind `id`. If none is registered, a store is
    /// made by `create`, registered under `id`, and handed out.
    pub fn get_or_create_with<C: FnOnce() -> S>(&mut self, id: u64, create: C) -> (handle: &mut S)
        requires
            !old(self)@.contains_key(id) ==> call_requires(create, ()),
        ensures
            hands_out(old(self)@, id, *handle, *final(handle), final(self)@),
            !old(self)@.contains_key(id) ==> call_ensures(create, (), *handle),
    {
        match self.stores.entry(id) {
            Entry::Occupied(entry) => entry.into_mut(),
            Entry::Vacant(entry) => entry.insert(create()),
        }
    }

    /// Whether a store of kind `id` is registered.
    pub fn has(&self, id: u64) -> (found: bool)
        ensures
            found == self@.contains_key(id),
    {
        self.stores.contains_key(&id)
    }

    /// Takes the store of kind `id` out of the registry, if there is one.
    pub fn remove(&mut self, id: u64)
        ensures
            final(self)@ == old(self)@.remove(id),
    {
        self.stores.remove(&id);
    }

    /// Takes every store out of the registry.
    pub fn clear(&mut self)
        ensures
            final(self)@ == Map::<u64, S>::empty(),
    {
        self.stores.clear();
    }

    /// The number of registered stores.
    pub fn count(&self) -> (count: usize)
        ensures
            count == self@.len(),
            self@.dom().finite(),
    {
        self.stores.len()
    }
}

/// Prepares the stores for use. A registry is ready as soon as it is made,
/// so there is nothing to do; the function is there for callers that start
/// up by calling it.
pub fn init_global_stores() {
}

/// Registers `store` in `registry` under its own kind and hands out the
/// registered instance.
pub fn create_store<S: Store>(registry: &mut StoreRegistry<S>, store: S) -> (handle: &mut S)
    ensures
        *handle == store,
        final(registry)@ == old(registry)@.insert(store.kind(), *final(handle)),
{
    let kind = store.id();
    registry.register(store);
    proof {
        assert(forall|after: S|
            old(registry)@.insert(kind, store).insert(kind, after) =~= old(registry)@.insert(
                kind,
                after,
            ));
    }
    registry.get(kind).unwrap()
}

/// Hands out the store of kind `id` in `registry`, making and registering
/// a default store if none is registered.
pub fn use_store<S: Store + Default>(registry: &mut StoreRegistry<S>, id: u64) -> (handle: &mut S)
    ensures
        hands_out(old(registry)@, id, *handle, *final(handle), final(registry)@),
        !old(registry)@.contains_key(id) ==> call_ensures(S::default, (), *handle),
{
    registry.get_or_create(id)
}

/// Hands out the store of kind `id` in `registry`, if one is registered.
pub fn get_store<S>(registry: &mut StoreRegistry<S>, id: u64) -> (found: Option<&mut S>)
    ensures
        found is Some <==> old(registry)@.contains_key(id),
        found is None ==> final(registry)@ == old(registry)@,
        found matches Some(handle) ==> *handle == old(registry)@[id],
        found matches Some(handle) ==> final(registry)@ == old(registry)@.insert(
            id,
            *final(handle),
        ),
{
    registry.get(id)
}

/// Registers `store` in `registry` under its own kind, replacing a store of
/// that kind that was registered before.
pub fn register_store<S: Store>(registry: &mut StoreRegistry<S>, store: S)
    ensures
        final(registry)@ == old(registry)@.insert(store.kind(), store),
{
    registry.register(store);
}

/// Takes the store of kind `id` out of `registry`, if there is one.
pub fn remove_store<S>(registry: &mut StoreRegistry<S>, id: u64)
    ensures
        final(registry)@ == old(registry)@.remove(id),
{
    registry.remove(id);
}

/// Whether a store of kind `id` is registered in `registry`.
pub fn has_store<S>(registry: &StoreRegistry<S>, id: u64) -> (found: bool)
    ensures
        found == registry@.contains_key(id),
{
    registry.has(id)
}

/// Takes every store out of `registry`.
pub fn clear_all_stores<S>(registry: &mut StoreRegistry<S>)
    ensures
        final(registry)@ == Map::<u64, S>::empty(),
{
    registry.clear();
}

/// The number of stores registered in `registry`.
pub fn store_count<S>(registry: &StoreRegistry<S>) -> (count: usize)
    ensures
        count == registry@.len(),
        registry@.dom().finite(),
{
    registry.count()
}

/// Runs `action` on the store of kind `id` and returns what it gives, or
/// `None` if no such store is registered.
pub fn store_action<S, R, A: FnOnce(&S) -> R>(
    registry: &StoreRegistry<S>,
    id: u64,
    action: A,
) -> (done: Option<R>)
    requires
        registry@.contains_key(id) ==> call_requires(action, (&registry@[id],)),
    ensures
        done is Some <==> registry@.contains_key(id),
        done matches Some(result) ==> call_ensures(action, (&registry@[id],), result),
{
    match registry.peek(id) {
        Some(store) => Some(action(store)),
        None => None,
    }
}

/// Runs `action` on the store of kind `id`, which it may change, and
/// returns what it gives, or `None` if no such store is registered.
pub fn store_action_mut<S, R, A: FnOnce(&mut S) -> R>(
    registry: &mut StoreRegistry<S>,
    id: u64,
    action: A,
) -> (done: Option<R>)
    requires
        forall|slot: &mut S|
            old(registry)@.contains_key(id) && *slot == old(registry)@[id] ==> call_requires(
                action,
                (slot,),
            ),
    ensures
        done is Some <==> old(registry)@.contains_key(id),
        done is None ==> final(registry)@ == old(registry)@,
        done matches Some(result) ==> exists|slot: &mut S|
            *slot == old(registry)@[id] && #[trigger] call_ensures(action, (slot,), result)
                && final(registry)@ == old(registry)@.insert(id, *final(slot)),
{
    match registry.get(id) {
        Some(store) => {
            let result = action(store);
            let ghost given = result;
            let done = Some(result);
            assert(done->0 == given);
            done
        },
        None => None,
    }
}

/// Stores that can be made by default, and so fetched from a registry
/// without being registered first.
pub trait GlobalStore: Store + Default {
    /// Hands out the store of kind `id` in `registry`, making and
    /// registering a default store if none is registered.
    fn global(registry: &mut StoreRegistry<Self>, id: u64) -> (handle: &mut Self)
        ensures
            hands_out(old(registry)@, id, *handle, *final(handle), final(registry)@),
            !old(registry)@.contains_key(id) ==> call_ensures(Self::default, (), *handle),
    {
        use_store(registry, id)
    }

    /// Puts a default store in the place of the registered store of its
    /// kind.
    fn reset(registry: &mut StoreRegistry<Self>)
        ensures
            exists|fresh: Self|
                #[trigger] call_ensures(Self::default, (), fresh) && final(registry)@ == old(
                    registry,
                )@.insert(fresh.kind(), fresh),
    {
        register_store(registry, Self::default());
    }
}

impl<T: Store + Default> GlobalStore for T {

}

/// A store that bundles a single cell.
pub struct SimpleStore<T, F> {
    kind: u64,
    value: ObservableValue<T, F>,
}

impl<T: Clone, F: Fn(&T)> SimpleStore<T, F> {
    /// The store's cell.
    pub closed spec fn cell(&self) -> ObservableValue<T, F> {
        self.value
    }

    /// The store's invariant, which is that of its cell.
    pub open spec fn wf(&self) -> bool {
        self.cell().wf()
    }

    /// Creates a store of kind `kind` around `initial`.
    pub fn new(kind: u64, initial: T) -> (store: Self)
        ensures
            store.wf(),
            store.kind() == kind,
            store.cell()@ == CellState::initial(initial),
            store.cell().callbacks() == Seq::<F>::empty(),
    {
        SimpleStore { kind, value: ObservableValue::new(initial) }
    }

    /// Hands out the store's cell.
    pub fn value(&mut self) -> (cell: &mut ObservableValue<T, F>)
        ensures
            *cell == old(self).cell(),
            final(self).cell() == *final(cell),
            final(self).kind() == old(self).kind(),
    {
        &mut self.value
    }

    /// Returns a clone of the cell's value. The read is tracked.
    pub fn get<G: FnMut()>(&mut self, scope: &ObserverScope<G>) -> (value: T)
        requires
            old(self).wf(),
        ensures
            final(self).wf(),
            final(self).kind() == old(self).kind(),
            cloned(old(self).cell()@.value, value),
            final(self).cell()@ == old(self).cell()@.track(scope@.current),
            final(self).cell().callbacks() == old(self).cell().callbacks(),
    {
        self.value.get(scope)
    }

    /// Replaces the cell's value and notifies.
    pub fn set<G: FnMut()>(
        &mut self,
        value: T,
        scope: &mut ObserverScope<G>,
    ) -> (notified: Notified<T>)
        requires
            old(self).wf(),
            old(scope).wf(),
        ensures
            final(self).wf(),
            final(scope).wf(),
            final(self).kind() == old(self).kind(),
            final(self).cell()@ == old(self).cell()@.write(value).sweep(old(scope)@),
            final(self).cell().callbacks() == old(self).cell().callbacks(),
            final(scope)@ == old(scope)@,
            final(scope).callbacks() == old(scope).callbacks(),
            fans_out(
                old(self).cell()@.write(value),
                old(self).cell().callbacks(),
                *old(scope),
                notified,
            ),
    {
        self.value.set(value, scope)
    }

    /// Lets `updater` change the cell's value in place, then notifies.
    pub fn update<U: FnOnce(&mut T), G: FnMut()>(
        &mut self,
        updater: U,
        scope: &mut ObserverScope<G>,
    ) -> (notified: Notified<T>)
        requires
            old(self).wf(),
            old(scope).wf(),
            forall|slot: &mut T|
                *slot == old(self).cell()@.value ==> call_requires(updater, (slot,)),
        ensures
            final(self).wf(),
            final(scope).wf(),
            final(self).kind() == old(self).kind(),
            exists|slot: &mut T|
                *slot == old(self).cell()@.value && *final(slot) == final(self).cell()@.value
                    && #[trigger] call_ensures(updater, (slot,), ()),
            final(self).cell()@ == old(self).cell()@.write(final(self).cell()@.value).sweep(
                old(scope)@,
            ),
            final(self).cell().callbacks() == old(self).cell().callbacks(),
            final(scope)@ == old(scope)@,
            final(scope).callbacks() == old(scope).callbacks(),
            fans_out(
                old(self).cell()@.write(final(self).cell()@.value),
                old(self).cell().callbacks(),
                *old(scope),
                notified,
            ),
    {
        self.value.update(updater, scope)
    }
}

impl<T, F> Store for SimpleStore<T, F> {
    closed spec fn kind(&self) -> u64 {
        self.kind
    }

    fn id(&self) -> (id: u64) {
        self.kind
    }
}

impl<T: Clone + Default, F: Fn(&T)> Default for SimpleStore<T, F> {
    /// A store of kind 0 around the default value.
    fn default() -> (store: Self)
        ensures
            store.wf(),
            store.kind() == 0,
            call_ensures(T::default, (), store.cell()@.value),
            store.cell()@ == CellState::initial(store.cell()@.value),
            store.cell().callbacks() == Seq::<F>::empty(),
    {
        SimpleStore::new(0, T::default())
    }
}

/// Handles to the store of one kind stand for one instance. Of two
/// requests for the store of kind `id`, the second is handed the store as
/// the first handle left it, and makes no new store.
pub proof fn law_handles_share_one_instance<S>(
    before: Map<u64, S>,
    id: u64,
    first: S,
    first_left: S,
    between: Map<u64, S>,
    second: S,
    second_left: S,
    after: Map<u64, S>,
)
    requires
        hands_out(before, id, first, first_left, between),
        hands_out(between, id, second, second_left, after),
    ensures
        between.contains_key(id),
        second == first_left,
        after == between.insert(id, second_left),
        after.dom() == between.dom(),
{
    assert(after.dom() =~= between.dom());
}

/// Once the store of kind `id` was asked for, a store of that kind is
/// registered. The stores of every other kind are what they were, and the
/// registry has grown by one store if none of kind `id` was there, and not
/// at all if one was.
pub proof fn law_asked_for_store_is_registered<S>(
    before: Map<u64, S>,
    id: u64,
    handed: S,
    left: S,
    after: Map<u64, S>,
    other: u64,
)
    requires
        before.dom().finite(),
        hands_out(before, id, handed, left, after),
    ensures
        after.contains_key(id),
        after[id] == left,
        other != id ==> after.contains_key(other) == before.contains_key(other),
        other != id && before.contains_key(other) ==> after[other] == before[other],
        after.len() == if before.contains_key(id) {
            before.len()
        } else {
            before.len() + 1
        },
{
    assert(after.dom() =~= before.dom().insert(id));
}

/// Registering a store and taking its kind out again leaves no store of
/// that kind, and changes no store of another kind.
pub proof fn law_registered_until_removed<S: Store>(stores: Map<u64, S>, store: S, other: u64)
    ensures
        stores.insert(store.kind(), store).contains_key(store.kind()),
        !stores.insert(store.kind(), store).remove(store.kind()).contains_key(store.kind()),
        other != store.kind() ==> stores.insert(store.kind(), store).remove(
            store.kind(),
        ).contains_key(other) == stores.contains_key(other),
{
}

} // verus!
