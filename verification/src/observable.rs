//! The observable cell.
//!
//! A cell holds a value, the explicit subscriptions made on it, and the
//! links to the observation sessions that read it. Reads are tracked: a read
//! made while a session is installed in the [`ObserverScope`] links the cell
//! to that session. Writes notify: every write, whether or not it changes
//! the value, hands a snapshot of the new value to each explicit subscriber
//! in ascending order of subscription, and then runs the invalidate action
//! of each linked session that is still live, in the order the links were
//! made, dropping the links whose session has ended.

use crate::observer::{law_release_ends_one_session, ObserverScope, ScopeState};
use crate::seqs::{
    lemma_distinct_occurs_once, lemma_filter_contains, lemma_filter_distinct, lemma_filter_len,
    lemma_filter_step, lemma_index_of_at, lemma_push_contains, lemma_push_fresh,
    lemma_remove_distinct, lemma_without_absent, lemma_without_at, lemma_without_contains,
    occurs_once, without,
};
use std::collections::HashMap;
use vstd::prelude::*;

verus! {

/// The mathematical content of an [`ObservableValue`].
pub struct CellState<T> {
    /// The current value.
    pub value: T,
    /// Identities of the explicit subscriptions, in the order they fire.
    pub subscribers: Seq<usize>,
    /// The identity the next explicit subscription will get.
    pub next_id: nat,
    /// The sessions this cell is linked to, in the order the links were made.
    pub links: Seq<u64>,
}

/// The links of `links` whose session is live in `scope`, in their order.
pub open spec fn live_links(links: Seq<u64>, scope: ScopeState) -> Seq<u64> {
    links.filter(|id: u64| scope.is_live(id))
}

impl<T> CellState<T> {
    /// A fresh cell around `value`: nobody subscribed, nobody linked.
    pub open spec fn initial(value: T) -> CellState<T> {
        CellState { value, subscribers: Seq::empty(), next_id: 0, links: Seq::empty() }
    }

    /// Subscription identities are handed out in ascending order and never
    /// reused, and a session is linked at most once.
    pub open spec fn wf(self) -> bool {
        &&& forall|i: int, j: int|
            0 <= i < j < self.subscribers.len() ==> self.subscribers[i] < self.subscribers[j]
        &&& forall|i: int|
            0 <= i < self.subscribers.len() ==> (#[trigger] self.subscribers[i]) < self.next_id
        &&& self.next_id <= usize::MAX
        &&& self.links.no_duplicates()
    }

    /// The cell after a tracked read made while `current` was the ambient
    /// observer: a link to it is added unless there is none to add or the
    /// cell is linked to it already.
    pub open spec fn track(self, current: Option<u64>) -> CellState<T> {
        match current {
            Some(id) => if self.links.contains(id) {
                self
            } else {
                CellState { links: self.links.push(id), ..self }
            },
            None => self,
        }
    }

    /// The cell with its value replaced.
    pub open spec fn write(self, value: T) -> CellState<T> {
        CellState { value, ..self }
    }

    /// The cell after a notification pass: links to ended sessions are gone.
    pub open spec fn sweep(self, scope: ScopeState) -> CellState<T> {
        CellState { links: live_links(self.links, scope), ..self }
    }

    /// The explicit subscriptions that a notification pass calls, in the
    /// order of the calls.
    pub open spec fn fired_subscribers(self) -> Seq<usize> {
        self.subscribers
    }

    /// The sessions whose invalidate action a notification pass runs, in the
    /// order of the runs.
    pub open spec fn fired_observers(self, scope: ScopeState) -> Seq<u64> {
        live_links(self.links, scope)
    }

    /// The calls that a notification pass makes, in their order: first the
    /// explicit subscribers, then the invalidate actions of the sessions.
    pub open spec fn fired(self, scope: ScopeState) -> Seq<Fired> {
        subscriber_calls(self.fired_subscribers()) + observer_calls(self.fired_observers(scope))
    }

    /// The cell after one more explicit subscription.
    pub open spec fn subscribe(self) -> CellState<T> {
        CellState {
            subscribers: self.subscribers.push(self.next_id as usize),
            next_id: self.next_id + 1,
            ..self
        }
    }

    /// The cell after subscription `id` was taken back.
    pub open spec fn unsubscribe(self, id: usize) -> CellState<T> {
        CellState { subscribers: without(self.subscribers, id), ..self }
    }
}

/// One explicit subscription: its identity and its callback.
pub struct Subscription<F> {
    id: usize,
    callback: F,
}

/// One call that a notification pass makes.
#[derive(Clone, Copy, Debug, PartialEq, Eq, Structural)]
pub enum Fired {
    /// The callback of the explicit subscription with this identity.
    Subscriber(usize),
    /// The invalidate action of the session with this identity.
    Observer(u64),
}

/// Calls of the explicit subscriptions `ids`, in their order.
pub open spec fn subscriber_calls(ids: Seq<usize>) -> Seq<Fired> {
    ids.map_values(|id: usize| Fired::Subscriber(id))
}

/// Runs of the invalidate actions of the sessions `ids`, in their order.
pub open spec fn observer_calls(ids: Seq<u64>) -> Seq<Fired> {
    ids.map_values(|id: u64| Fired::Observer(id))
}

/// What one notification pass delivered, and to whom.
pub struct Notified<T> {
    /// The snapshot of the cell's value that the subscribers were given.
    pub value: T,
    /// The calls that were made, in the order in which they were made.
    pub calls: Vec<Fired>,
}

/// A mutable cell of reactive state.
///
/// `F` is the type of the callbacks that subscribe to it.
pub struct ObservableValue<T, F> {
    value: T,
    subscribers: Vec<Subscription<F>>,
    next_id: usize,
    local_subscribers: Vec<u64>,
}

impl<T, F> View for ObservableValue<T, F> {
    type V = CellState<T>;

    closed spec fn view(&self) -> CellState<T> {
        CellState {
            value: self.value,
            subscribers: Seq::new(self.subscribers.len() as nat, |i: int| self.subscribers[i].id),
            next_id: self.next_id as nat,
            links: self.local_subscribers@,
        }
    }
}

/// What a notification pass over a cell in state `state`, with the
/// subscriber callbacks `callbacks`, does and reports: a snapshot of the
/// value is taken by cloning it; every explicit subscriber is called with
/// the snapshot, in the order of the subscriptions; then the invalidate
/// action of every linked session that is live in `scope` is run, in the
/// order of the links. The report lists the calls in that order.
pub open spec fn fans_out<T: Clone, F: Fn(&T), G: FnMut()>(
    state: CellState<T>,
    callbacks: Seq<F>,
    scope: ObserverScope<G>,
    notified: Notified<T>,
) -> bool {
    &&& cloned(state.value, notified.value)
    &&& notified.calls@ == state.fired(scope@)
    &&& forall|i: int|
        0 <= i < callbacks.len() ==> call_ensures(#[trigger] callbacks[i], (&notified.value,), ())
    &&& forall|k: int|
        0 <= k < state.fired_observers(scope@).len() ==> call_ensures(
            scope.callback_of(#[trigger] state.fired_observers(scope@)[k]),
            (),
            (),
        )
}

/// Whether `links` holds `id`.
fn is_linked(links: &Vec<u64>, id: u64) -> (found: bool)
    ensures
        found == links@.contains(id),
{
    let mut i: usize = 0;
    while i < links.len()
        invariant
            i <= links.len(),
            forall|k: int| 0 <= k < i ==> links[k] != id,
        decreases links.len() - i,
    {
        if links[i] == id {
            return true;
        }
        i += 1;
    }
    false
}

impl<T: Clone, F: Fn(&T)> ObservableValue<T, F> {
    /// The callbacks of the explicit subscriptions, in the order of
    /// `self@.subscribers`.
    pub closed spec fn callbacks(&self) -> Seq<F> {
        Seq::new(self.subscribers.len() as nat, |i: int| self.subscribers[i].callback)
    }

    /// The cell's invariant: its state is well formed, every subscription
    /// has exactly one callback, and each callback may be called with any
    /// value.
    pub open spec fn wf(&self) -> bool {
        &&& self@.wf()
        &&& self.callbacks().len() == self@.subscribers.len()
        &&& forall|i: int, value: T|
            0 <= i < self.callbacks().len() ==> #[trigger] call_requires(
                self.callbacks()[i],
                (&value,),
            )
    }

    /// Creates a cell around `initial`.
    pub fn new(initial: T) -> (cell: Self)
        ensures
            cell.wf(),
            cell@ == CellState::initial(initial),
            cell.callbacks() == Seq::<F>::empty(),
    {
        let cell = ObservableValue {
            value: initial,
            subscribers: Vec::new(),
            next_id: 0,
            local_subscribers: Vec::new(),
        };
        proof {
            assert(cell@.subscribers =~= Seq::<usize>::empty());
            assert(cell@.links =~= Seq::<u64>::empty());
            assert(cell.callbacks() =~= Seq::<F>::empty());
        }
        cell
    }

    /// Returns a clone of the current value. The read is tracked.
    pub fn value<G: FnMut()>(&mut self, scope: &ObserverScope<G>) -> (value: T)
        requires
            old(self).wf(),
        ensures
            final(self).wf(),
            cloned(old(self)@.value, value),
            final(self)@ == old(self)@.track(scope@.current),
            final(self).callbacks() == old(self).callbacks(),
    {
        self.get(scope)
    }

    /// Replaces the value and notifies, whether or not the new value differs
    /// from the old one.
    pub fn set_value<G: FnMut()>(
        &mut self,
        value: T,
        scope: &mut ObserverScope<G>,
    ) -> (notified: Notified<T>)
        requires
            old(self).wf(),
            old(scope).wf(),
        ensures
            final(self).wf(),
            final(scope).wf(),
            final(self)@ == old(self)@.write(value).sweep(old(scope)@),
            final(self).callbacks() == old(self).callbacks(),
            final(scope)@ == old(scope)@,
            final(scope).callbacks() == old(scope).callbacks(),
            fans_out(old(self)@.write(value), old(self).callbacks(), *old(scope), notified),
    {
        self.set(value, scope)
    }

    /// Lets `updater` change the value in place, then notifies.
    pub fn update_value<U: FnOnce(&mut T), G: FnMut()>(
        &mut self,
        updater: U,
        scope: &mut ObserverScope<G>,
    ) -> (notified: Notified<T>)
        requires
            old(self).wf(),
            old(scope).wf(),
            forall|slot: &mut T| *slot == old(self)@.value ==> call_requires(updater, (slot,)),
        ensures
            final(self).wf(),
            final(scope).wf(),
            exists|slot: &mut T|
                *slot == old(self)@.value && *final(slot) == final(self)@.value
                    && #[trigger] call_ensures(updater, (slot,), ()),
            final(self)@ == old(self)@.write(final(self)@.value).sweep(old(scope)@),
            final(self).callbacks() == old(self).callbacks(),
            final(scope)@ == old(scope)@,
            final(scope).callbacks() == old(scope).callbacks(),
            fans_out(
                old(self)@.write(final(self)@.value),
                old(self).callbacks(),
                *old(scope),
                notified,
            ),
    {
        self.update(updater, scope)
    }

    /// Registers `callback` as an explicit subscriber and returns the fresh
    /// identity of the subscription.
    pub fn on_change(&mut self, callback: F) -> (id: usize)
        requires
            old(self).wf(),
            old(self)@.next_id < usize::MAX,
            forall|value: T| call_requires(callback, (&value,)),
        ensures
            final(self).wf(),
            id == old(self)@.next_id,
            final(self)@ == old(self)@.subscribe(),
            final(self).callbacks() == old(self).callbacks().push(callback),
    {
        self.subscribe(callback)
    }

    /// Takes subscription `id` back. Nothing happens if there is no such
    /// subscription.
    pub fn off_change(&mut self, id: usize)
        requires
            old(self).wf(),
        ensures
            final(self).wf(),
            final(self)@ == old(self)@.unsubscribe(id),
            !final(self)@.subscribers.contains(id),
            final(self).callbacks() == if old(self)@.subscribers.contains(id) {
                old(self).callbacks().remove(old(self)@.subscribers.index_of(id))
            } else {
                old(self).callbacks()
            },
    {
        self.unsubscribe(id)
    }

    /// The dependency-tracking step of every read: links the cell to the
    /// ambient observer of `scope`, unless none is installed or the cell is
    /// linked to it already.
    pub fn track_access<G: FnMut()>(&mut self, scope: &ObserverScope<G>)
        requires
            old(self).wf(),
        ensures
            final(self).wf(),
            final(self)@ == old(self)@.track(scope@.current),
            final(self).callbacks() == old(self).callbacks(),
    {
        match scope.current() {
            Some(id) => {
                if !is_linked(&self.local_subscribers, id) {
                    self.local_subscribers.push(id);
                    proof {
                        assert(self@.subscribers =~= old(self)@.subscribers);
                        assert(self.callbacks() =~= old(self).callbacks());
                        assert(self@.links.no_duplicates()) by {
                            lemma_push_fresh(old(self)@.links, id);
                        }
                    }
                }
            },
            None => {},
        }
    }

    /// The notification pass that follows every write.
    ///
    /// A snapshot of the value is taken by cloning it once. Every explicit
    /// subscriber is called with the snapshot, in ascending order of
    /// subscription. Then the links are swept in the order they were made:
    /// a link whose session is live has the session's invalidate action
    /// run and is kept, a link whose session has ended is dropped.
    pub fn notify_subscribers<G: FnMut()>(
        &mut self,
        scope: &mut ObserverScope<G>,
    ) -> (notified: Notified<T>)
        requires
            old(self).wf(),
            old(scope).wf(),
        ensures
            final(self).wf(),
            final(scope).wf(),
            final(self)@ == old(self)@.sweep(old(scope)@),
            final(self).callbacks() == old(self).callbacks(),
            final(scope)@ == old(scope)@,
            final(scope).callbacks() == old(scope).callbacks(),
            fans_out(old(self)@, old(self).callbacks(), *old(scope), notified),
    {
        let snapshot = self.value.clone();
        let mut calls: Vec<Fired> = Vec::new();
        let mut i: usize = 0;
        while i < self.subscribers.len()
            invariant
                i <= self.subscribers.len(),
                *self == *old(self),
                self.wf(),
                calls@ == subscriber_calls(self@.subscribers.take(i as int)),
                forall|k: int|
                    0 <= k < i ==> call_ensures(#[trigger] self.callbacks()[k], (&snapshot,), ()),
            decreases self.subscribers.len() - i,
        {
            assert(self.callbacks()[i as int] == self.subscribers[i as int].callback);
            (self.subscribers[i].callback)(&snapshot);
            calls.push(Fired::Subscriber(self.subscribers[i].id));
            proof {
                assert(self@.subscribers.take(i + 1) =~= self@.subscribers.take(i as int).push(
                    self@.subscribers[i as int],
                ));
                assert(calls@ =~= subscriber_calls(self@.subscribers.take(i + 1)));
            }
            i += 1;
        }
        proof {
            assert(self@.subscribers.take(i as int) =~= self@.subscribers);
            assert(calls@ =~= subscriber_calls(self@.subscribers) + observer_calls(
                Seq::<u64>::empty(),
            ));
        }
        let mut kept: Vec<u64> = Vec::new();
        let mut j: usize = 0;
        while j < self.local_subscribers.len()
            invariant
                j <= self.local_subscribers.len(),
                *self == *old(self),
                self.wf(),
                scope.wf(),
                scope@ == old(scope)@,
                scope.callbacks() == old(scope).callbacks(),
                kept@ == live_links(self@.links.take(j as int), scope@),
                calls@ == subscriber_calls(self@.subscribers) + observer_calls(kept@),
                forall|k: int|
                    0 <= k < kept.len() ==> call_ensures(
                        scope.callback_of(#[trigger] kept[k]),
                        (),
                        (),
                    ),
            decreases self.local_subscribers.len() - j,
        {
            let id = self.local_subscribers[j];
            let ghost before = kept@;
            let fired = scope.invalidate(id);
            if fired {
                kept.push(id);
                calls.push(Fired::Observer(id));
                proof {
                    assert(calls@ =~= subscriber_calls(self@.subscribers) + observer_calls(
                        kept@,
                    ));
                }
            }
            proof {
                lemma_filter_step(self@.links, j as int, |id: u64| scope@.is_live(id));
                assert forall|k: int| 0 <= k < kept.len() implies call_ensures(
                    scope.callback_of(#[trigger] kept[k]),
                    (),
                    (),
                ) by {
                    if k < before.len() {
                        assert(kept[k] == before[k]);
                    }
                }
            }
            j += 1;
        }
        proof {
            assert(self@.links.take(j as int) =~= self@.links);
            lemma_filter_distinct(self@.links, |id: u64| scope@.is_live(id));
        }
        self.local_subscribers = kept;
        proof {
            assert(self@.subscribers =~= old(self)@.subscribers);
            assert(self.callbacks() =~= old(self).callbacks());
        }
        Notified { value: snapshot, calls }
    }

    /// Applies `mapper` to the current value and returns what it gives. The
    /// read is tracked; the value is not changed.
    pub fn map<U, M: FnOnce(&T) -> U, G: FnMut()>(
        &mut self,
        mapper: M,
        scope: &ObserverScope<G>,
    ) -> (mapped: U)
        requires
            old(self).wf(),
            call_requires(mapper, (&old(self)@.value,)),
        ensures
            final(self).wf(),
            final(self)@ == old(self)@.track(scope@.current),
            final(self).callbacks() == old(self).callbacks(),
            call_ensures(mapper, (&old(self)@.value,), mapped),
    {
        self.track_access(scope);
        mapper(&self.value)
    }

    /// Tells whether `predicate` holds of the current value. The read is
    /// tracked; the value is not changed.
    pub fn when<P: FnOnce(&T) -> bool, G: FnMut()>(
        &mut self,
        predicate: P,
        scope: &ObserverScope<G>,
    ) -> (holds: bool)
        requires
            old(self).wf(),
            call_requires(predicate, (&old(self)@.value,)),
        ensures
            final(self).wf(),
            final(self)@ == old(self)@.track(scope@.current),
            final(self).callbacks() == old(self).callbacks(),
            call_ensures(predicate, (&old(self)@.value,), holds),
    {
        self.track_access(scope);
        predicate(&self.value)
    }

    /// Whether another subscription can still be given an identity.
    pub fn can_subscribe(&self) -> (room: bool)
        ensures
            room == (self@.next_id < usize::MAX),
    {
        self.next_id < usize::MAX
    }

    /// The number of explicit subscriptions.
    pub fn subscriber_count(&self) -> (count: usize)
        ensures
            count == self@.subscribers.len(),
    {
        self.subscribers.len()
    }

    /// The number of sessions the cell is linked to, live or not.
    pub fn link_count(&self) -> (count: usize)
        ensures
            count == self@.links.len(),
    {
        self.local_subscribers.len()
    }
}

/// The operations of an observable cell.
///
/// `F` is the type of the callbacks that subscribe to the cell.
pub trait Observable<T: Clone, F: Fn(&T)>: Sized {
    /// The cell's state.
    spec fn cell(&self) -> CellState<T>;

    /// The callbacks of the explicit subscriptions, in the order of
    /// `self.cell().subscribers`.
    spec fn subscriber_callbacks(&self) -> Seq<F>;

    /// The cell's invariant.
    spec fn valid(&self) -> bool;

    /// Returns a clone of the current value. The read is tracked.
    fn get<G: FnMut()>(&mut self, scope: &ObserverScope<G>) -> (value: T)
        requires
            old(self).valid(),
        ensures
            final(self).valid(),
            cloned(old(self).cell().value, value),
            final(self).cell() == old(self).cell().track(scope@.current),
            final(self).subscriber_callbacks() == old(self).subscriber_callbacks(),
    ;

    /// Replaces the value and notifies, whether or not the new value differs
    /// from the old one: every write is an event.
    fn set<G: FnMut()>(
        &mut self,
        value: T,
        scope: &mut ObserverScope<G>,
    ) -> (notified: Notified<T>)
        requires
            old(self).valid(),
            old(scope).wf(),
        ensures
            final(self).valid(),
            final(scope).wf(),
            final(self).cell() == old(self).cell().write(value).sweep(old(scope)@),
            final(self).subscriber_callbacks() == old(self).subscriber_callbacks(),
            final(scope)@ == old(scope)@,
            final(scope).callbacks() == old(scope).callbacks(),
            fans_out(
                old(self).cell().write(value),
                old(self).subscriber_callbacks(),
                *old(scope),
                notified,
            ),
    ;

    /// Lets `updater` change the value in place, then notifies.
    fn update<U: FnOnce(&mut T), G: FnMut()>(
        &mut self,
        updater: U,
        scope: &mut ObserverScope<G>,
    ) -> (notified: Notified<T>)
        requires
            old(self).valid(),
            old(scope).wf(),
            forall|slot: &mut T|
                *slot == old(self).cell().value ==> call_requires(updater, (slot,)),
        ensures
            final(self).valid(),
            final(scope).wf(),
            exists|slot: &mut T|
                *slot == old(self).cell().value && *final(slot) == final(self).cell().value
                    && #[trigger] call_ensures(updater, (slot,), ()),
            final(self).cell() == old(self).cell().write(final(self).cell().value).sweep(
                old(scope)@,
            ),
            final(self).subscriber_callbacks() == old(self).subscriber_callbacks(),
            final(scope)@ == old(scope)@,
            final(scope).callbacks() == old(scope).callbacks(),
            fans_out(
                old(self).cell().write(final(self).cell().value),
                old(self).subscriber_callbacks(),
                *old(scope),
                notified,
            ),
    ;

    /// Registers `callback` as an explicit subscriber and returns the fresh
    /// identity of the subscription.
    fn subscribe(&mut self, callback: F) -> (id: usize)
        requires
            old(self).valid(),
            old(self).cell().next_id < usize::MAX,
            forall|value: T| call_requires(callback, (&value,)),
        ensures
            final(self).valid(),
            id == old(self).cell().next_id,
            final(self).cell() == old(self).cell().subscribe(),
            final(self).subscriber_callbacks() == old(self).subscriber_callbacks().push(callback),
    ;

    /// Takes subscription `id` back. Nothing happens if there is no such
    /// subscription.
    fn unsubscribe(&mut self, id: usize)
        requires
            old(self).valid(),
        ensures
            final(self).valid(),
            final(self).cell() == old(self).cell().unsubscribe(id),
            !final(self).cell().subscribers.contains(id),
            final(self).subscriber_callbacks() == if old(self).cell().subscribers.contains(id) {
                old(self).subscriber_callbacks().remove(old(self).cell().subscribers.index_of(id))
            } else {
                old(self).subscriber_callbacks()
            },
    ;
}

impl<T: Clone, F: Fn(&T)> Observable<T, F> for ObservableValue<T, F> {
    open spec fn cell(&self) -> CellState<T> {
        self@
    }

    open spec fn subscriber_callbacks(&self) -> Seq<F> {
        self.callbacks()
    }

    open spec fn valid(&self) -> bool {
        self.wf()
    }

    fn get<G: FnMut()>(&mut self, scope: &ObserverScope<G>) -> (value: T) {
        self.track_access(scope);
        self.value.clone()
    }

    fn set<G: FnMut()>(
        &mut self,
        value: T,
        scope: &mut ObserverScope<G>,
    ) -> (notified: Notified<T>) {
        self.value = value;
        proof {
            assert(self@.subscribers =~= old(self)@.subscribers);
            assert(self.callbacks() =~= old(self).callbacks());
        }
        self.notify_subscribers(scope)
    }

    fn update<U: FnOnce(&mut T), G: FnMut()>(
        &mut self,
        updater: U,
        scope: &mut ObserverScope<G>,
    ) -> (notified: Notified<T>) {
        updater(&mut self.value);
        proof {
            assert(self@.subscribers =~= old(self)@.subscribers);
            assert(self.callbacks() =~= old(self).callbacks());
        }
        self.notify_subscribers(scope)
    }

    fn subscribe(&mut self, callback: F) -> (id: usize) {
        let id = self.next_id;
        self.next_id = id + 1;
        self.subscribers.push(Subscription { id, callback });
        proof {
            assert(self@.subscribers =~= old(self)@.subscribers.push(id));
            assert(self.callbacks() =~= old(self).callbacks().push(callback));
            assert(self@.subscribers[self@.subscribers.len() - 1] == id);
        }
        id
    }

    fn unsubscribe(&mut self, id: usize) {
        let mut i: usize = 0;
        while i < self.subscribers.len()
            invariant
                i <= self.subscribers.len(),
                *self == *old(self),
                self.wf(),
                forall|k: int| 0 <= k < i ==> self@.subscribers[k] != id,
            decreases self.subscribers.len() - i,
        {
            if self.subscribers[i].id == id {
                let ghost before = self@;
                let ghost before_callbacks = self.callbacks();
                self.subscribers.remove(i);
                proof {
                    assert(before.subscribers[i as int] == id);
                    lemma_index_of_at(before.subscribers, i as int);
                    assert(self@.subscribers =~= before.subscribers.remove(i as int));
                    assert(self.callbacks() =~= before_callbacks.remove(i as int));
                    lemma_without_at(before.subscribers, i as int);
                    lemma_remove_distinct(before.subscribers, i as int);
                }
                return ;
            }
            i += 1;
        }
        proof {
            lemma_without_absent(self@.subscribers, id);
        }
    }
}


/// What the trait says of an [`ObservableValue`] is said of the cell's own
/// state, callbacks and invariant.
pub proof fn lemma_observable_value<T: Clone, F: Fn(&T)>(cell: ObservableValue<T, F>)
    ensures
        cell.valid() == cell.wf(),
        cell.cell() == cell@,
        cell.subscriber_callbacks() == cell.callbacks(),
{
}

/// Creates a cell around `initial`.
pub fn observable<T: Clone, F: Fn(&T)>(initial: T) -> (cell: ObservableValue<T, F>)
    ensures
        cell.wf(),
        cell@ == CellState::initial(initial),
        cell.callbacks() == Seq::<F>::empty(),
{
    ObservableValue::new(initial)
}

/// Creates a cell around a value that may be absent.
pub fn observable_option<T: Clone, F: Fn(&Option<T>)>(initial: Option<T>) -> (cell:
    ObservableValue<Option<T>, F>)
    ensures
        cell.wf(),
        cell@ == CellState::initial(initial),
        cell.callbacks() == Seq::<F>::empty(),
{
    ObservableValue::new(initial)
}

/// Creates a cell around a vector.
pub fn observable_vec<T: Clone, F: Fn(&Vec<T>)>(initial: Vec<T>) -> (cell: ObservableValue<
    Vec<T>,
    F,
>)
    ensures
        cell.wf(),
        cell@ == CellState::initial(initial),
        cell.callbacks() == Seq::<F>::empty(),
{
    ObservableValue::new(initial)
}

/// Creates a cell around a map.
pub fn observable_map<K: Clone, V: Clone, F: Fn(&HashMap<K, V>)>(initial: HashMap<K, V>) -> (cell:
    ObservableValue<HashMap<K, V>, F>)
    ensures
        cell.wf(),
        cell@ == CellState::initial(initial),
        cell.callbacks() == Seq::<F>::empty(),
{
    ObservableValue::new(initial)
}

/// Creates a cell around a truth value.
pub fn observable_bool<F: Fn(&bool)>(initial: bool) -> (cell: ObservableValue<bool, F>)
    ensures
        cell.wf(),
        cell@ == CellState::initial(initial),
        cell.callbacks() == Seq::<F>::empty(),
{
    ObservableValue::new(initial)
}

/// Creates a cell around an owned copy of `initial`.
pub fn observable_string<F: Fn(&String)>(initial: &str) -> (cell: ObservableValue<String, F>)
    ensures
        cell.wf(),
        cell@.value@ == initial@,
        cell@ == CellState::initial(cell@.value),
        cell.callbacks() == Seq::<F>::empty(),
{
    ObservableValue::new(initial.to_owned())
}

/// Creates a cell around a number.
pub fn observable_number<T: Clone, F: Fn(&T)>(initial: T) -> (cell: ObservableValue<T, F>)
    ensures
        cell.wf(),
        cell@ == CellState::initial(initial),
        cell.callbacks() == Seq::<F>::empty(),
{
    ObservableValue::new(initial)
}

/// A cell of a truth value.
pub type ObservableBool<F> = ObservableValue<bool, F>;

/// A cell of a string.
pub type ObservableString<F> = ObservableValue<String, F>;

/// A cell of a signed 32-bit number.
pub type ObservableI32<F> = ObservableValue<i32, F>;

/// A cell of an unsigned 32-bit number.
pub type ObservableU32<F> = ObservableValue<u32, F>;

/// A cell of a vector.
pub type ObservableVec<T, F> = ObservableValue<Vec<T>, F>;

/// A cell of a value that may be absent.
pub type ObservableOption<T, F> = ObservableValue<Option<T>, F>;

/// A cell of a map.
pub type ObservableMap<K, V, F> = ObservableValue<HashMap<K, V>, F>;

/// The cell after a run of writes, each made while the sessions of its
/// scope were live.
pub open spec fn after_writes<T>(cell: CellState<T>, writes: Seq<(T, ScopeState)>) -> CellState<T>
    decreases writes.len(),
{
    if writes.len() == 0 {
        cell
    } else {
        after_writes(cell, writes.drop_last()).write(writes.last().0).sweep(writes.last().1)
    }
}

/// Subscription `id` was handed out by `cell` and is not subscribed now.
pub open spec fn retired<T>(cell: CellState<T>, id: usize) -> bool {
    id < cell.next_id && !cell.subscribers.contains(id)
}

/// Every operation keeps a well-formed cell well formed.
pub proof fn law_cell_stays_well_formed<T>(
    cell: CellState<T>,
    value: T,
    current: Option<u64>,
    scope: ScopeState,
    id: usize,
)
    requires
        cell.wf(),
    ensures
        cell.write(value).wf(),
        cell.track(current).wf(),
        cell.sweep(scope).wf(),
        cell.unsubscribe(id).wf(),
        cell.next_id < usize::MAX ==> cell.subscribe().wf(),
{
    if let Some(observer) = current {
        if !cell.links.contains(observer) {
            lemma_push_fresh(cell.links, observer);
        }
    }
    lemma_filter_distinct(cell.links, |link: u64| scope.is_live(link));
    lemma_without_keeps_order(cell.subscribers, id, cell.next_id);
    if cell.next_id < usize::MAX {
        let more = cell.subscribe();
        assert forall|i: int, j: int|
            0 <= i < j < more.subscribers.len() implies more.subscribers[i]
            < more.subscribers[j] by {
            if j == cell.subscribers.len() {
                assert(more.subscribers[i] == cell.subscribers[i]);
            }
        }
    }
}

/// Last write wins: after a run of writes the cell holds the value of the
/// last of them, and a read made then leaves that value in place.
pub proof fn law_last_write_wins<T>(
    cell: CellState<T>,
    writes: Seq<(T, ScopeState)>,
    current: Option<u64>,
)
    requires
        writes.len() > 0,
    ensures
        after_writes(cell, writes).value == writes.last().0,
        after_writes(cell, writes).track(current).value == writes.last().0,
{
}

/// A new subscriber is called exactly once by the write that follows its
/// subscription, and not at all by a write that follows its unsubscription.
pub proof fn law_subscriber_fires_once_until_unsubscribed<T>(cell: CellState<T>, value: T)
    requires
        cell.wf(),
        cell.next_id < usize::MAX,
    ensures
        ({
            let id = cell.next_id as usize;
            let subscribed = cell.subscribe();
            &&& occurs_once(subscribed.write(value).fired_subscribers(), id)
            &&& !subscribed.unsubscribe(id).write(value).fired_subscribers().contains(id)
        }),
{
    let id = cell.next_id as usize;
    let more = cell.subscribe();
    law_cell_stays_well_formed(cell, value, None, ScopeState::empty(), id);
    assert(more.subscribers[more.subscribers.len() - 1] == id);
    lemma_distinct_occurs_once(more.subscribers, id);
    lemma_without_contains(more.subscribers, id, id);
}

/// A subscription that was taken back is never called again: whatever is
/// done to the cell afterwards, its identity is not handed out anew and
/// does not come back among the subscribers.
pub proof fn law_unsubscribed_stays_silent<T>(
    cell: CellState<T>,
    id: usize,
    value: T,
    current: Option<u64>,
    scope: ScopeState,
    other: usize,
)
    requires
        cell.wf(),
        retired(cell, id),
    ensures
        retired(cell.write(value), id),
        retired(cell.track(current), id),
        retired(cell.sweep(scope), id),
        retired(cell.unsubscribe(other), id),
        cell.next_id < usize::MAX ==> retired(cell.subscribe(), id),
        !cell.write(value).fired_subscribers().contains(id),
{
    lemma_without_contains(cell.subscribers, other, id);
    lemma_push_contains(cell.subscribers, cell.next_id as usize, id);
}

/// Explicit subscribers are called in ascending order of their
/// identities, and a later subscription gets a greater identity.
pub proof fn law_subscribers_fire_in_ascending_order<T>(cell: CellState<T>, i: int, j: int)
    requires
        cell.wf(),
        0 <= i < j < cell.fired_subscribers().len(),
    ensures
        cell.fired_subscribers()[i] < cell.fired_subscribers()[j],
        cell.next_id < cell.subscribe().next_id,
{
}

/// A cell read during a session is linked to it once, however often it is
/// read, and each write made while the session is live runs the session's
/// invalidate action exactly once and keeps the link.
pub proof fn law_tracked_read_invalidates_once_per_write<T>(
    cell: CellState<T>,
    scope: ScopeState,
    value: T,
)
    requires
        cell.wf(),
        scope.wf(),
        scope.current is Some,
    ensures
        cell.track(scope.current).track(scope.current) == cell.track(scope.current),
        occurs_once(cell.track(scope.current).links, scope.current->0),
        occurs_once(
            cell.track(scope.current).write(value).fired_observers(scope),
            scope.current->0,
        ),
        occurs_once(cell.track(scope.current).write(value).sweep(scope).links, scope.current->0),
{
    let id = scope.current->0;
    let read = cell.track(scope.current);
    law_cell_stays_well_formed(cell, value, scope.current, scope, 0);
    lemma_push_contains(cell.links, id, id);
    assert(read.links.contains(id));
    lemma_distinct_occurs_once(read.links, id);
    let live = |link: u64| scope.is_live(link);
    lemma_filter_contains(read.links, live, id);
    lemma_filter_distinct(read.links, live);
    lemma_distinct_occurs_once(live_links(read.links, scope), id);
}

/// Once a session has ended, a write neither runs its invalidate action
/// nor keeps the link to it: the notification pass of the next write
/// removes the link from the cell, which then holds fewer links than
/// before.
pub proof fn law_ended_session_is_swept<T>(cell: CellState<T>, scope: ScopeState, id: u64, value: T)
    requires
        cell.wf(),
        scope.wf(),
    ensures
        !cell.write(value).fired_observers(scope.release(id)).contains(id),
        !cell.write(value).sweep(scope.release(id)).links.contains(id),
        cell.links.contains(id) ==> cell.write(value).sweep(scope.release(id)).links.len()
            < cell.links.len(),
{
    law_release_ends_one_session(scope, id, id);
    let scope = scope.release(id);
    let live = |link: u64| scope.is_live(link);
    lemma_filter_contains(cell.links, live, id);
    lemma_filter_len(cell.links, live);
    if cell.links.contains(id) {
        let k = cell.links.index_of(id);
        assert(0 <= k < cell.links.len() && !live(cell.links[k]));
    }
}

/// The calls of a notification pass, place by place: the subscribers stand
/// first, the sessions after them.
pub proof fn lemma_fired<T>(cell: CellState<T>, scope: ScopeState)
    ensures
        cell.fired(scope).len() == cell.fired_subscribers().len() + cell.fired_observers(
            scope,
        ).len(),
        forall|i: int|
            0 <= i < cell.fired_subscribers().len() ==> #[trigger] cell.fired(scope)[i]
                == Fired::Subscriber(cell.fired_subscribers()[i]),
        forall|k: int|
            0 <= k < cell.fired_observers(scope).len() ==> #[trigger] cell.fired(
                scope,
            )[cell.fired_subscribers().len() + k] == Fired::Observer(
                cell.fired_observers(scope)[k],
            ),
{
}

/// Within one write every explicit subscriber is called before the
/// invalidate action of any session is run.
pub proof fn law_subscribers_fire_before_observers<T>(
    cell: CellState<T>,
    scope: ScopeState,
    i: int,
    j: int,
)
    requires
        0 <= i < cell.fired(scope).len(),
        0 <= j < cell.fired(scope).len(),
        cell.fired(scope)[i] is Subscriber,
        cell.fired(scope)[j] is Observer,
    ensures
        i < j,
{
    lemma_fired(cell, scope);
    let subscribers = cell.fired_subscribers().len();
    if i >= subscribers {
        assert(cell.fired(scope)[subscribers + (i - subscribers)] is Observer);
    }
    if j < subscribers {
        assert(cell.fired(scope)[j] is Subscriber);
    }
}

/// A call of a subscriber stands among the calls of a notification pass as
/// often as the subscriber stands among the subscribers, and a run of a
/// session's action as often as the session stands among the live links.
pub proof fn lemma_fired_once<T>(
    cell: CellState<T>,
    scope: ScopeState,
    subscriber: usize,
    observer: u64,
)
    ensures
        cell.fired(scope).contains(Fired::Subscriber(subscriber))
            == cell.fired_subscribers().contains(subscriber),
        cell.fired(scope).contains(Fired::Observer(observer)) == cell.fired_observers(
            scope,
        ).contains(observer),
        occurs_once(cell.fired_subscribers(), subscriber) ==> occurs_once(
            cell.fired(scope),
            Fired::Subscriber(subscriber),
        ),
        occurs_once(cell.fired_observers(scope), observer) ==> occurs_once(
            cell.fired(scope),
            Fired::Observer(observer),
        ),
{
    lemma_fired(cell, scope);
    let calls = cell.fired(scope);
    let subscribers = cell.fired_subscribers();
    let observers = cell.fired_observers(scope);
    let n = subscribers.len() as int;
    assert forall|i: int| 0 <= i < calls.len() implies #[trigger] calls[i] == if i < n {
        Fired::Subscriber(subscribers[i])
    } else {
        Fired::Observer(observers[i - n])
    } by {
        if i >= n {
            assert(calls[n + (i - n)] == Fired::Observer(observers[i - n]));
        }
    }
    if calls.contains(Fired::Subscriber(subscriber)) {
        let i = calls.index_of(Fired::Subscriber(subscriber));
        assert(0 <= i < calls.len() && calls[i] == Fired::Subscriber(subscriber));
        assert(subscribers[i] == subscriber);
    }
    if subscribers.contains(subscriber) {
        let i = subscribers.index_of(subscriber);
        assert(0 <= i < n && subscribers[i] == subscriber);
        assert(calls[i] == Fired::Subscriber(subscriber));
    }
    if calls.contains(Fired::Observer(observer)) {
        let i = calls.index_of(Fired::Observer(observer));
        assert(0 <= i < calls.len() && calls[i] == Fired::Observer(observer));
        assert(observers[i - n] == observer);
    }
    if observers.contains(observer) {
        let k = observers.index_of(observer);
        assert(0 <= k < observers.len() && observers[k] == observer);
        assert(calls[n + k] == Fired::Observer(observer));
    }
    if occurs_once(subscribers, subscriber) {
        assert forall|i: int, j: int|
            0 <= i < calls.len() && 0 <= j < calls.len() && calls[i] == Fired::Subscriber(
                subscriber,
            ) && calls[j] == Fired::Subscriber(subscriber) implies i == j by {
            assert(subscribers[i] == subscriber && subscribers[j] == subscriber);
        }
    }
    if occurs_once(observers, observer) {
        assert forall|i: int, j: int|
            0 <= i < calls.len() && 0 <= j < calls.len() && calls[i] == Fired::Observer(observer)
                && calls[j] == Fired::Observer(observer) implies i == j by {
            assert(observers[i - n] == observer && observers[j - n] == observer);
        }
    }
}

/// The write that follows a subscription calls the new subscriber exactly
/// once, with a clone of the value that was written.
pub proof fn law_new_subscriber_is_given_the_written_value<T: Clone, F: Fn(&T), G: FnMut()>(
    cell: CellState<T>,
    callbacks: Seq<F>,
    callback: F,
    value: T,
    scope: ObserverScope<G>,
    notified: Notified<T>,
)
    requires
        cell.wf(),
        cell.next_id < usize::MAX,
        callbacks.len() == cell.subscribers.len(),
        fans_out(cell.subscribe().write(value), callbacks.push(callback), scope, notified),
    ensures
        cloned(value, notified.value),
        occurs_once(notified.calls@, Fired::Subscriber(cell.next_id as usize)),
        call_ensures(callback, (&notified.value,), ()),
{
    law_subscriber_fires_once_until_unsubscribed(cell, value);
    lemma_fired_once(cell.subscribe().write(value), scope@, cell.next_id as usize, 0);
    assert(callbacks.push(callback)[callbacks.len() as int] == callback);
}

/// A write to a cell that was read during a live session runs the
/// session's invalidate action, and reports the run exactly once.
pub proof fn law_live_observer_is_invalidated_once<T: Clone, F: Fn(&T), G: FnMut()>(
    cell: CellState<T>,
    callbacks: Seq<F>,
    value: T,
    scope: ObserverScope<G>,
    notified: Notified<T>,
)
    requires
        cell.wf(),
        scope.wf(),
        scope@.current is Some,
        fans_out(cell.track(scope@.current).write(value), callbacks, scope, notified),
    ensures
        occurs_once(notified.calls@, Fired::Observer(scope@.current->0)),
        call_ensures(scope.callback_of(scope@.current->0), (), ()),
{
    law_tracked_read_invalidates_once_per_write(cell, scope@, value);
    let id = scope@.current->0;
    let written = cell.track(scope@.current).write(value);
    lemma_fired_once(written, scope@, 0, id);
    let at = written.fired_observers(scope@).index_of(id);
    assert(0 <= at < written.fired_observers(scope@).len() && written.fired_observers(scope@)[at]
        == id);
}

/// A write does not report a run of the action of a session that has
/// ended.
pub proof fn law_ended_observer_is_not_invalidated<T: Clone, F: Fn(&T), G: FnMut()>(
    cell: CellState<T>,
    callbacks: Seq<F>,
    value: T,
    scope: ObserverScope<G>,
    notified: Notified<T>,
    id: u64,
)
    requires
        !scope@.is_live(id),
        fans_out(cell.write(value), callbacks, scope, notified),
    ensures
        !notified.calls@.contains(Fired::Observer(id)),
{
    lemma_filter_contains(cell.links, |link: u64| scope@.is_live(link), id);
    lemma_fired_once(cell.write(value), scope@, 0, id);
}

/// Taking an identity out of ascending identities below a bound leaves
/// ascending identities below that bound.
proof fn lemma_without_keeps_order(ids: Seq<usize>, id: usize, bound: nat)
    requires
        forall|i: int, j: int| 0 <= i < j < ids.len() ==> ids[i] < ids[j],
        forall|i: int| 0 <= i < ids.len() ==> (#[trigger] ids[i]) < bound,
    ensures
        forall|i: int, j: int|
            0 <= i < j < without(ids, id).len() ==> without(ids, id)[i] < without(ids, id)[j],
        forall|i: int| 0 <= i < without(ids, id).len() ==> (#[trigger] without(ids, id)[i]) < bound,
{
    if ids.contains(id) {
        let at = ids.index_of(id);
        assert(0 <= at < ids.len() && ids[at] == id);
        lemma_without_at(ids, at);
    } else {
        lemma_without_absent(ids, id);
    }
}

} // verus!
