//! Named store contexts and the manager that keeps them.
//!
//! A context is a registry with a name. A manager keeps contexts by name,
//! always holds one called `default`, and remembers which of them is the
//! current one.

use crate::store::{hands_out, Store, StoreRegistry};
use vstd::prelude::*;

verus! {

/// The name of the context that a manager always holds.
pub open spec fn default_name() -> Seq<char> {
    "default"@
}

/// A registry of stores with a name.
pub struct StoreContext<S> {
    stores: StoreRegistry<S>,
    name: String,
}

impl<S> View for StoreContext<S> {
    type V = Map<u64, S>;

    closed spec fn view(&self) -> Map<u64, S> {
        self.stores@
    }
}

impl<S> StoreContext<S> {
    /// The context's name.
    pub closed spec fn label(&self) -> Seq<char> {
        self.name@
    }

    /// Creates an empty context called `default`.
    pub fn new() -> (context: Self)
        ensures
            context@ == Map::<u64, S>::empty(),
            context.label() == default_name(),
    {
        StoreContext { stores: StoreRegistry::new(), name: "default".to_owned() }
    }

    /// Creates an empty context called `name`.
    pub fn with_name(name: &str) -> (context: Self)
        ensures
            context@ == Map::<u64, S>::empty(),
            context.label() == name@,
    {
        StoreContext { stores: StoreRegistry::new(), name: name.to_owned() }
    }

    /// Registers `store` under its own kind. A store of that kind that was
    /// registered before is replaced.
    pub fn register(&mut self, store: S) where S: Store
        ensures
            final(self).label() == old(self).label(),
            final(self)@ == old(self)@.insert(store.kind(), store),
    {
        self.stores.register(store);
    }

    /// Hands out the store of kind `id`, if one is registered. What is done
    /// to the store through the handle is done to the registered instance.
    pub fn get(&mut self, id: u64) -> (found: Option<&mut S>)
        ensures
            final(self).label() == old(self).label(),
            found is Some <==> old(self)@.contains_key(id),
            found is None ==> final(self)@ == old(self)@,
            found matches Some(handle) ==> *handle == old(self)@[id],
            found matches Some(handle) ==> final(self)@ == old(self)@.insert(id, *final(handle)),
    {
        self.stores.get(id)
    }

    /// Hands out the store of kind `id`. If none is registered, a store is
    /// made by `S::default()`, registered under `id`, and handed out.
    pub fn get_or_create(&mut self, id: u64) -> (handle: &mut S) where S: Store + Default
        ensures
            final(self).label() == old(self).label(),
            hands_out(old(self)@, id, *handle, *final(handle), final(self)@),
            !old(self)@.contains_key(id) ==> call_ensures(S::default, (), *handle),
    {
        self.stores.get_or_create(id)
    }

    /// Hands out the store of kind `id`. If none is registered, a store is
    /// made by `create`, registered under `id`, and handed out.
    pub fn get_or_create_with<C: FnOnce() -> S>(&mut self, id: u64, create: C) -> (handle: &mut S)
        requires
            !old(self)@.contains_key(id) ==> call_requires(create, ()),
        ensures
            final(self).label() == old(self).label(),
            hands_out(old(self)@, id, *handle, *final(handle), final(self)@),
            !old(self)@.contains_key(id) ==> call_ensures(create, (), *handle),
    {
        self.stores.get_or_create_with(id, create)
    }

    /// Whether a store of kind `id` is registered.
    pub fn has(&self, id: u64) -> (found: bool)
        ensures
            found == self@.contains_key(id),
    {
        self.stores.has(id)
    }

    /// Takes the store of kind `id` out of the context, if there is one.
    pub fn remove(&mut self, id: u64)
        ensures
            final(self).label() == old(self).label(),
            final(self)@ == old(self)@.remove(id),
    {
        self.stores.remove(id);
    }

    /// Takes every store out of the context.
    pub fn clear(&mut self)
        ensures
            final(self).label() == old(self).label(),
            final(self)@ == Map::<u64, S>::empty(),
    {
        self.stores.clear();
    }

    /// The context's name.
    pub fn name(&self) -> (name: &str)
        ensures
            name@ == self.label(),
    {
        self.name.as_str()
    }

    /// The number of registered stores.
    pub fn count(&self) -> (count: usize)
        ensures
            count == self@.len(),
            self@.dom().finite(),
    {
        self.stores.count()
    }

    /// The same stores under another name. The stores have one owner, so
    /// this context is used up.
    pub fn clone_to(self, name: &str) -> (context: Self)
        ensures
            context@ == self@,
            context.label() == name@,
    {
        StoreContext { stores: self.stores, name: name.to_owned() }
    }
}

impl<S> Default for StoreContext<S> {
    /// An empty context called `default`.
    fn default() -> (context: Self)
        ensures
            context@ == Map::<u64, S>::empty(),
            context.label() == default_name(),
    {
        StoreContext::new()
    }
}

/// Registers `store` in `context`.
pub fn provide_store<S: Store>(context: &mut StoreContext<S>, store: S)
    ensures
        final(context).label() == old(context).label(),
        final(context)@ == old(context)@.insert(store.kind(), store),
{
    context.register(store);
}

/// Hands out the store of kind `id` in `context`, making and registering a
/// default store if none is registered.
pub fn use_context_store<S: Store + Default>(context: &mut StoreContext<S>, id: u64) -> (handle:
    &mut S)
    ensures
        final(context).label() == old(context).label(),
        hands_out(old(context)@, id, *handle, *final(handle), final(context)@),
        !old(context)@.contains_key(id) ==> call_ensures(S::default, (), *handle),
{
    context.get_or_create(id)
}

/// Hands out the store of kind `id` in `context`, if one is registered.
pub fn get_context_store<S>(context: &mut StoreContext<S>, id: u64) -> (found: Option<&mut S>)
    ensures
        final(context).label() == old(context).label(),
        found is Some <==> old(context)@.contains_key(id),
        found is None ==> final(context)@ == old(context)@,
        found matches Some(handle) ==> *handle == old(context)@[id],
        found matches Some(handle) ==> final(context)@ == old(context)@.insert(id, *final(handle)),
{
    context.get(id)
}

/// The mathematical content of a [`ContextManager`].
pub struct ManagerState<S> {
    /// The contexts, by the names they are kept under.
    pub contexts: Map<Seq<char>, StoreContext<S>>,
    /// The name of the current context.
    pub current: Seq<char>,
}

/// Contexts kept by name, one of which is the current one.
pub struct ContextManager<S> {
    contexts: Vec<(String, StoreContext<S>)>,
    current: String,
}

impl<S> View for ContextManager<S> {
    type V = ManagerState<S>;

    closed spec fn view(&self) -> ManagerState<S> {
        ManagerState {
            contexts: Map::new(
                |name: Seq<char>| self.holds(name),
                |name: Seq<char>| self.contexts[self.place_of(name)].1,
            ),
            current: self.current@,
        }
    }
}

impl<S> ContextManager<S> {
    /// Whether a context is kept under `name`.
    closed spec fn holds(&self, name: Seq<char>) -> bool {
        exists|i: int| 0 <= i < self.contexts.len() && (#[trigger] self.contexts[i]).0@ == name
    }

    /// A place at which a context is kept under `name`.
    closed spec fn place_of(&self, name: Seq<char>) -> int {
        choose|i: int| 0 <= i < self.contexts.len() && (#[trigger] self.contexts[i]).0@ == name
    }

    /// The manager's invariant: no name is used twice, and a context is
    /// kept under `default`.
    pub closed spec fn wf(&self) -> bool {
        &&& forall|i: int, j: int|
            0 <= i < j < self.contexts.len() ==> (#[trigger] self.contexts[i]).0@
                != (#[trigger] self.contexts[j]).0@
        &&& self.holds(default_name())
    }

    /// A well-formed manager keeps a context under `default`.
    pub proof fn lemma_wf(&self)
        requires
            self.wf(),
        ensures
            self@.contexts.contains_key(default_name()),
    {
    }

    /// Creates a manager that keeps one empty context, called `default`,
    /// which is the current one.
    pub fn new() -> (manager: Self)
        ensures
            manager.wf(),
            manager@.current == default_name(),
            manager@.contexts.dom() == set![default_name()],
            manager@.contexts[default_name()]@ == Map::<u64, S>::empty(),
            manager@.contexts[default_name()].label() == default_name(),
    {
        let mut contexts: Vec<(String, StoreContext<S>)> = Vec::new();
        contexts.push(("default".to_owned(), StoreContext::new()));
        let manager = ContextManager { contexts, current: "default".to_owned() };
        proof {
            assert(manager.contexts[0].0@ == default_name());
            assert(manager.holds(default_name()));
            assert(manager.place_of(default_name()) == 0);
            assert(manager@.contexts.dom() =~= set![default_name()]);
        }
        manager
    }

    /// Where the context called `name` stands.
    fn position(&self, name: &String) -> (found: Option<usize>)
        requires
            self.wf(),
        ensures
            found is Some <==> self@.contexts.contains_key(name@),
            found matches Some(i) ==> i < self.contexts.len() && self.contexts[i as int].0@ == name@
                && self.place_of(name@) == i && self@.contexts[name@] == self.contexts[i as int].1,
    {
        let mut i: usize = 0;
        while i < self.contexts.len()
            invariant
                self.wf(),
                i <= self.contexts.len(),
                forall|k: int| 0 <= k < i ==> (#[trigger] self.contexts[k]).0@ != name@,
            decreases self.contexts.len() - i,
        {
            if self.contexts[i].0 == *name {
                return Some(i);
            }
            i += 1;
        }
        None
    }

    /// Whether a context is kept under `name`.
    pub fn has_context(&self, name: &str) -> (found: bool)
        requires
            self.wf(),
        ensures
            found == self@.contexts.contains_key(name@),
    {
        let key = name.to_owned();
        self.position(&key).is_some()
    }

    /// The name of the current context.
    pub fn current_name(&self) -> (name: &str)
        ensures
            name@ == self@.current,
    {
        self.current.as_str()
    }

    /// Puts an empty context under `name`, in the place of a context that
    /// was kept under that name, and hands it out.
    pub fn create_context(&mut self, name: &str) -> (context: &mut StoreContext<S>)
        requires
            old(self).wf(),
        ensures
            context@ == Map::<u64, S>::empty(),
            context.label() == name@,
            final(self)@.contexts == old(self)@.contexts.insert(name@, *final(context)),
            final(self)@.current == old(self)@.current,
            final(self).wf(),
    {
        let key = name.to_owned();
        let fresh = StoreContext::with_name(name);
        match self.position(&key) {
            Some(i) => {
                let ghost before = *self;
                self.contexts[i] = (key, fresh);
                proof {
                    lemma_rewritten(before, *self, i as int);
                    lemma_handle(*self, i as int);
                    assert(forall|after: StoreContext<S>|
                        before@.contexts.insert(name@, fresh).insert(name@, after)
                            =~= before@.contexts.insert(name@, after));
                }
                &mut self.contexts[i].1
            },
            None => {
                let ghost before = *self;
                self.contexts.push((key, fresh));
                let at = self.contexts.len() - 1;
                proof {
                    lemma_pushed(before, *self);
                    lemma_handle(*self, at as int);
                    assert(forall|after: StoreContext<S>|
                        before@.contexts.insert(name@, fresh).insert(name@, after)
                            =~= before@.contexts.insert(name@, after));
                }
                &mut self.contexts[at].1
            },
        }
    }

    /// Hands out the context called `name`, if one is kept.
    pub fn get_context(&mut self, name: &str) -> (found: Option<&mut StoreContext<S>>)
        requires
            old(self).wf(),
        ensures
            found is Some <==> old(self)@.contexts.contains_key(name@),
            found is None ==> *final(self) == *old(self),
            found matches Some(context) ==> {
                &&& *context == old(self)@.contexts[name@]
                &&& final(self)@.contexts == old(self)@.contexts.insert(name@, *final(context))
                &&& final(self)@.current == old(self)@.current
                &&& final(self).wf()
            },
    {
        let key = name.to_owned();
        match self.position(&key) {
            Some(i) => {
                proof {
                    lemma_handle(*self, i as int);
                }
                Some(&mut self.contexts[i].1)
            },
            None => None,
        }
    }

    /// Makes the context called `name` the current one. If no context is
    /// kept under that name, the current context stays what it is.
    pub fn set_current(&mut self, name: &str)
        requires
            old(self).wf(),
        ensures
            final(self).wf(),
            final(self)@.contexts == old(self)@.contexts,
            final(self)@.current == if old(self)@.contexts.contains_key(name@) {
                name@
            } else {
                old(self)@.current
            },
    {
        let key = name.to_owned();
        if self.position(&key).is_some() {
            self.current = key;
            proof {
                lemma_same_contexts(*old(self), *self);
            }
        }
    }

    /// Hands out the current context.
    ///
    /// The current context is missing after it was removed: a caller that
    /// is not sure looks it up by `current_name`.
    pub fn current(&mut self) -> (context: &mut StoreContext<S>)
        requires
            old(self).wf(),
            old(self)@.contexts.contains_key(old(self)@.current),
        ensures
            *context == old(self)@.contexts[old(self)@.current],
            final(self)@.contexts == old(self)@.contexts.insert(
                old(self)@.current,
                *final(context),
            ),
            final(self)@.current == old(self)@.current,
            final(self).wf(),
    {
        let at = self.position(&self.current).unwrap();
        proof {
            lemma_handle(*self, at as int);
        }
        &mut self.contexts[at].1
    }

    /// Takes the context called `name` out of the manager. The context
    /// called `default` is never taken out.
    pub fn remove_context(&mut self, name: &str)
        requires
            old(self).wf(),
        ensures
            final(self).wf(),
            final(self)@.current == old(self)@.current,
            final(self)@.contexts == if name@ == default_name() {
                old(self)@.contexts
            } else {
                old(self)@.contexts.remove(name@)
            },
    {
        let key = name.to_owned();
        let kept = "default".to_owned();
        if key != kept {
            match self.position(&key) {
                Some(i) => {
                    self.contexts.remove(i);
                    proof {
                        lemma_removed(*old(self), *self, i as int);
                    }
                },
                None => {
                    proof {
                        assert(self@.contexts =~= old(self)@.contexts.remove(name@));
                    }
                },
            }
        }
    }

    /// Takes every context but the one called `default` out of the
    /// manager, and makes that one the current context.
    pub fn clear(&mut self)
        requires
            old(self).wf(),
        ensures
            final(self).wf(),
            final(self)@.current == default_name(),
            final(self)@.contexts == old(self)@.contexts.restrict(set![default_name()]),
    {
        let kept = "default".to_owned();
        let ghost start = *self;
        proof {
            self.lemma_wf();
        }
        let mut i: usize = self.contexts.len();
        while i > 0
            invariant
                self.wf(),
                kept@ == default_name(),
                i <= self.contexts.len(),
                self.current == start.current,
                self@.contexts.contains_key(default_name()),
                self@.contexts[default_name()] == start@.contexts[default_name()],
                forall|k: int|
                    i <= k < self.contexts.len() ==> (#[trigger] self.contexts[k]).0@
                        == default_name(),
            decreases i,
        {
            i -= 1;
            if !(self.contexts[i].0 == kept) {
                let ghost before = *self;
                self.contexts.remove(i);
                proof {
                    lemma_removed(before, *self, i as int);
                    assert forall|k: int| i <= k < self.contexts.len() implies (
                    #[trigger] self.contexts[k]).0@ == default_name() by {
                        assert(self.contexts[k] == before.contexts[k + 1]);
                    }
                }
            }
        }
        let ghost swept = *self;
        self.current = kept;
        proof {
            lemma_same_contexts(swept, *self);
            assert forall|name: Seq<char>| self@.contexts.contains_key(name) implies name
                == default_name() by {
                let k = self.place_of(name);
                assert(self.contexts[k].0@ == default_name());
            }
            assert(self@.contexts =~= old(self)@.contexts.restrict(set![default_name()]));
        }
    }
}

impl<S> Default for ContextManager<S> {
    /// A manager that keeps one empty context, called `default`.
    fn default() -> (manager: Self)
        ensures
            manager.wf(),
            manager@.current == default_name(),
            manager@.contexts.dom() == set![default_name()],
            manager@.contexts[default_name()]@ == Map::<u64, S>::empty(),
            manager@.contexts[default_name()].label() == default_name(),
    {
        ContextManager::new()
    }
}

/// Puts an empty context under `name` in `manager` and hands it out.
pub fn create_named_context<'a, S>(manager: &'a mut ContextManager<S>, name: &str) -> (context:
    &'a mut StoreContext<S>)
    requires
        old(manager).wf(),
    ensures
        context@ == Map::<u64, S>::empty(),
        context.label() == name@,
        final(manager)@.contexts == old(manager)@.contexts.insert(name@, *final(context)),
        final(manager)@.current == old(manager)@.current,
        final(manager).wf(),
{
    manager.create_context(name)
}

/// Makes the context called `name` the current one of `manager`, if such a
/// context is kept.
pub fn switch_to_context<S>(manager: &mut ContextManager<S>, name: &str)
    requires
        old(manager).wf(),
    ensures
        final(manager).wf(),
        final(manager)@.contexts == old(manager)@.contexts,
        final(manager)@.current == if old(manager)@.contexts.contains_key(name@) {
            name@
        } else {
            old(manager)@.current
        },
{
    manager.set_current(name);
}

/// Hands out the current context of `manager`.
pub fn current_context<S>(manager: &mut ContextManager<S>) -> (context: &mut StoreContext<S>)
    requires
        old(manager).wf(),
        old(manager)@.contexts.contains_key(old(manager)@.current),
    ensures
        *context == old(manager)@.contexts[old(manager)@.current],
        final(manager)@.contexts == old(manager)@.contexts.insert(
            old(manager)@.current,
            *final(context),
        ),
        final(manager)@.current == old(manager)@.current,
        final(manager).wf(),
{
    manager.current()
}

/// `after` is `before` with the context at place `at` changed, and nothing
/// else.
spec fn rewritten<S>(before: ContextManager<S>, after: ContextManager<S>, at: int) -> bool {
    &&& after.contexts.len() == before.contexts.len()
    &&& after.current == before.current
    &&& forall|i: int|
        0 <= i < before.contexts.len() ==> (#[trigger] after.contexts[i]).0@
            == before.contexts[i].0@
    &&& forall|i: int|
        0 <= i < before.contexts.len() && i != at ==> (#[trigger] after.contexts[i]).1
            == before.contexts[i].1
}

/// Changing the context at one place changes the context of that name and
/// nothing else.
proof fn lemma_rewritten<S>(before: ContextManager<S>, after: ContextManager<S>, at: int)
    requires
        before.wf(),
        0 <= at < before.contexts.len(),
        rewritten(before, after, at),
    ensures
        after.wf(),
        after@.contexts == before@.contexts.insert(before.contexts[at].0@, after.contexts[at].1),
        after@.current == before@.current,
{
    let name = before.contexts[at].0@;
    assert forall|i: int, j: int| 0 <= i < j < after.contexts.len() implies (
    #[trigger] after.contexts[i]).0@ != (#[trigger] after.contexts[j]).0@ by {
        assert(before.contexts[i].0@ != before.contexts[j].0@);
    }
    assert(after.contexts[at].0@ == name);
    assert forall|other: Seq<char>| after.holds(other) == (before.holds(other) || other
        == name) by {
        if before.holds(other) {
            let k = before.place_of(other);
            assert(after.contexts[k].0@ == other);
        }
        if after.holds(other) {
            let k = after.place_of(other);
            assert(before.contexts[k].0@ == other);
        }
    }
    assert forall|other: Seq<char>| after.holds(other) && other != name implies after.contexts[
        after.place_of(other)
    ].1 == before.contexts[before.place_of(other)].1 by {
        let k = after.place_of(other);
        assert(before.contexts[k].0@ == other);
    }
    assert(after@.contexts =~= before@.contexts.insert(name, after.contexts[at].1));
}

/// A handle to the context at place `at` stands for the context of that
/// name.
proof fn lemma_handle<S>(manager: ContextManager<S>, at: int)
    requires
        manager.wf(),
        0 <= at < manager.contexts.len(),
    ensures
        manager@.contexts.contains_key(manager.contexts[at].0@),
        manager@.contexts[manager.contexts[at].0@] == manager.contexts[at].1,
        forall|after: ContextManager<S>|
            #![trigger after@]
            #![trigger after.wf()]
            rewritten(manager, after, at) ==> {
                &&& after@.contexts == manager@.contexts.insert(
                    manager.contexts[at].0@,
                    after.contexts[at].1,
                )
                &&& after@.current == manager@.current
                &&& after.wf()
            },
{
    assert forall|after: ContextManager<S>|
        #![trigger after@]
        #![trigger after.wf()]
        rewritten(manager, after, at) implies {
        &&& after@.contexts == manager@.contexts.insert(
            manager.contexts[at].0@,
            after.contexts[at].1,
        )
        &&& after@.current == manager@.current
        &&& after.wf()
    } by {
        lemma_rewritten(manager, after, at);
    }
}

/// What appending a context under a name that is not used does.
proof fn lemma_pushed<S>(before: ContextManager<S>, after: ContextManager<S>)
    requires
        before.wf(),
        after.current == before.current,
        after.contexts.len() == before.contexts.len() + 1,
        forall|i: int| 0 <= i < before.contexts.len() ==> after.contexts[i] == before.contexts[i],
        !before@.contexts.contains_key(after.contexts[before.contexts.len() as int].0@),
    ensures
        after.wf(),
        after@.contexts == before@.contexts.insert(
            after.contexts[before.contexts.len() as int].0@,
            after.contexts[before.contexts.len() as int].1,
        ),
        after@.current == before@.current,
{
    let last = before.contexts.len() as int;
    let name = after.contexts[last].0@;
    assert forall|i: int, j: int| 0 <= i < j < after.contexts.len() implies (
    #[trigger] after.contexts[i]).0@ != (#[trigger] after.contexts[j]).0@ by {
        if j < last {
            assert(before.contexts[i].0@ != before.contexts[j].0@);
        } else {
            assert(before.contexts[i].0@ == after.contexts[i].0@);
        }
    }
    assert forall|other: Seq<char>| after.holds(other) == (before.holds(other) || other
        == name) by {
        if before.holds(other) {
            let k = before.place_of(other);
            assert(after.contexts[k].0@ == other);
        }
        if after.holds(other) {
            let k = after.place_of(other);
            if k < last {
                assert(before.contexts[k].0@ == other);
            }
        }
        if other == name {
            assert(after.contexts[last].0@ == other);
        }
    }
    assert forall|other: Seq<char>| after.holds(other) && other != name implies after.contexts[
        after.place_of(other)
    ].1 == before.contexts[before.place_of(other)].1 by {
        let k = after.place_of(other);
        assert(before.contexts[k].0@ == other);
    }
    assert(after@.contexts =~= before@.contexts.insert(name, after.contexts[last].1));
}

/// What removing the place of a context that is not the default one does.
proof fn lemma_removed<S>(before: ContextManager<S>, after: ContextManager<S>, at: int)
    requires
        before.wf(),
        0 <= at < before.contexts.len(),
        before.contexts[at].0@ != default_name(),
        after.current == before.current,
        after.contexts@ == before.contexts@.remove(at),
    ensures
        after.wf(),
        after@.contexts == before@.contexts.remove(before.contexts[at].0@),
        after@.current == before@.current,
{
    let name = before.contexts[at].0@;
    assert forall|k: int| 0 <= k < after.contexts.len() implies #[trigger] after.contexts[k]
        == before.contexts[if k < at { k } else { k + 1 }] by {}
    assert forall|other: Seq<char>| after.holds(other) == (before.holds(other) && other
        != name) by {
        if before.holds(other) && other != name {
            let k = before.place_of(other);
            let to = if k < at { k } else { k - 1 };
            assert(after.contexts[to].0@ == other);
        }
        if after.holds(other) {
            let k = after.place_of(other);
            let from = if k < at { k } else { k + 1 };
            assert(before.contexts[from].0@ == other);
        }
    }
    assert forall|other: Seq<char>| after.holds(other) implies after.contexts[after.place_of(
        other,
    )].1 == before.contexts[before.place_of(other)].1 by {
        let k = after.place_of(other);
        let from = if k < at { k } else { k + 1 };
        assert(before.contexts[from].0@ == other);
    }
    assert(after@.contexts =~= before@.contexts.remove(name));
    assert forall|i: int, j: int| 0 <= i < j < after.contexts.len() implies (
    #[trigger] after.contexts[i]).0@ != (#[trigger] after.contexts[j]).0@ by {
        let fi = if i < at { i } else { i + 1 };
        let fj = if j < at { j } else { j + 1 };
        assert(before.contexts[fi].0@ != before.contexts[fj].0@);
    }
}

/// Managers that keep the same contexts at the same places have the same
/// contexts by name.
proof fn lemma_same_contexts<S>(before: ContextManager<S>, after: ContextManager<S>)
    requires
        after.contexts == before.contexts,
    ensures
        after@.contexts == before@.contexts,
        before.wf() ==> after.wf(),
{
    assert forall|name: Seq<char>| after.holds(name) == before.holds(name) by {
        if before.holds(name) {
            let k = before.place_of(name);
            assert(after.contexts[k].0@ == name);
        }
        if after.holds(name) {
            let k = after.place_of(name);
            assert(before.contexts[k].0@ == name);
        }
    }
    assert(after@.contexts =~= before@.contexts);
}

} // verus!
