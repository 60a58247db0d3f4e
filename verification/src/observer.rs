//! Observation sessions and the ambient observer slot.
//!
//! A tracked read has to find out who is watching without being told by its
//! caller's caller. The [`ObserverScope`] is the place it looks: it owns the
//! invalidate action of every live observation session and remembers which
//! one of them is installed as the ambient observer. A cell that was read
//! during a session keeps only the session's identity; whether that identity
//! still resolves to an action is decided here, so ending a session is enough
//! to make every link to it dead.

use crate::seqs::{
    lemma_index_of_at, lemma_push_contains, lemma_remove_keeps_others, lemma_without_absent,
    lemma_without_at, lemma_without_contains, without,
};
use vstd::prelude::*;

verus! {

/// One live observation session: its identity and its invalidate action.
pub struct Observer<G> {
    id: u64,
    callback: G,
}

/// The mathematical content of an [`ObserverScope`].
pub struct ScopeState {
    /// Identities of the live sessions, in the order they were started.
    pub live: Seq<u64>,
    /// The ambient observer, if one is installed.
    pub current: Option<u64>,
    /// The identity the next session will get.
    pub next_id: nat,
}

impl ScopeState {
    /// A scope in which no session was ever started.
    pub open spec fn empty() -> ScopeState {
        ScopeState { live: Seq::empty(), current: None, next_id: 0 }
    }

    /// Live identities are handed out in ascending order and never reused,
    /// and the ambient observer is always one of the live sessions.
    pub open spec fn wf(self) -> bool {
        &&& forall|i: int, j: int| 0 <= i < j < self.live.len() ==> self.live[i] < self.live[j]
        &&& forall|i: int| 0 <= i < self.live.len() ==> (#[trigger] self.live[i]) < self.next_id
        &&& self.next_id <= u64::MAX
        &&& self.current matches Some(id) ==> self.live.contains(id)
    }

    /// Whether `id` names a session that has not ended.
    pub open spec fn is_live(self, id: u64) -> bool {
        self.live.contains(id)
    }

    /// Starting a session makes it live and installs it, replacing whatever
    /// was installed before.
    pub open spec fn install(self) -> ScopeState {
        ScopeState {
            live: self.live.push(self.next_id as u64),
            current: Some(self.next_id as u64),
            next_id: self.next_id + 1,
        }
    }

    /// Empties the slot, but only if `id` is what it holds.
    pub open spec fn clear_if(self, id: u64) -> ScopeState {
        if self.current == Some(id) {
            ScopeState { current: None, ..self }
        } else {
            self
        }
    }

    /// Ends session `id`: it stops being live, and the slot is emptied if it
    /// held that session.
    pub open spec fn release(self, id: u64) -> ScopeState {
        ScopeState { live: without(self.live, id), ..self.clear_if(id) }
    }
}

/// The ambient observer slot together with the live observation sessions.
///
/// At most one session is installed at a time. Installing another one
/// overwrites the slot: sessions do not nest, the last one installed wins.
pub struct ObserverScope<G> {
    observers: Vec<Observer<G>>,
    current: Option<u64>,
    next_id: u64,
}

impl<G> View for ObserverScope<G> {
    type V = ScopeState;

    closed spec fn view(&self) -> ScopeState {
        ScopeState {
            live: Seq::new(self.observers.len() as nat, |i: int| self.observers[i].id),
            current: self.current,
            next_id: self.next_id as nat,
        }
    }
}

impl<G: FnMut()> ObserverScope<G> {
    /// The invalidate actions of the live sessions, in the order of
    /// `self@.live`.
    pub closed spec fn callbacks(&self) -> Seq<G> {
        Seq::new(self.observers.len() as nat, |i: int| self.observers[i].callback)
    }

    /// The scope's invariant: its state is well formed, every live session
    /// has exactly one action, and each action may be called.
    pub open spec fn wf(&self) -> bool {
        &&& self@.wf()
        &&& self.callbacks().len() == self@.live.len()
        &&& forall|i: int|
            0 <= i < self.callbacks().len() ==> call_requires(#[trigger] self.callbacks()[i], ())
    }

    /// The action of live session `id`.
    pub open spec fn callback_of(&self, id: u64) -> G
        recommends
            self@.is_live(id),
    {
        self.callbacks()[self@.live.index_of(id)]
    }

    /// Creates a scope with no session and an empty slot.
    pub fn new() -> (scope: Self)
        ensures
            scope.wf(),
            scope@ == ScopeState::empty(),
            scope.callbacks() == Seq::<G>::empty(),
    {
        let scope = ObserverScope { observers: Vec::new(), current: None, next_id: 0 };
        assert(scope@.live =~= Seq::<u64>::empty());
        assert(scope.callbacks() =~= Seq::<G>::empty());
        scope
    }

    /// Whether another session can still be given an identity.
    pub fn has_room(&self) -> (room: bool)
        ensures
            room == (self@.next_id < u64::MAX),
    {
        self.next_id < u64::MAX
    }

    /// Starts a session around `callback` and installs it as the ambient
    /// observer, overwriting the slot. Returns the session's identity.
    pub fn install(&mut self, callback: G) -> (id: u64)
        requires
            old(self).wf(),
            old(self)@.next_id < u64::MAX,
            call_requires(callback, ()),
        ensures
            final(self).wf(),
            id == old(self)@.next_id,
            final(self)@ == old(self)@.install(),
            final(self).callbacks() == old(self).callbacks().push(callback),
    {
        let id = self.next_id;
        self.observers.push(Observer { id, callback });
        self.current = Some(id);
        self.next_id = id + 1;
        proof {
            assert(self@.live =~= old(self)@.live.push(id));
            assert(self.callbacks() =~= old(self).callbacks().push(callback));
            assert(self@.live[self@.live.len() - 1] == id);
        }
        id
    }

    /// The ambient observer, if one is installed.
    pub fn current(&self) -> (current: Option<u64>)
        ensures
            current == self@.current,
    {
        self.current
    }

    /// Empties the slot if it holds session `id`, and leaves it alone
    /// otherwise, so that ending an older session cannot uninstall a newer
    /// one.
    pub fn clear_if(&mut self, id: u64)
        requires
            old(self).wf(),
        ensures
            final(self).wf(),
            final(self)@ == old(self)@.clear_if(id),
            final(self).callbacks() == old(self).callbacks(),
    {
        let holds = match self.current {
            Some(installed) => installed == id,
            None => false,
        };
        if holds {
            self.current = None;
        }
    }

    /// Where session `id` stands among the live sessions.
    fn position(&self, id: u64) -> (found: Option<usize>)
        requires
            self.wf(),
        ensures
            found is Some <==> self@.is_live(id),
            found matches Some(i) ==> i < self@.live.len() && self@.live[i as int] == id
                && self@.live.index_of(id) == i,
    {
        let mut i: usize = 0;
        while i < self.observers.len()
            invariant
                self.wf(),
                i <= self.observers.len(),
                forall|k: int| 0 <= k < i ==> self@.live[k] != id,
            decreases self.observers.len() - i,
        {
            if self.observers[i].id == id {
                proof {
                    assert(self@.live[i as int] == id);
                    lemma_index_of_at(self@.live, i as int);
                }
                return Some(i);
            }
            i += 1;
        }
        None
    }

    /// Whether `id` names a session that has not ended.
    pub fn is_live(&self, id: u64) -> (live: bool)
        requires
            self.wf(),
        ensures
            live == self@.is_live(id),
    {
        self.position(id).is_some()
    }

    /// The number of live sessions.
    pub fn live_count(&self) -> (count: usize)
        ensures
            count == self@.live.len(),
    {
        self.observers.len()
    }

    /// Resolves a link to session `id`: if the session is live its action
    /// is run once and `true` is returned; a dead link runs nothing.
    pub fn invalidate(&mut self, id: u64) -> (fired: bool)
        requires
            old(self).wf(),
        ensures
            final(self).wf(),
            final(self)@ == old(self)@,
            final(self).callbacks() == old(self).callbacks(),
            fired == old(self)@.is_live(id),
            fired ==> call_ensures(old(self).callback_of(id), (), ()),
    {
        match self.position(id) {
            Some(i) => {
                assert(self.callbacks()[i as int] == self.observers[i as int].callback);
                (self.observers[i].callback)();
                proof {
                    assert(self@.live =~= old(self)@.live);
                    assert(self.callbacks() =~= old(self).callbacks());
                }
                true
            },
            None => false,
        }
    }

    /// Ends session `id`. Its action is dropped, so every link to it is dead
    /// from now on, and the slot is emptied if it held that session. Ending
    /// a session that is not live changes nothing.
    pub fn release(&mut self, id: u64)
        requires
            old(self).wf(),
        ensures
            final(self).wf(),
            final(self)@ == old(self)@.release(id),
            final(self).callbacks() == if old(self)@.is_live(id) {
                old(self).callbacks().remove(old(self)@.live.index_of(id))
            } else {
                old(self).callbacks()
            },
    {
        self.clear_if(id);
        match self.position(id) {
            Some(i) => {
                let ghost before = self@;
                let ghost before_callbacks = self.callbacks();
                self.observers.remove(i);
                proof {
                    assert(self@.live =~= before.live.remove(i as int));
                    assert(self.callbacks() =~= before_callbacks.remove(i as int));
                    lemma_without_at(before.live, i as int);
                    assert(self@.current matches Some(c) ==> self@.live.contains(c)) by {
                        if let Some(c) = self@.current {
                            lemma_remove_keeps_others(before.live, i as int, c);
                        }
                    }
                }
            },
            None => {
                proof {
                    lemma_without_absent(self@.live, id);
                }
            },
        }
    }
}

/// Every operation keeps a well-formed scope well formed.
pub proof fn law_scope_stays_well_formed(scope: ScopeState, id: u64)
    requires
        scope.wf(),
    ensures
        scope.clear_if(id).wf(),
        scope.release(id).wf(),
        scope.next_id < u64::MAX ==> scope.install().wf(),
{
    let ended = scope.release(id);
    if scope.live.contains(id) {
        let at = scope.live.index_of(id);
        assert(0 <= at < scope.live.len() && scope.live[at] == id);
        lemma_without_at(scope.live, at);
    } else {
        lemma_without_absent(scope.live, id);
    }
    if let Some(kept) = ended.current {
        lemma_without_contains(scope.live, id, kept);
    }
    if scope.next_id < u64::MAX {
        let more = scope.install();
        assert forall|i: int, j: int| 0 <= i < j < more.live.len() implies more.live[i]
            < more.live[j] by {
            if j == scope.live.len() {
                assert(more.live[i] == scope.live[i]);
            }
        }
        assert(more.live[more.live.len() - 1] == scope.next_id as u64);
    }
}

/// Starting a session makes it the ambient observer whatever was installed
/// before, and leaves every other session as live as it was.
pub proof fn law_install_overwrites(scope: ScopeState, other: u64)
    requires
        scope.wf(),
        scope.next_id < u64::MAX,
    ensures
        scope.install().current == Some(scope.next_id as u64),
        scope.install().is_live(scope.next_id as u64),
        !scope.is_live(scope.next_id as u64),
        other != scope.next_id ==> scope.install().is_live(other) == scope.is_live(other),
{
    lemma_push_contains(scope.live, scope.next_id as u64, other);
    lemma_push_contains(scope.live, scope.next_id as u64, scope.next_id as u64);
    if scope.live.contains(scope.next_id as u64) {
        let at = scope.live.index_of(scope.next_id as u64);
        assert(0 <= at < scope.live.len() && scope.live[at] == scope.next_id);
    }
}

/// Ending a session ends that session only, and empties the slot only if
/// the session was the one installed.
pub proof fn law_release_ends_one_session(scope: ScopeState, id: u64, other: u64)
    requires
        scope.wf(),
    ensures
        !scope.release(id).is_live(id),
        other != id ==> scope.release(id).is_live(other) == scope.is_live(other),
        scope.current != Some(id) ==> scope.release(id).current == scope.current,
        scope.current == Some(id) ==> scope.release(id).current is None,
{
    lemma_without_contains(scope.live, id, id);
    lemma_without_contains(scope.live, id, other);
}

/// A session that has ended stays ended: its identity is not handed out
/// again, so nothing that is done to the scope makes it live.
pub proof fn law_ended_session_stays_ended(scope: ScopeState, id: u64, other: u64)
    requires
        scope.wf(),
        id < scope.next_id,
        !scope.is_live(id),
    ensures
        !scope.clear_if(other).is_live(id),
        !scope.release(other).is_live(id),
        scope.next_id < u64::MAX ==> !scope.install().is_live(id) && id < scope.install().next_id,
{
    lemma_without_contains(scope.live, other, id);
    lemma_push_contains(scope.live, scope.next_id as u64, id);
}

/// The handle of one observation session.
///
/// Creating the handle starts the session and installs it as the ambient
/// observer; disposing of it ends the session. A handle is used up by its
/// disposal: observing again takes a new handle.
pub struct ObserverContext {
    id: u64,
}

impl ObserverContext {
    /// The identity of the session this handle stands for.
    pub closed spec fn session(&self) -> u64 {
        self.id
    }

    /// Starts a session whose invalidate action is `update_fn` and installs
    /// it in `scope`, replacing the ambient observer that was there.
    pub fn new<G: FnMut()>(scope: &mut ObserverScope<G>, update_fn: G) -> (handle: Self)
        requires
            old(scope).wf(),
            old(scope)@.next_id < u64::MAX,
            call_requires(update_fn, ()),
        ensures
            final(scope).wf(),
            handle.session() == old(scope)@.next_id,
            final(scope)@ == old(scope)@.install(),
            final(scope).callbacks() == old(scope).callbacks().push(update_fn),
    {
        let id = scope.install(update_fn);
        ObserverContext { id }
    }

    /// The identity of the session this handle stands for.
    pub fn id(&self) -> (id: u64)
        ensures
            id == self.session(),
    {
        self.id
    }

    /// Ends the session. The slot is emptied only if this session is the
    /// one installed, and the session's action will not run again.
    pub fn dispose<G: FnMut()>(self, scope: &mut ObserverScope<G>)
        requires
            old(scope).wf(),
        ensures
            final(scope).wf(),
            final(scope)@ == old(scope)@.release(self.session()),
            final(scope).callbacks() == if old(scope)@.is_live(self.session()) {
                old(scope).callbacks().remove(old(scope)@.live.index_of(self.session()))
            } else {
                old(scope).callbacks()
            },
    {
        scope.release(self.id);
    }
}

} // verus!
