use reaxion::observer::{ObserverContext, ObserverScope};
use reaxion::Reaxion;
use std::cell::RefCell;
use std::rc::Rc;

type Invalidate = Box<dyn FnMut()>;

fn counter(count: &Rc<RefCell<u32>>) -> Invalidate {
    let count = Rc::clone(count);
    Box::new(move || *count.borrow_mut() += 1)
}

#[test]
fn version_is_one_point_zero() {
    assert_eq!(Reaxion::version(), "1.0.0");
    Reaxion::init();
}

#[test]
fn new_scope_is_empty() {
    let scope: ObserverScope<Invalidate> = ObserverScope::new();
    assert_eq!(scope.current(), None);
    assert_eq!(scope.live_count(), 0);
    assert!(scope.has_room());
    assert!(!scope.is_live(0));
}

#[test]
fn installing_overwrites_the_slot() {
    let mut scope: ObserverScope<Invalidate> = ObserverScope::new();
    let first = scope.install(Box::new(|| {}));
    assert_eq!(scope.current(), Some(first));
    let second = scope.install(Box::new(|| {}));
    assert_eq!(first, 0);
    assert_eq!(second, 1);
    assert_eq!(scope.current(), Some(second));
    assert!(scope.is_live(first));
    assert!(scope.is_live(second));
    assert_eq!(scope.live_count(), 2);
}

#[test]
fn clear_if_spares_a_newer_session() {
    let mut scope: ObserverScope<Invalidate> = ObserverScope::new();
    let first = scope.install(Box::new(|| {}));
    let second = scope.install(Box::new(|| {}));
    scope.clear_if(first);
    assert_eq!(scope.current(), Some(second));
    scope.clear_if(second);
    assert_eq!(scope.current(), None);
    scope.clear_if(second);
    assert_eq!(scope.current(), None);
    assert!(scope.is_live(first) && scope.is_live(second));
}

#[test]
fn disposing_an_older_handle_keeps_the_newer_installed() {
    let mut scope: ObserverScope<Invalidate> = ObserverScope::new();
    let outer = ObserverContext::new(&mut scope, Box::new(|| {}));
    let inner = ObserverContext::new(&mut scope, Box::new(|| {}));
    let outer_id = outer.id();
    let inner_id = inner.id();
    outer.dispose(&mut scope);
    assert_eq!(scope.current(), Some(inner_id));
    assert!(!scope.is_live(outer_id));
    assert!(scope.is_live(inner_id));
    inner.dispose(&mut scope);
    assert_eq!(scope.current(), None);
    assert_eq!(scope.live_count(), 0);
}

#[test]
fn invalidate_runs_live_sessions_only() {
    let mut scope: ObserverScope<Invalidate> = ObserverScope::new();
    let fired = Rc::new(RefCell::new(0));
    let id = scope.install(counter(&fired));
    assert!(scope.invalidate(id));
    assert!(scope.invalidate(id));
    assert!(!scope.invalidate(id + 1));
    assert_eq!(*fired.borrow(), 2);
    scope.release(id);
    assert!(!scope.invalidate(id));
    assert_eq!(*fired.borrow(), 2);
    scope.release(id);
    assert_eq!(scope.live_count(), 0);
}

#[test]
fn identities_are_never_reused() {
    let mut scope: ObserverScope<Invalidate> = ObserverScope::new();
    let first = scope.install(Box::new(|| {}));
    scope.release(first);
    let second = scope.install(Box::new(|| {}));
    assert!(second > first);
    assert!(!scope.is_live(first));
}
