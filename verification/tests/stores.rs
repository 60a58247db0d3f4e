use reaxion::observable::Observable;
use reaxion::observer::ObserverScope;
use reaxion::store::{
    clear_all_stores, create_store, get_store, has_store, register_store, remove_store,
    store_action, store_action_mut, store_count, use_store, GlobalStore, SimpleStore, Store,
    StoreRegistry,
};

type Callback = Box<dyn Fn(&i32)>;
type Invalidate = Box<dyn FnMut()>;
type Counter = SimpleStore<i32, Callback>;

#[test]
fn get_or_create_registers_a_default_store() {
    let mut registry: StoreRegistry<Counter> = StoreRegistry::new();
    assert!(!registry.has(0));
    assert_eq!(registry.count(), 0);
    let store = registry.get_or_create(0);
    assert_eq!(store.id(), 0);
    assert!(registry.has(0));
    assert_eq!(registry.count(), 1);
    registry.remove(0);
    assert!(!registry.has(0));
    assert_eq!(registry.count(), 0);
}

#[test]
fn handles_to_one_kind_share_the_instance() {
    let mut scope: ObserverScope<Invalidate> = ObserverScope::new();
    let mut registry: StoreRegistry<Counter> = StoreRegistry::new();
    registry.get_or_create(0).set(41, &mut scope);
    assert_eq!(registry.get_or_create(0).get(&scope), 41);
    registry.get_or_create(0).value().update(|value| *value += 1, &mut scope);
    assert_eq!(registry.get(0).unwrap().get(&scope), 42);
    assert_eq!(registry.count(), 1);
}

#[test]
fn get_of_an_absent_store_is_none() {
    let mut registry: StoreRegistry<Counter> = StoreRegistry::new();
    assert!(registry.get(3).is_none());
    assert!(registry.peek(3).is_none());
    registry.register(SimpleStore::new(3, 1));
    assert!(registry.get(3).is_some());
    assert_eq!(registry.peek(3).unwrap().id(), 3);
    assert!(registry.get(4).is_none());
}

#[test]
fn register_replaces_a_store_of_the_same_kind() {
    let scope: ObserverScope<Invalidate> = ObserverScope::new();
    let mut registry: StoreRegistry<Counter> = StoreRegistry::new();
    registry.register(SimpleStore::new(1, 10));
    registry.register(SimpleStore::new(2, 20));
    registry.register(SimpleStore::new(1, 11));
    assert_eq!(registry.count(), 2);
    assert_eq!(registry.get(1).unwrap().get(&scope), 11);
    assert_eq!(registry.get(2).unwrap().get(&scope), 20);
}

#[test]
fn remove_takes_out_one_kind_only() {
    let scope: ObserverScope<Invalidate> = ObserverScope::new();
    let mut registry: StoreRegistry<Counter> = StoreRegistry::new();
    for kind in 0..5u64 {
        registry.register(SimpleStore::new(kind, kind as i32 * 10));
    }
    registry.remove(2);
    registry.remove(2);
    registry.remove(9);
    assert_eq!(registry.count(), 4);
    for kind in [0u64, 1, 3, 4] {
        assert_eq!(registry.get(kind).unwrap().get(&scope), kind as i32 * 10);
    }
    assert!(!registry.has(2));
    registry.clear();
    assert_eq!(registry.count(), 0);
    assert!(!registry.has(0));
}

#[test]
fn registry_functions_do_what_the_methods_do() {
    let mut scope: ObserverScope<Invalidate> = ObserverScope::new();
    let mut registry: StoreRegistry<Counter> = StoreRegistry::new();
    create_store(&mut registry, SimpleStore::new(7, 1)).set(2, &mut scope);
    assert!(has_store(&registry, 7));
    assert_eq!(get_store(&mut registry, 7).unwrap().get(&scope), 2);
    register_store(&mut registry, SimpleStore::new(8, 3));
    assert_eq!(store_count(&registry), 2);
    assert_eq!(use_store(&mut registry, 8).get(&scope), 3);
    assert_eq!(use_store(&mut registry, 0).get(&scope), 0);
    assert_eq!(store_count(&registry), 3);
    remove_store(&mut registry, 7);
    assert!(!has_store(&registry, 7));
    assert!(get_store(&mut registry, 7).is_none());
    clear_all_stores(&mut registry);
    assert_eq!(store_count(&registry), 0);
}

#[test]
fn store_actions_run_on_the_registered_store() {
    let mut scope: ObserverScope<Invalidate> = ObserverScope::new();
    let mut registry: StoreRegistry<Counter> = StoreRegistry::new();
    assert_eq!(store_action(&registry, 1, |store: &Counter| store.id()), None);
    assert_eq!(store_action_mut(&mut registry, 1, |_store: &mut Counter| 5), None);
    registry.register(SimpleStore::new(1, 4));
    assert_eq!(store_action(&registry, 1, |store: &Counter| store.id()), Some(1));
    let seen = store_action_mut(&mut registry, 1, |store: &mut Counter| {
        store.set(6, &mut scope);
        store.get(&scope)
    });
    assert_eq!(seen, Some(6));
    assert_eq!(registry.get(1).unwrap().get(&scope), 6);
}

#[test]
fn global_store_fetches_and_resets() {
    let mut scope: ObserverScope<Invalidate> = ObserverScope::new();
    let mut registry: StoreRegistry<Counter> = StoreRegistry::new();
    Counter::global(&mut registry, 0).set(5, &mut scope);
    assert_eq!(Counter::global(&mut registry, 0).get(&scope), 5);
    Counter::reset(&mut registry);
    assert_eq!(Counter::global(&mut registry, 0).get(&scope), 0);
    assert_eq!(registry.count(), 1);
}

#[test]
fn simple_store_wraps_one_cell() {
    let mut scope: ObserverScope<Invalidate> = ObserverScope::new();
    let mut store: Counter = SimpleStore::new(12, 1);
    assert_eq!(store.id(), 12);
    assert_eq!(store.get(&scope), 1);
    let notified = store.update(|value| *value += 1, &mut scope);
    assert_eq!(notified.value, 2);
    store.value().subscribe(Box::new(|_| {}));
    assert_eq!(store.value().subscriber_count(), 1);
    let fresh = Counter::default();
    assert_eq!(fresh.id(), 0);
}

#[test]
fn get_or_create_with_makes_a_store_only_when_none_is_there() {
    let scope: ObserverScope<Invalidate> = ObserverScope::new();
    let mut registry: StoreRegistry<Counter> = StoreRegistry::new();
    let mut made = 0;
    let first = registry.get_or_create_with(3, || {
        made += 1;
        SimpleStore::new(3, 30)
    });
    assert_eq!(first.get(&scope), 30);
    let second = registry.get_or_create_with(3, || {
        made += 1;
        SimpleStore::new(3, 31)
    });
    assert_eq!(second.get(&scope), 30);
    assert_eq!(made, 1);
    assert_eq!(registry.count(), 1);
}

#[test]
fn a_made_store_is_kept_under_the_kind_asked_for() {
    let scope: ObserverScope<Invalidate> = ObserverScope::new();
    let mut registry: StoreRegistry<Counter> = StoreRegistry::new();
    registry.register(SimpleStore::new(0, 5));
    assert_eq!(registry.get_or_create_with(9, || SimpleStore::new(0, 6)).get(&scope), 6);
    assert!(registry.has(9));
    assert_eq!(registry.count(), 2);
    assert_eq!(registry.get(0).unwrap().get(&scope), 5);
    assert_eq!(registry.get_or_create(9).get(&scope), 6);
    assert_eq!(registry.count(), 2);
}

#[test]
fn get_or_create_registers_the_kind_asked_for() {
    let mut scope: ObserverScope<Invalidate> = ObserverScope::new();
    let mut registry: StoreRegistry<Counter> = StoreRegistry::new();
    for (asked, kind) in [5u64, 0, 17].into_iter().enumerate() {
        assert!(!registry.has(kind));
        registry.get_or_create(kind).set(kind as i32, &mut scope);
        assert!(registry.has(kind));
        assert_eq!(registry.count(), asked + 1);
    }
    for kind in [5u64, 0, 17] {
        assert_eq!(registry.get_or_create(kind).get(&scope), kind as i32);
        assert_eq!(use_store(&mut registry, kind).get(&scope), kind as i32);
    }
    assert_eq!(registry.count(), 3);
    assert!(has_store(&registry, 17));
}
