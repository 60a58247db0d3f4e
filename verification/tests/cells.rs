use reaxion::observable::{
    observable, observable_bool, observable_map, observable_number, observable_option,
    observable_string, observable_vec, Fired, Notified, Observable, ObservableValue,
};
use reaxion::observer::{ObserverContext, ObserverScope};
use std::cell::RefCell;
use std::collections::HashMap;
use std::rc::Rc;

type Callback<T> = Box<dyn Fn(&T)>;
type Invalidate = Box<dyn FnMut()>;

fn subscribers<T>(notified: &Notified<T>) -> Vec<usize> {
    let mut ids = Vec::new();
    for call in &notified.calls {
        if let Fired::Subscriber(id) = call {
            ids.push(*id);
        }
    }
    ids
}

fn observers<T>(notified: &Notified<T>) -> Vec<u64> {
    let mut ids = Vec::new();
    for call in &notified.calls {
        if let Fired::Observer(id) = call {
            ids.push(*id);
        }
    }
    ids
}

fn logger(log: &Rc<RefCell<Vec<i32>>>) -> Callback<i32> {
    let log = Rc::clone(log);
    Box::new(move |value: &i32| log.borrow_mut().push(*value))
}

fn tagged_logger(tag: &'static str, log: &Rc<RefCell<Vec<(&'static str, i32)>>>) -> Callback<i32> {
    let log = Rc::clone(log);
    Box::new(move |value: &i32| log.borrow_mut().push((tag, *value)))
}

fn counter(count: &Rc<RefCell<u32>>) -> Invalidate {
    let count = Rc::clone(count);
    Box::new(move || *count.borrow_mut() += 1)
}

#[test]
fn new_cell_holds_its_initial_value() {
    let scope: ObserverScope<Invalidate> = ObserverScope::new();
    let mut cell: ObservableValue<i32, Callback<i32>> = ObservableValue::new(7);
    assert_eq!(cell.get(&scope), 7);
    assert_eq!(cell.value(&scope), 7);
    assert_eq!(cell.subscriber_count(), 0);
    assert_eq!(cell.link_count(), 0);
    assert!(cell.can_subscribe());
}

#[test]
fn last_write_wins() {
    let mut scope: ObserverScope<Invalidate> = ObserverScope::new();
    let mut cell: ObservableValue<i32, Callback<i32>> = ObservableValue::new(0);
    for written in [5, -3, 5, 5, 40] {
        let notified = cell.set(written, &mut scope);
        assert_eq!(notified.value, written);
        assert_eq!(cell.get(&scope), written);
    }
    cell.update(|value| *value *= 2, &mut scope);
    assert_eq!(cell.get(&scope), 80);
    cell.set_value(1, &mut scope);
    cell.update_value(|value| *value -= 4, &mut scope);
    assert_eq!(cell.value(&scope), -3);
}

#[test]
fn subscriber_log_follows_the_writes() {
    let mut scope: ObserverScope<Invalidate> = ObserverScope::new();
    let log = Rc::new(RefCell::new(Vec::new()));
    let mut cell: ObservableValue<i32, Callback<i32>> = ObservableValue::new(0);
    cell.subscribe(logger(&log));
    cell.set(1, &mut scope);
    cell.set(2, &mut scope);
    cell.update(|value| *value += 10, &mut scope);
    assert_eq!(*log.borrow(), vec![1, 2, 12]);
    assert_eq!(cell.get(&scope), 12);
}

#[test]
fn subscriber_is_called_once_per_write_until_unsubscribed() {
    let mut scope: ObserverScope<Invalidate> = ObserverScope::new();
    let log = Rc::new(RefCell::new(Vec::new()));
    let mut cell: ObservableValue<i32, Callback<i32>> = ObservableValue::new(0);
    let id = cell.subscribe(logger(&log));
    let notified = cell.set(9, &mut scope);
    assert_eq!(subscribers(&notified), vec![id]);
    assert_eq!(*log.borrow(), vec![9]);
    cell.unsubscribe(id);
    let notified = cell.set(10, &mut scope);
    assert!(subscribers(&notified).is_empty());
    cell.update(|value| *value += 1, &mut scope);
    assert_eq!(*log.borrow(), vec![9]);
    assert_eq!(cell.get(&scope), 11);
}

#[test]
fn every_write_is_an_event_even_without_a_change() {
    let mut scope: ObserverScope<Invalidate> = ObserverScope::new();
    let log = Rc::new(RefCell::new(Vec::new()));
    let mut cell: ObservableValue<i32, Callback<i32>> = ObservableValue::new(3);
    cell.subscribe(logger(&log));
    cell.set(3, &mut scope);
    cell.set(3, &mut scope);
    cell.update(|_| {}, &mut scope);
    assert_eq!(*log.borrow(), vec![3, 3, 3]);
}

#[test]
fn subscription_ids_are_fresh_and_ascending() {
    let mut cell: ObservableValue<i32, Callback<i32>> = ObservableValue::new(0);
    let first = cell.subscribe(Box::new(|_| {}));
    let second = cell.on_change(Box::new(|_| {}));
    assert_eq!(first, 0);
    assert_eq!(second, 1);
    cell.off_change(first);
    cell.unsubscribe(second);
    let third = cell.subscribe(Box::new(|_| {}));
    assert_eq!(third, 2);
    assert_eq!(cell.subscriber_count(), 1);
}

#[test]
fn subscribers_fire_in_ascending_order_of_id() {
    let mut scope: ObserverScope<Invalidate> = ObserverScope::new();
    let log = Rc::new(RefCell::new(Vec::new()));
    let mut cell: ObservableValue<i32, Callback<i32>> = ObservableValue::new(0);
    let a = cell.subscribe(tagged_logger("a", &log));
    let b = cell.subscribe(tagged_logger("b", &log));
    let c = cell.subscribe(tagged_logger("c", &log));
    assert!(a < b && b < c);
    let notified = cell.set(1, &mut scope);
    assert_eq!(subscribers(&notified), vec![a, b, c]);
    cell.unsubscribe(b);
    let d = cell.subscribe(tagged_logger("d", &log));
    let notified = cell.set(2, &mut scope);
    assert_eq!(subscribers(&notified), vec![a, c, d]);
    assert_eq!(
        *log.borrow(),
        vec![("a", 1), ("b", 1), ("c", 1), ("a", 2), ("c", 2), ("d", 2)]
    );
}

#[test]
fn unsubscribing_an_unknown_id_does_nothing() {
    let mut scope: ObserverScope<Invalidate> = ObserverScope::new();
    let log = Rc::new(RefCell::new(Vec::new()));
    let mut cell: ObservableValue<i32, Callback<i32>> = ObservableValue::new(0);
    let id = cell.subscribe(logger(&log));
    cell.unsubscribe(id + 17);
    cell.unsubscribe(id);
    cell.unsubscribe(id);
    assert_eq!(cell.subscriber_count(), 0);
    cell.set(1, &mut scope);
    assert!(log.borrow().is_empty());
}

#[test]
fn tracked_read_invalidates_once_per_write() {
    let mut scope: ObserverScope<Invalidate> = ObserverScope::new();
    let fired = Rc::new(RefCell::new(0));
    let mut cell: ObservableValue<i32, Callback<i32>> = ObservableValue::new(0);
    let handle = ObserverContext::new(&mut scope, counter(&fired));
    assert_eq!(scope.current(), Some(handle.id()));
    assert_eq!(cell.get(&scope), 0);
    assert_eq!(cell.get(&scope), 0);
    assert!(cell.when(|value| *value == 0, &scope));
    assert_eq!(cell.map(|value| value + 1, &scope), 1);
    assert_eq!(cell.link_count(), 1);
    let notified = cell.set(1, &mut scope);
    assert_eq!(observers(&notified), vec![handle.id()]);
    assert_eq!(*fired.borrow(), 1);
    cell.update(|value| *value += 1, &mut scope);
    assert_eq!(*fired.borrow(), 2);
    assert_eq!(cell.link_count(), 1);
}

#[test]
fn untracked_read_links_nothing() {
    let mut scope: ObserverScope<Invalidate> = ObserverScope::new();
    let mut cell: ObservableValue<i32, Callback<i32>> = ObservableValue::new(0);
    assert_eq!(cell.get(&scope), 0);
    assert_eq!(cell.map(|value| *value, &scope), 0);
    assert_eq!(cell.link_count(), 0);
    let notified = cell.set(1, &mut scope);
    assert!(observers(&notified).is_empty());
}

#[test]
fn disposed_observer_is_not_invalidated() {
    let mut scope: ObserverScope<Invalidate> = ObserverScope::new();
    let fired = Rc::new(RefCell::new(0));
    let mut cell: ObservableValue<String, Callback<String>> = observable_string("a");
    let handle = ObserverContext::new(&mut scope, counter(&fired));
    assert_eq!(cell.get(&scope), "a");
    assert_eq!(cell.link_count(), 1);
    handle.dispose(&mut scope);
    let notified = cell.set("b".to_string(), &mut scope);
    assert!(observers(&notified).is_empty());
    assert_eq!(*fired.borrow(), 0);
    assert_eq!(cell.get(&scope), "b");
}

#[test]
fn dead_link_is_swept_by_the_next_write() {
    let mut scope: ObserverScope<Invalidate> = ObserverScope::new();
    let fired_a = Rc::new(RefCell::new(0));
    let fired_b = Rc::new(RefCell::new(0));
    let mut cell: ObservableValue<i32, Callback<i32>> = ObservableValue::new(0);
    let a = ObserverContext::new(&mut scope, counter(&fired_a));
    cell.get(&scope);
    let b = ObserverContext::new(&mut scope, counter(&fired_b));
    cell.get(&scope);
    assert_eq!(cell.link_count(), 2);
    let a_id = a.id();
    let b_id = b.id();
    let notified = cell.set(1, &mut scope);
    assert_eq!(observers(&notified), vec![a_id, b_id]);
    a.dispose(&mut scope);
    assert_eq!(cell.link_count(), 2);
    let notified = cell.set(2, &mut scope);
    assert_eq!(observers(&notified), vec![b_id]);
    assert_eq!(cell.link_count(), 1);
    for written in 3..10 {
        cell.set(written, &mut scope);
        assert_eq!(cell.link_count(), 1);
    }
    assert_eq!(*fired_a.borrow(), 1);
    assert_eq!(*fired_b.borrow(), 9);
    b.dispose(&mut scope);
    cell.set(0, &mut scope);
    assert_eq!(cell.link_count(), 0);
    assert_eq!(*fired_b.borrow(), 9);
}

#[test]
fn subscribers_fire_before_observers() {
    let mut scope: ObserverScope<Invalidate> = ObserverScope::new();
    let order = Rc::new(RefCell::new(Vec::new()));
    let mut cell: ObservableValue<i32, Callback<i32>> = ObservableValue::new(0);
    let seen = Rc::clone(&order);
    let handle = ObserverContext::new(
        &mut scope,
        Box::new(move || seen.borrow_mut().push("observer".to_string())),
    );
    cell.get(&scope);
    let seen = Rc::clone(&order);
    cell.subscribe(Box::new(move |value: &i32| {
        seen.borrow_mut().push(format!("subscriber {}", value))
    }));
    let id = handle.id();
    let notified = cell.set(4, &mut scope);
    assert_eq!(*order.borrow(), vec!["subscriber 4", "observer"]);
    assert_eq!(notified.calls, vec![Fired::Subscriber(0), Fired::Observer(id)]);
    handle.dispose(&mut scope);
}

#[test]
fn report_lists_the_calls_in_the_order_they_were_made() {
    let mut scope: ObserverScope<Invalidate> = ObserverScope::new();
    let order = Rc::new(RefCell::new(Vec::new()));
    let mut cell: ObservableValue<i32, Callback<i32>> = ObservableValue::new(0);
    let mut expected = Vec::new();
    for tag in 0..3usize {
        let seen = Rc::clone(&order);
        let id = cell.subscribe(Box::new(move |_: &i32| seen.borrow_mut().push(Fired::Subscriber(tag))));
        assert_eq!(id, tag);
    }
    let mut handles = Vec::new();
    for _ in 0..3 {
        let seen = Rc::clone(&order);
        let id = scope.live_count() as u64;
        let handle = ObserverContext::new(
            &mut scope,
            Box::new(move || seen.borrow_mut().push(Fired::Observer(id))),
        );
        assert_eq!(handle.id(), id);
        cell.get(&scope);
        handles.push(handle);
    }
    let ended = handles.remove(1);
    ended.dispose(&mut scope);
    for tag in 0..3usize {
        expected.push(Fired::Subscriber(tag));
    }
    expected.push(Fired::Observer(0));
    expected.push(Fired::Observer(2));
    let notified = cell.set(1, &mut scope);
    assert_eq!(notified.calls, expected);
    assert_eq!(*order.borrow(), expected);
}

#[test]
fn constructors_wrap_their_argument() {
    let scope: ObserverScope<Invalidate> = ObserverScope::new();
    let mut plain: ObservableValue<u8, Callback<u8>> = observable(3);
    assert_eq!(plain.get(&scope), 3);
    let mut number: ObservableValue<i64, Callback<i64>> = observable_number(-9);
    assert_eq!(number.get(&scope), -9);
    let mut flag: ObservableValue<bool, Callback<bool>> = observable_bool(true);
    assert!(flag.get(&scope));
    let mut text: ObservableValue<String, Callback<String>> = observable_string("hello");
    assert_eq!(text.get(&scope), "hello");
    let mut maybe: ObservableValue<Option<u8>, Callback<Option<u8>>> = observable_option(Some(1));
    assert_eq!(maybe.get(&scope), Some(1));
    let mut list: ObservableValue<Vec<u8>, Callback<Vec<u8>>> = observable_vec(vec![1, 2]);
    assert_eq!(list.get(&scope), vec![1, 2]);
    let mut pairs = HashMap::new();
    pairs.insert("k".to_string(), 5);
    let mut map: ObservableValue<HashMap<String, i32>, Callback<HashMap<String, i32>>> =
        observable_map(pairs.clone());
    assert_eq!(map.get(&scope), pairs);
}

#[test]
fn get_returns_a_clone() {
    let scope: ObserverScope<Invalidate> = ObserverScope::new();
    let mut cell: ObservableValue<Vec<u8>, Callback<Vec<u8>>> = observable_vec(vec![1, 2, 3]);
    let mut copy = cell.get(&scope);
    copy.push(4);
    assert_eq!(cell.get(&scope), vec![1, 2, 3]);
    assert_eq!(cell.map(|list| list.len(), &scope), 3);
    assert!(cell.when(|list| list.contains(&2), &scope));
    assert!(!cell.when(|list| list.is_empty(), &scope));
}

#[test]
fn notification_carries_a_snapshot_of_the_new_value() {
    let mut scope: ObserverScope<Invalidate> = ObserverScope::new();
    let mut cell: ObservableValue<String, Callback<String>> = observable_string("a");
    let notified = cell.set("b".to_string(), &mut scope);
    assert_eq!(notified.value, "b");
    let notified = cell.update(|text| text.push('c'), &mut scope);
    assert_eq!(notified.value, "bc");
    assert!(subscribers(&notified).is_empty());
    assert!(observers(&notified).is_empty());
}

#[test]
fn only_the_installed_session_is_linked() {
    let mut scope: ObserverScope<Invalidate> = ObserverScope::new();
    let fired_outer = Rc::new(RefCell::new(0));
    let fired_inner = Rc::new(RefCell::new(0));
    let mut read_by_outer: ObservableValue<i32, Callback<i32>> = ObservableValue::new(0);
    let mut read_by_inner: ObservableValue<i32, Callback<i32>> = ObservableValue::new(0);
    let mut read_by_none: ObservableValue<i32, Callback<i32>> = ObservableValue::new(0);
    let outer = ObserverContext::new(&mut scope, counter(&fired_outer));
    read_by_outer.get(&scope);
    let inner = ObserverContext::new(&mut scope, counter(&fired_inner));
    read_by_inner.get(&scope);
    inner.dispose(&mut scope);
    assert_eq!(scope.current(), None);
    read_by_none.get(&scope);
    assert_eq!(read_by_none.link_count(), 0);
    read_by_outer.set(1, &mut scope);
    read_by_inner.set(1, &mut scope);
    read_by_none.set(1, &mut scope);
    assert_eq!(*fired_outer.borrow(), 1);
    assert_eq!(*fired_inner.borrow(), 0);
    outer.dispose(&mut scope);
    read_by_outer.set(2, &mut scope);
    assert_eq!(*fired_outer.borrow(), 1);
}

#[test]
fn one_session_can_watch_several_cells() {
    let mut scope: ObserverScope<Invalidate> = ObserverScope::new();
    let fired = Rc::new(RefCell::new(0));
    let mut first: ObservableValue<i32, Callback<i32>> = ObservableValue::new(0);
    let mut second: ObservableValue<bool, Callback<bool>> = observable_bool(false);
    let mut unread: ObservableValue<i32, Callback<i32>> = ObservableValue::new(0);
    let handle = ObserverContext::new(&mut scope, counter(&fired));
    first.get(&scope);
    second.get(&scope);
    first.set(1, &mut scope);
    second.set(true, &mut scope);
    unread.set(1, &mut scope);
    assert_eq!(*fired.borrow(), 2);
    handle.dispose(&mut scope);
    first.set(2, &mut scope);
    second.set(false, &mut scope);
    assert_eq!(*fired.borrow(), 2);
    assert_eq!(first.link_count(), 0);
    assert_eq!(second.link_count(), 0);
}

#[test]
fn writes_do_not_link() {
    let mut scope: ObserverScope<Invalidate> = ObserverScope::new();
    let fired = Rc::new(RefCell::new(0));
    let mut cell: ObservableValue<i32, Callback<i32>> = ObservableValue::new(0);
    let _handle = ObserverContext::new(&mut scope, counter(&fired));
    cell.set(1, &mut scope);
    cell.update(|value| *value += 1, &mut scope);
    cell.subscribe(Box::new(|_| {}));
    assert_eq!(cell.link_count(), 0);
    assert_eq!(*fired.borrow(), 0);
}
