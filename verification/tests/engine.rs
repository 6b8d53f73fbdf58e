use price_notifier::engine::{evaluate, process, remove_triggered, Action, Event, Phase};
use price_notifier::price::Price;
use price_notifier::store::TriggerStore;
use price_notifier::trigger::Trigger;

fn price(x: f64) -> Price {
    Price::from_bits(x.to_bits()).expect("a number")
}

fn lower(x: f64) -> Trigger {
    Trigger::Lower(price(x))
}

fn higher(x: f64) -> Trigger {
    Trigger::Higher(price(x))
}

#[test]
fn lower_fires_at_or_below_its_threshold() {
    assert!(lower(5.0).matches(price(4.5)));
    assert!(lower(5.0).matches(price(5.0)));
    assert!(!lower(5.0).matches(price(5.000001)));
    assert!(lower(5.0).matches(price(-100.0)));
    assert!(!lower(5.0).matches(price(1.0e9)));
}

#[test]
fn higher_fires_at_or_above_its_threshold() {
    assert!(higher(10.0).matches(price(10.5)));
    assert!(higher(10.0).matches(price(10.0)));
    assert!(!higher(10.0).matches(price(9.999999)));
    assert!(higher(10.0).matches(price(1.0e9)));
    assert!(!higher(10.0).matches(price(0.0)));
}

#[test]
fn a_condition_fires_at_its_own_threshold() {
    for t in [0.0, 0.01, 4.5, 5.0, 1234.5678, -2.0] {
        assert!(lower(t).matches(price(t)));
        assert!(higher(t).matches(price(t)));
    }
}

#[test]
fn evaluation_lists_each_fired_condition_once() {
    let mut store = TriggerStore::new();
    store.add(1, lower(5.0));
    store.add(1, lower(100.0));
    store.add(1, higher(4.0));
    store.add(1, higher(50.0));
    store.add(2, lower(1.0));
    store.add(2, higher(4.5));
    store.add(3, lower(4.0));
    let mut fired = evaluate(&store, price(4.5));
    fired.sort_by_key(|e| (e.0, e.1.price().key()));
    assert_eq!(
        fired,
        vec![(1, higher(4.0)), (1, lower(5.0)), (1, lower(100.0)), (2, higher(4.5))]
    );
    assert_eq!(store.list(1).len(), 4);
}

#[test]
fn evaluation_of_an_empty_store_fires_nothing() {
    let store = TriggerStore::new();
    assert_eq!(evaluate(&store, price(1.0)), vec![]);
}

#[test]
fn fired_conditions_are_removed_and_the_rest_stay() {
    let mut store = TriggerStore::new();
    store.add(1, lower(5.0));
    store.add(1, higher(50.0));
    store.add(2, lower(5.0));
    let found = remove_triggered(vec![(1, lower(5.0)), (2, lower(5.0))], &mut store);
    assert!(found);
    assert_eq!(store.list(1), vec![higher(50.0)]);
    assert_eq!(store.list(2), vec![]);
    assert_eq!(store.snapshot_for_iteration(), vec![(1, vec![higher(50.0)])]);
}

#[test]
fn removing_what_is_not_there_finds_nothing() {
    let mut store = TriggerStore::new();
    store.add(1, lower(5.0));
    assert!(!remove_triggered(vec![(1, higher(5.0)), (2, lower(5.0))], &mut store));
    assert!(!remove_triggered(vec![], &mut store));
    assert_eq!(store.list(1), vec![lower(5.0)]);
}

#[test]
fn a_condition_listed_twice_is_removed_once() {
    let mut store = TriggerStore::new();
    store.add(1, lower(5.0));
    store.add(1, lower(6.0));
    let found = remove_triggered(vec![(1, lower(5.0)), (1, lower(5.0))], &mut store);
    assert!(found);
    assert_eq!(store.list(1), vec![lower(6.0)]);
}

fn run_pass(store: &mut TriggerStore, at: Option<Price>) -> (Vec<(i64, Trigger)>, Vec<Action>) {
    let mut actions = Vec::new();
    let mut told = Vec::new();
    let (mut phase, mut action) = process(Phase::IdleWait, Event::Tick, store);
    loop {
        actions.push(action.clone());
        let event = match action {
            Action::Wait | Action::Persist => return (told, actions),
            Action::Fetch => match at {
                Some(p) => Event::Price(p),
                None => Event::PriceFailed,
            },
            Action::Resume => Event::Resumed,
            Action::Notify(list, _) => {
                told = list;
                Event::Delivered
            }
        };
        let next = process(phase, event, store);
        phase = next.0;
        action = next.1;
    }
}

#[test]
fn a_price_below_the_threshold_notifies_and_empties_the_subscriber() {
    let mut store = TriggerStore::new();
    store.add(1, lower(5.0));
    let (told, actions) = run_pass(&mut store, Some(price(4.50)));
    assert_eq!(told, vec![(1, lower(5.0))]);
    assert_eq!(
        actions,
        vec![
            Action::Fetch,
            Action::Resume,
            Action::Notify(vec![(1, lower(5.0))], price(4.50)),
            Action::Persist
        ]
    );
    assert_eq!(store.list(1), vec![]);
    assert!(store.is_empty());
    assert_eq!(store.snapshot_for_iteration(), vec![]);
}

#[test]
fn a_pass_fires_each_condition_once_however_wide_the_margin() {
    let mut store = TriggerStore::new();
    store.add(1, lower(1000.0));
    store.add(1, higher(0.5));
    store.add(1, higher(2000.0));
    let (mut told, _) = run_pass(&mut store, Some(price(1.0)));
    told.sort_by_key(|e| e.1.price().key());
    assert_eq!(told, vec![(1, higher(0.5)), (1, lower(1000.0))]);
    assert_eq!(store.list(1), vec![higher(2000.0)]);
    let (told_again, actions) = run_pass(&mut store, Some(price(1.0)));
    assert_eq!(told_again, vec![]);
    assert_eq!(actions, vec![Action::Fetch, Action::Resume, Action::Wait]);
    assert_eq!(store.list(1), vec![higher(2000.0)]);
}

#[test]
fn a_tick_on_an_empty_store_asks_for_no_price() {
    let mut store = TriggerStore::new();
    assert_eq!(process(Phase::IdleWait, Event::Tick, &mut store), (Phase::IdleWait, Action::Wait));
}

#[test]
fn a_tick_on_a_store_with_conditions_asks_for_the_price() {
    let mut store = TriggerStore::new();
    store.add(1, lower(5.0));
    assert_eq!(
        process(Phase::IdleWait, Event::Tick, &mut store),
        (Phase::FetchPrice, Action::Fetch)
    );
}

#[test]
fn a_failed_fetch_skips_the_pass() {
    let mut store = TriggerStore::new();
    store.add(1, lower(5.0));
    let (told, actions) = run_pass(&mut store, None);
    assert_eq!(told, vec![]);
    assert_eq!(actions, vec![Action::Fetch, Action::Wait]);
    assert_eq!(store.list(1), vec![lower(5.0)]);
}

#[test]
fn a_report_that_is_not_awaited_ends_the_pass() {
    let mut store = TriggerStore::new();
    store.add(1, lower(5.0));
    for event in [Event::Price(price(1.0)), Event::PriceFailed, Event::Resumed, Event::Delivered] {
        assert_eq!(process(Phase::IdleWait, event, &mut store), (Phase::IdleWait, Action::Wait));
    }
    for event in [Event::Tick, Event::Resumed, Event::Delivered, Event::PriceFailed] {
        assert_eq!(process(Phase::FetchPrice, event, &mut store), (Phase::IdleWait, Action::Wait));
    }
    assert_eq!(store.list(1), vec![lower(5.0)]);
}

#[test]
fn evaluation_does_not_change_the_store() {
    let mut store = TriggerStore::new();
    store.add(1, lower(5.0));
    let next = process(Phase::Evaluate(price(4.0)), Event::Resumed, &mut store);
    assert_eq!(
        next,
        (
            Phase::ApplyRemovals(vec![(1, lower(5.0))]),
            Action::Notify(vec![(1, lower(5.0))], price(4.0))
        )
    );
    assert_eq!(store.list(1), vec![lower(5.0)]);
}

#[test]
fn fired_conditions_leave_even_if_the_delivery_failed() {
    let mut store = TriggerStore::new();
    store.add(1, lower(5.0));
    store.add(1, lower(6.0));
    for event in [Event::Delivered, Event::Tick] {
        store.add(1, lower(5.0));
        let next = process(Phase::ApplyRemovals(vec![(1, lower(5.0))]), event, &mut store);
        assert_eq!(next, (Phase::IdleWait, Action::Persist));
        assert_eq!(store.list(1), vec![lower(6.0)]);
    }
}

#[test]
fn a_condition_deleted_during_delivery_is_not_missed() {
    let mut store = TriggerStore::new();
    store.add(1, lower(5.0));
    store.add(2, lower(5.0));
    let (phase, _) = process(Phase::Evaluate(price(4.0)), Event::Resumed, &mut store);
    store.remove_all(1);
    store.add(3, lower(5.0));
    let next = process(phase, Event::Delivered, &mut store);
    assert_eq!(next, (Phase::IdleWait, Action::Persist));
    assert_eq!(store.snapshot_for_iteration(), vec![(3, vec![lower(5.0)])]);
}
