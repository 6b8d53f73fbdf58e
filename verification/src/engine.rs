//! The matching engine: which conditions fire at a price, and their removal.

use crate::order::{
    lemma_filter_all, lemma_filter_members, lemma_filter_same, lemma_filter_twice,
    lemma_sorted_no_duplicates,
};
use crate::price::Price;
use crate::store::{conditions, entries_view, holds, lists, removed, well_formed, TriggerStore};
use crate::trigger::{Selector, Trigger};
use vstd::prelude::*;

verus! {

/// The conditions of a store that fire at a price, each with its subscriber.
pub open spec fn fired_at(m: Map<i64, Seq<Trigger>>, price: int) -> Set<(i64, Trigger)> {
    Set::new(|e: (i64, Trigger)| holds(m, e.0, e.1) && e.1.fires(price))
}

/// A store without the conditions in `gone`, and without the subscribers
/// that are left with none.
pub open spec fn without(m: Map<i64, Seq<Trigger>>, gone: Set<(i64, Trigger)>) -> Map<
    i64,
    Seq<Trigger>,
> {
    Map::new(
        |k: i64| m.contains_key(k) && m[k].filter(|t: Trigger| !gone.contains((k, t))).len() > 0,
        |k: i64| m[k].filter(|t: Trigger| !gone.contains((k, t))),
    )
}

/// Whether a subscriber of the first `upto` entries has a condition.
spec fn listed(
    entries: Seq<(i64, Seq<Trigger>)>,
    upto: int,
    subscriber: i64,
    condition: Trigger,
) -> bool {
    exists|a: int|
        0 <= a < upto && (#[trigger] entries[a]).0 == subscriber && entries[a].1.contains(
            condition,
        )
}

/// Collects the conditions that fire at `price`, each once, with their
/// subscribers. The store is only read.
pub fn evaluate(store: &TriggerStore, price: Price) -> (fired: Vec<(i64, Trigger)>)
    ensures
        fired@.no_duplicates(),
        fired@.to_set() == fired_at(store@, price@),
{
    let entries = store.snapshot_for_iteration();
    let ghost ev = entries_view(entries@);
    let mut fired: Vec<(i64, Trigger)> = Vec::new();
    let mut i: usize = 0;
    while i < entries.len()
        invariant
            i <= entries.len(),
            ev == entries_view(entries@),
            lists(ev, store@),
            well_formed(store@),
            fired@.no_duplicates(),
            forall|e: (i64, Trigger)| #[trigger]
                fired@.contains(e) <==> listed(ev, i as int, e.0, e.1) && e.1.fires(price@),
        decreases entries.len() - i,
    {
        let subscriber: i64 = entries[i].0;
        let list = &entries[i].1;
        assert(ev[i as int] == (subscriber, list@));
        assert(store@.contains_key(ev[i as int].0));
        proof {
            lemma_sorted_no_duplicates(list@);
        }
        let mut j: usize = 0;
        while j < list.len()
            invariant
                i < entries.len(),
                j <= list.len(),
                ev == entries_view(entries@),
                ev[i as int] == (subscriber, list@),
                lists(ev, store@),
                list@.no_duplicates(),
                fired@.no_duplicates(),
                forall|e: (i64, Trigger)| #[trigger]
                    fired@.contains(e) <==> (listed(ev, i as int, e.0, e.1) || (e.0 == subscriber
                        && list@.take(j as int).contains(e.1))) && e.1.fires(price@),
            decreases list.len() - j,
        {
            let condition = list[j];
            let ghost before = fired@;
            assert(list@.take(j + 1) =~= list@.take(j as int).push(condition));
            if condition.matches(price) {
                proof {
                    let e = (subscriber, condition);
                    if before.contains(e) {
                        if listed(ev, i as int, subscriber, condition) {
                            let a = choose|a: int|
                                0 <= a < i && (#[trigger] ev[a]).0 == subscriber
                                    && ev[a].1.contains(condition);
                            assert(ev[a].0 != ev[i as int].0);
                        } else {
                            let b = choose|b: int|
                                0 <= b < j && list@.take(j as int)[b] == condition;
                            assert(list@[b] == list@[j as int]);
                        }
                    }
                }
                fired.push((subscriber, condition));
                proof {
                    assert forall|e: (i64, Trigger)| #[trigger]
                        fired@.contains(e) <==> (listed(ev, i as int, e.0, e.1) || (e.0
                            == subscriber && list@.take(j + 1).contains(e.1))) && e.1.fires(
                        price@,
                    ) by {
                        lemma_push_contains(before, (subscriber, condition), e);
                        lemma_push_contains(list@.take(j as int), condition, e.1);
                    }
                }
            } else {
                proof {
                    assert forall|e: (i64, Trigger)| #[trigger]
                        fired@.contains(e) <==> (listed(ev, i as int, e.0, e.1) || (e.0
                            == subscriber && list@.take(j + 1).contains(e.1))) && e.1.fires(
                        price@,
                    ) by {
                        lemma_push_contains(list@.take(j as int), condition, e.1);
                    }
                }
            }
            j += 1;
        }
        proof {
            assert(list@.take(list.len() as int) =~= list@);
            assert forall|e: (i64, Trigger)| #[trigger]
                fired@.contains(e) <==> listed(ev, i + 1, e.0, e.1) && e.1.fires(price@) by {
                if listed(ev, i + 1, e.0, e.1) {
                    let a = choose|a: int|
                        0 <= a < i + 1 && (#[trigger] ev[a]).0 == e.0 && ev[a].1.contains(e.1);
                    if a < i {
                        assert(listed(ev, i as int, e.0, e.1));
                    }
                }
                if listed(ev, i as int, e.0, e.1) {
                    let a = choose|a: int|
                        0 <= a < i && (#[trigger] ev[a]).0 == e.0 && ev[a].1.contains(e.1);
                    assert(listed(ev, i + 1, e.0, e.1));
                }
                if e.0 == subscriber && list@.contains(e.1) {
                    assert(ev[i as int].0 == e.0 && ev[i as int].1.contains(e.1));
                    assert(listed(ev, i + 1, e.0, e.1));
                }
            }
        }
        i += 1;
    }
    proof {
        assert forall|e: (i64, Trigger)| fired@.to_set().contains(e) <==> fired_at(
            store@,
            price@,
        ).contains(e) by {
            if listed(ev, entries.len() as int, e.0, e.1) {
                let a = choose|a: int|
                    0 <= a < entries.len() && (#[trigger] ev[a]).0 == e.0 && ev[a].1.contains(e.1);
                assert(store@.contains_key(ev[a].0));
            }
            if holds(store@, e.0, e.1) {
                let a = choose|a: int| 0 <= a < ev.len() && (#[trigger] ev[a]).0 == e.0;
                assert(store@.contains_key(ev[a].0));
                assert(listed(ev, entries.len() as int, e.0, e.1));
            }
        }
        assert(fired@.to_set() =~= fired_at(store@, price@));
    }
    fired
}

/// Removes each fired condition from its subscriber, matching by direction
/// and threshold, and says whether the store held any of them.
pub fn remove_triggered(triggered: Vec<(i64, Trigger)>, store: &mut TriggerStore) -> (found: bool)
    ensures
        final(store)@ == without(old(store)@, triggered@.to_set()),
        found == (exists|i: int|
            0 <= i < triggered.len() && holds(
                old(store)@,
                (#[trigger] triggered@[i]).0,
                triggered@[i].1,
            )),
        well_formed(final(store)@),
{
    let ghost start = store@;
    let mut found = false;
    let mut i: usize = 0;
    proof {
        use_type_invariant(&*store);
        lemma_without_nothing(start, triggered@.take(0).to_set());
    }
    while i < triggered.len()
        invariant
            i <= triggered.len(),
            well_formed(start),
            well_formed(store@),
            store@ == without(start, triggered@.take(i as int).to_set()),
            found == (exists|j: int|
                0 <= j < i && holds(start, (#[trigger] triggered@[j]).0, triggered@[j].1)),
        decreases triggered.len() - i,
    {
        let subscriber: i64 = triggered[i].0;
        let condition: Trigger = triggered[i].1;
        let ghost gone = triggered@.take(i as int).to_set();
        let ghost found_before = found;
        let removed_now = store.remove_matching(subscriber, &Selector::Exact(condition));
        found = found || removed_now;
        proof {
            let e = (subscriber, condition);
            assert(triggered@[i as int] == e);
            assert(triggered@.take(i + 1) =~= triggered@.take(i as int).push(e));
            assert(triggered@.take(i + 1).to_set() =~= gone.insert(e)) by {
                assert forall|x: (i64, Trigger)|
                    triggered@.take(i + 1).to_set().contains(x) <==> gone.insert(e).contains(
                        x,
                    ) by {
                    lemma_push_contains(triggered@.take(i as int), e, x);
                }
            }
            lemma_without_step(start, gone, subscriber, condition);
            // Whether the store still held the condition.
            let cur = without(start, gone);
            if start.contains_key(subscriber) {
                lemma_filter_members(start[subscriber], |t: Trigger| !gone.contains((subscriber, t)));
            }
            if removed_now {
                let t = choose|t: Trigger|
                    holds(cur, subscriber, t) && Selector::Exact(condition).selects(t);
                assert(holds(start, subscriber, condition));
            }
            if holds(start, subscriber, condition) && !removed_now {
                if !gone.contains(e) {
                    let kept = start[subscriber].filter(
                        |t: Trigger| !gone.contains((subscriber, t)),
                    );
                    assert(kept.contains(condition));
                    assert(kept.len() > 0);
                    assert(cur.contains_key(subscriber));
                    assert(holds(cur, subscriber, condition));
                    assert(Selector::Exact(condition).selects(condition));
                }
                let j = choose|j: int|
                    0 <= j < triggered@.take(i as int).len() && triggered@.take(i as int)[j] == e;
                assert(triggered@[j] == e);
                assert(found_before);
            }
            if found_before {
                let j = choose|j: int|
                    0 <= j < i && holds(start, (#[trigger] triggered@[j]).0, triggered@[j].1);
                assert(0 <= j < i + 1);
            }
        }
        i += 1;
    }
    assert(triggered@.take(triggered.len() as int) =~= triggered@);
    found
}

/// Taking nothing out of a store leaves it as it is.
proof fn lemma_without_nothing(m: Map<i64, Seq<Trigger>>, none: Set<(i64, Trigger)>)
    requires
        well_formed(m),
        forall|e: (i64, Trigger)| !none.contains(e),
    ensures
        without(m, none) == m,
{
    assert forall|k: i64| m.contains_key(k) implies m[k].filter(
        |t: Trigger| !none.contains((k, t)),
    ) == m[k] by {
        lemma_filter_all(m[k], |t: Trigger| !none.contains((k, t)));
    }
    assert(without(m, none) =~= m);
}

/// Taking one more condition out of a store is a removal of that exact
/// condition from its subscriber.
proof fn lemma_without_step(
    m: Map<i64, Seq<Trigger>>,
    gone: Set<(i64, Trigger)>,
    subscriber: i64,
    condition: Trigger,
)
    ensures
        removed(without(m, gone), subscriber, Selector::Exact(condition)) == without(
            m,
            gone.insert((subscriber, condition)),
        ),
{
    let more = gone.insert((subscriber, condition));
    let a = without(m, gone);
    let b = without(m, more);
    let r = removed(a, subscriber, Selector::Exact(condition));
    let exact = |t: Trigger| !Selector::Exact(condition).selects(t);
    assert forall|k: i64| m.contains_key(k) && k != subscriber implies m[k].filter(
        |t: Trigger| !gone.contains((k, t)),
    ) == m[k].filter(|t: Trigger| !more.contains((k, t))) by {
        lemma_filter_same(
            m[k],
            |t: Trigger| !gone.contains((k, t)),
            |t: Trigger| !more.contains((k, t)),
        );
    }
    if m.contains_key(subscriber) {
        let kept = m[subscriber].filter(|t: Trigger| !gone.contains((subscriber, t)));
        assert(conditions(a, subscriber) =~= kept);
        lemma_filter_twice(
            m[subscriber],
            |t: Trigger| !gone.contains((subscriber, t)),
            exact,
            |t: Trigger| !more.contains((subscriber, t)),
        );
    } else {
        assert(conditions(a, subscriber).filter(exact).len() == 0) by {
            conditions(a, subscriber).lemma_filter_len(exact);
        }
    }
    assert(r =~= b);
}

/// Where the polling loop stands.
#[derive(Clone, PartialEq, Eq, Debug)]
pub enum Phase {
    /// Waiting for the next tick.
    IdleWait,
    /// Waiting for the price cache's answer.
    FetchPrice,
    /// About to test every condition against this price.
    Evaluate(Price),
    /// The notifier is being handed these fired conditions; they leave the
    /// store next.
    ApplyRemovals(Vec<(i64, Trigger)>),
}

/// What the loop's driver reports back.
#[derive(Clone, Copy, PartialEq, Eq, Structural, Debug)]
pub enum Event {
    /// The tick interval has passed.
    Tick,
    /// The price cache gave a price.
    Price(Price),
    /// The price cache gave up.
    PriceFailed,
    /// There was nothing to wait for.
    Resumed,
    /// Every fired condition has been handed to the notifier, whether or not
    /// the delivery succeeded.
    Delivered,
}

/// What the loop's driver has to do before it reports back.
#[derive(Clone, PartialEq, Eq, Debug)]
pub enum Action {
    /// Wait for the next tick, then report `Tick`.
    Wait,
    /// Ask the price cache, then report `Price` or `PriceFailed`.
    Fetch,
    /// Report `Resumed` at once.
    Resume,
    /// Tell each subscriber that its condition fired at this price, then
    /// report `Delivered`.
    Notify(Vec<(i64, Trigger)>, Price),
    /// Write the backup, wait for the next tick, then report `Tick`.
    Persist,
}

/// A copy of a list of fired conditions.
fn copy_of(list: &Vec<(i64, Trigger)>) -> (copy: Vec<(i64, Trigger)>)
    ensures
        copy@ == list@,
{
    let mut copy: Vec<(i64, Trigger)> = Vec::new();
    let mut i: usize = 0;
    while i < list.len()
        invariant
            i <= list.len(),
            copy@ == list@.take(i as int),
        decreases list.len() - i,
    {
        copy.push(list[i]);
        i += 1;
        assert(copy@ =~= list@.take(i as int));
    }
    assert(list@.take(list.len() as int) =~= list@);
    copy
}

/// One step of the polling loop: from the phase and the driver's report to
/// the next phase and the driver's next task.
///
/// A tick starts a pass unless the store is empty; while idle, any other
/// report is waited out. A price goes on to evaluation; a failed fetch, or
/// any report that is not a price, ends the pass. Evaluation only reads the
/// store, and ends the pass where nothing fired. The fired conditions leave
/// the store in the last step of the pass, after the notifier has had them
/// and whatever it made of them; the store is then to be backed up once.
pub fn process(phase: Phase, event: Event, store: &mut TriggerStore) -> (next: (Phase, Action))
    ensures
        well_formed(final(store)@),
        match phase {
            Phase::IdleWait => {
                &&& final(store)@ == old(store)@
                &&& if event == Event::Tick && exists|k: i64| old(store)@.contains_key(k) {
                    next.0 is FetchPrice && next.1 is Fetch
                } else {
                    next.0 is IdleWait && next.1 is Wait
                }
            },
            Phase::FetchPrice => {
                &&& final(store)@ == old(store)@
                &&& match event {
                    Event::Price(price) => next.0 == Phase::Evaluate(price) && next.1 is Resume,
                    _ => next.0 is IdleWait && next.1 is Wait,
                }
            },
            Phase::Evaluate(price) => {
                &&& final(store)@ == old(store)@
                &&& if fired_at(old(store)@, price@) == Set::<(i64, Trigger)>::empty() {
                    next.0 is IdleWait && next.1 is Wait
                } else {
                    &&& next.0 matches Phase::ApplyRemovals(fired)
                    &&& next.1 matches Action::Notify(told, at)
                    &&& at == price
                    &&& told@ == fired@
                    &&& fired@.no_duplicates()
                    &&& fired@.to_set() == fired_at(old(store)@, price@)
                }
            },
            Phase::ApplyRemovals(fired) => {
                &&& final(store)@ == without(old(store)@, fired@.to_set())
                &&& next.0 is IdleWait
                &&& next.1 is Persist
            },
        },
{
    proof {
        use_type_invariant(&*store);
    }
    match phase {
        Phase::IdleWait => {
            let idle = store.is_empty();
            match event {
                Event::Tick => {
                    if idle {
                        (Phase::IdleWait, Action::Wait)
                    } else {
                        (Phase::FetchPrice, Action::Fetch)
                    }
                },
                _ => (Phase::IdleWait, Action::Wait),
            }
        },
        Phase::FetchPrice => {
            match event {
                Event::Price(price) => (Phase::Evaluate(price), Action::Resume),
                _ => (Phase::IdleWait, Action::Wait),
            }
        },
        Phase::Evaluate(price) => {
            let fired = evaluate(store, price);
            if fired.len() == 0 {
                assert(fired@.to_set() =~= Set::<(i64, Trigger)>::empty());
                (Phase::IdleWait, Action::Wait)
            } else {
                assert(fired@.to_set().contains(fired@[0]));
                let told = copy_of(&fired);
                (Phase::ApplyRemovals(fired), Action::Notify(told, price))
            }
        },
        Phase::ApplyRemovals(fired) => {
            remove_triggered(fired, store);
            (Phase::IdleWait, Action::Persist)
        },
    }
}

/// A pass retires exactly the conditions that fired: what is left after the
/// fired conditions are removed are the conditions that did not fire, and
/// none of them fires at the same price.
pub proof fn lemma_pass_retires_fired(
    m: Map<i64, Seq<Trigger>>,
    price: int,
    subscriber: i64,
    condition: Trigger,
)
    ensures
        holds(without(m, fired_at(m, price)), subscriber, condition) <==> holds(
            m,
            subscriber,
            condition,
        ) && !condition.fires(price),
        fired_at(without(m, fired_at(m, price)), price) == Set::<(i64, Trigger)>::empty(),
{
    let gone = fired_at(m, price);
    let after = without(m, gone);
    assert forall|k: i64, t: Trigger| holds(after, k, t) <==> holds(m, k, t) && !t.fires(
        price,
    ) by {
        if m.contains_key(k) {
            let keep = |t: Trigger| !gone.contains((k, t));
            lemma_filter_members(m[k], keep);
            if holds(m, k, t) && !t.fires(price) {
                assert(m[k].filter(keep).contains(t));
                assert(m[k].filter(keep).len() > 0);
            }
        }
    }
    assert(fired_at(after, price) =~= Set::<(i64, Trigger)>::empty());
}

/// What a sequence holds after a push.
proof fn lemma_push_contains<A>(s: Seq<A>, pushed: A, e: A)
    ensures
        s.push(pushed).contains(e) <==> (s.contains(e) || e == pushed),
{
    let r = s.push(pushed);
    if r.contains(e) {
        let k = choose|k: int| 0 <= k < r.len() && r[k] == e;
        if k < s.len() {
            assert(s[k] == e);
        }
    }
    if s.contains(e) {
        let k = choose|k: int| 0 <= k < s.len() && s[k] == e;
        assert(r[k] == e);
    }
    if e == pushed {
        assert(r[s.len() as int] == e);
    }
}

} // verus!
