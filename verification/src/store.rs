//! The trigger store: each subscriber's conditions, sorted, with no subscriber
//! kept for an empty list.

use crate::order::{
    lemma_filter_members, lemma_filter_sorted, lemma_first_not_before, lemma_placed,
    lemma_rank_at_split, lemma_sorted_no_duplicates, lemma_sorted_thresholds, placed, sorted,
};
use crate::trigger::{Selector, Trigger};
use std::collections::HashMap;
use vstd::prelude::*;
use vstd::std_specs::iter::IteratorSpec;

verus! {

broadcast use vstd::std_specs::hash::group_hash_axioms;

/// The conditions of a subscriber in a store: none where the store does not
/// know the subscriber.
pub open spec fn conditions(m: Map<i64, Seq<Trigger>>, subscriber: i64) -> Seq<Trigger> {
    if m.contains_key(subscriber) {
        m[subscriber]
    } else {
        Seq::empty()
    }
}

/// Whether a subscriber has a condition in a store.
pub open spec fn holds(m: Map<i64, Seq<Trigger>>, subscriber: i64, condition: Trigger) -> bool {
    m.contains_key(subscriber) && m[subscriber].contains(condition)
}

/// What every store satisfies: no subscriber has an empty list, and each list
/// is sorted, hence free of duplicates.
pub open spec fn well_formed(m: Map<i64, Seq<Trigger>>) -> bool {
    forall|k: i64| #[trigger] m.contains_key(k) ==> m[k].len() > 0 && sorted(m[k])
}

/// The store after a subscriber adds a condition: unchanged where the
/// subscriber has it already.
pub open spec fn added(m: Map<i64, Seq<Trigger>>, subscriber: i64, condition: Trigger) -> Map<
    i64,
    Seq<Trigger>,
> {
    if holds(m, subscriber, condition) {
        m
    } else {
        m.insert(subscriber, placed(conditions(m, subscriber), condition))
    }
}

/// The store after the conditions of a subscriber that a selector picks are
/// removed: the subscriber goes with its last condition.
pub open spec fn removed(m: Map<i64, Seq<Trigger>>, subscriber: i64, selector: Selector) -> Map<
    i64,
    Seq<Trigger>,
> {
    let rest = conditions(m, subscriber).filter(|t: Trigger| !selector.selects(t));
    if rest.len() == 0 {
        m.remove(subscriber)
    } else {
        m.insert(subscriber, rest)
    }
}

/// Whether a selector picks any condition of a subscriber.
pub open spec fn selects_any(m: Map<i64, Seq<Trigger>>, subscriber: i64, selector: Selector) -> bool {
    exists|t: Trigger| holds(m, subscriber, t) && selector.selects(t)
}

/// Whether `entries` lists a store: each subscriber once, with its conditions.
pub open spec fn lists(entries: Seq<(i64, Seq<Trigger>)>, m: Map<i64, Seq<Trigger>>) -> bool {
    &&& forall|i: int|
        0 <= i < entries.len() ==> m.contains_key(#[trigger] entries[i].0) && m[entries[i].0]
            == entries[i].1
    &&& forall|i: int, j: int|
        0 <= i < j < entries.len() ==> (#[trigger] entries[i]).0 != (#[trigger] entries[j]).0
    &&& forall|k: i64| #[trigger]
        m.contains_key(k) ==> exists|i: int| 0 <= i < entries.len() && (#[trigger] entries[i]).0 == k
}

/// The plain view of a list of entries.
pub open spec fn entries_view(entries: Seq<(i64, Vec<Trigger>)>) -> Seq<(i64, Seq<Trigger>)> {
    entries.map_values(|e: (i64, Vec<Trigger>)| (e.0, e.1@))
}

/// Adding a condition keeps a store well formed, and gives the subscriber
/// that condition and nothing else.
pub proof fn lemma_added(m: Map<i64, Seq<Trigger>>, subscriber: i64, condition: Trigger)
    requires
        well_formed(m),
    ensures
        well_formed(added(m, subscriber, condition)),
        forall|k: i64, t: Trigger|
            holds(added(m, subscriber, condition), k, t) <==> holds(m, k, t) || (k == subscriber
                && t == condition),
{
    let after = added(m, subscriber, condition);
    if !holds(m, subscriber, condition) {
        let list = conditions(m, subscriber);
        lemma_placed(list, condition);
        assert(after[subscriber] == placed(list, condition));
        assert forall|k: i64, t: Trigger|
            holds(after, k, t) <==> holds(m, k, t) || (k == subscriber && t == condition) by {
            if k == subscriber {
                assert(placed(list, condition).contains(t) <==> (list.contains(t) || t
                    == condition));
            }
        }
    }
}

/// However often a subscriber adds a condition, the store holds it once:
/// a second add changes nothing, and no list holds a condition twice.
pub proof fn lemma_added_once(m: Map<i64, Seq<Trigger>>, subscriber: i64, condition: Trigger)
    requires
        well_formed(m),
    ensures
        added(added(m, subscriber, condition), subscriber, condition) == added(
            m,
            subscriber,
            condition,
        ),
        forall|k: i64| #[trigger]
            added(m, subscriber, condition).contains_key(k) ==> added(
                m,
                subscriber,
                condition,
            )[k].no_duplicates(),
{
    lemma_added(m, subscriber, condition);
    let after = added(m, subscriber, condition);
    assert(holds(after, subscriber, condition));
    assert forall|k: i64| #[trigger] after.contains_key(k) implies after[k].no_duplicates() by {
        lemma_sorted_no_duplicates(after[k]);
    }
}

/// After an add the subscriber's conditions are in ascending order of
/// their thresholds.
pub proof fn lemma_added_sorted(m: Map<i64, Seq<Trigger>>, subscriber: i64, condition: Trigger)
    requires
        well_formed(m),
    ensures
        added(m, subscriber, condition).contains_key(subscriber),
        ({
            let list = added(m, subscriber, condition)[subscriber];
            forall|i: int, j: int|
                0 <= i <= j < list.len() ==> (#[trigger] list[i]).threshold() <= (
                #[trigger] list[j]).threshold()
        }),
{
    lemma_added(m, subscriber, condition);
    let after = added(m, subscriber, condition);
    assert(holds(after, subscriber, condition));
    lemma_sorted_thresholds(after[subscriber]);
}

/// After a removal no subscriber is left with an empty list, and the
/// subscriber keeps exactly the conditions that the selector did not pick.
pub proof fn lemma_removed(m: Map<i64, Seq<Trigger>>, subscriber: i64, selector: Selector)
    requires
        well_formed(m),
    ensures
        well_formed(removed(m, subscriber, selector)),
        forall|k: i64, t: Trigger|
            holds(removed(m, subscriber, selector), k, t) <==> holds(m, k, t) && !(k == subscriber
                && selector.selects(t)),
{
    let keep = |t: Trigger| !selector.selects(t);
    lemma_filter_members(conditions(m, subscriber), keep);
    lemma_filter_sorted(conditions(m, subscriber), keep);
    let after = removed(m, subscriber, selector);
    assert forall|k: i64, t: Trigger|
        holds(after, k, t) <==> holds(m, k, t) && !(k == subscriber && selector.selects(t)) by {
        if k == subscriber && holds(m, k, t) && !selector.selects(t) {
            assert(conditions(m, subscriber).filter(keep).contains(t));
        }
    }
}

/// The process-wide map from subscriber to conditions.
#[derive(Debug)]
pub struct TriggerStore {
    map: HashMap<i64, Vec<Trigger>>,
}

impl View for TriggerStore {
    type V = Map<i64, Seq<Trigger>>;

    closed spec fn view(&self) -> Map<i64, Seq<Trigger>> {
        lists_of(self.map@)
    }
}

/// A map of vectors as a map of sequences.
spec fn lists_of(raw: Map<i64, Vec<Trigger>>) -> Map<i64, Seq<Trigger>> {
    Map::new(|k: i64| raw.contains_key(k), |k: i64| raw[k]@)
}

/// A copy of a list of conditions.
fn copy_of(list: &Vec<Trigger>) -> (copy: Vec<Trigger>)
    ensures
        copy@ == list@,
{
    let mut copy: Vec<Trigger> = Vec::new();
    let mut i: usize = 0;
    while i < list.len()
        invariant
            i <= list.len(),
            copy@ == list@.take(i as int),
        decreases list.len() - i,
    {
        copy.push(list[i]);
        i += 1;
        assert(copy@ =~= list@.take(i as int));
    }
    assert(list@.take(list.len() as int) =~= list@);
    copy
}

impl TriggerStore {
    /// Every store is well formed.
    #[verifier::type_invariant]
    pub open spec fn valid(self) -> bool {
        well_formed(self@)
    }

    /// Moves the map out and leaves an empty one, so that each change is
    /// made on a map that the store does not hold.
    fn take_map(&mut self) -> (map: HashMap<i64, Vec<Trigger>>)
        ensures
            map == old(self).map,
            final(self).map@ == Map::<i64, Vec<Trigger>>::empty(),
    {
        let mut map: HashMap<i64, Vec<Trigger>> = HashMap::new();
        std::mem::swap(&mut self.map, &mut map);
        map
    }

    /// A store without subscribers.
    pub fn new() -> (store: TriggerStore)
        ensures
            store@ == Map::<i64, Seq<Trigger>>::empty(),
            well_formed(store@),
    {
        let store = TriggerStore { map: HashMap::new() };
        assert(store@ =~= Map::<i64, Seq<Trigger>>::empty());
        store
    }

    /// Whether no subscriber has a condition.
    pub fn is_empty(&self) -> (empty: bool)
        ensures
            empty == (forall|k: i64| !self@.contains_key(k)),
            well_formed(self@),
    {
        proof {
            use_type_invariant(self);
        }
        let empty = self.map.is_empty();
        proof {
            if empty {
                assert forall|k: i64| !self@.contains_key(k) by {
                    assert(!self.map@.dom().contains(k));
                }
            } else {
                let k = choose|k: i64| self.map@.dom().contains(k);
                assert(self.map@.contains_key(k));
                assert(self@.contains_key(k));
            }
        }
        empty
    }

    /// A subscriber's conditions in order; empty where it has none.
    pub fn list(&self, subscriber: i64) -> (list: Vec<Trigger>)
        ensures
            list@ == conditions(self@, subscriber),
            sorted(list@),
            well_formed(self@),
    {
        proof {
            use_type_invariant(self);
        }
        match self.map.get(&subscriber) {
            Some(found) => {
                assert(self@.contains_key(subscriber));
                copy_of(found)
            },
            None => Vec::new(),
        }
    }

    /// Adds a condition for a subscriber unless the subscriber has it already,
    /// and says whether it was added. The condition goes to its place in the
    /// order, so the list stays sorted.
    pub fn add(&mut self, subscriber: i64, condition: Trigger) -> (inserted: bool)
        ensures
            inserted == !holds(old(self)@, subscriber, condition),
            final(self)@ == added(old(self)@, subscriber, condition),
            well_formed(final(self)@),
    {
        proof {
            use_type_invariant(&*self);
        }
        let mut list = self.list(subscriber);
        let ghost before = list@;
        let mut i: usize = 0;
        while i < list.len() && list[i].before(&condition)
            invariant
                i <= list.len(),
                forall|j: int| 0 <= j < i ==> (#[trigger] list@[j]).precedes(condition),
            decreases list.len() - i,
        {
            i += 1;
        }
        proof {
            lemma_first_not_before(before, condition, i as int);
            lemma_rank_at_split(before, condition, i as int);
        }
        if i < list.len() && list[i] == condition {
            assert(before.contains(before[i as int]));
            return false;
        }
        proof {
            assert(!before.contains(condition)) by {
                if before.contains(condition) {
                    let k = choose|k: int| 0 <= k < before.len() && before[k] == condition;
                    condition.lemma_total(condition);
                    if k > i {
                        assert(before[i as int].precedes(before[k]));
                    }
                }
            }
            lemma_placed(before, condition);
        }
        list.insert(i, condition);
        let mut map = self.take_map();
        map.insert(subscriber, list);
        assert(lists_of(map@) =~= added(old(self)@, subscriber, condition));
        self.map = map;
        true
    }

    /// Removes the conditions of a subscriber that a selector picks, and the
    /// subscriber with its last condition. Says whether any was removed.
    pub fn remove_matching(&mut self, subscriber: i64, selector: &Selector) -> (found: bool)
        ensures
            found == selects_any(old(self)@, subscriber, *selector),
            final(self)@ == removed(old(self)@, subscriber, *selector),
            well_formed(final(self)@),
    {
        proof {
            use_type_invariant(&*self);
        }
        let list = self.list(subscriber);
        let ghost keep = |t: Trigger| !selector.selects(t);
        let mut rest: Vec<Trigger> = Vec::new();
        let mut found = false;
        let mut i: usize = 0;
        while i < list.len()
            invariant
                i <= list.len(),
                keep == (|t: Trigger| !selector.selects(t)),
                rest@ == list@.take(i as int).filter(keep),
                found == (exists|j: int| 0 <= j < i && selector.selects(#[trigger] list@[j])),
            decreases list.len() - i,
        {
            proof {
                assert(list@.take(i + 1) =~= list@.take(i as int).push(list@[i as int]));
                list@.take(i as int).lemma_filter_push(list@[i as int], keep);
            }
            if selector.picks(&list[i]) {
                found = true;
            } else {
                rest.push(list[i]);
            }
            i += 1;
        }
        proof {
            assert(list@.take(list.len() as int) =~= list@);
            lemma_filter_sorted(list@, keep);
            if found {
                let j = choose|j: int| 0 <= j < list.len() && selector.selects(#[trigger] list@[j]);
                assert(list@.contains(list@[j]));
                assert(holds(old(self)@, subscriber, list@[j]));
            }
            if selects_any(old(self)@, subscriber, *selector) {
                let t = choose|t: Trigger| holds(old(self)@, subscriber, t) && selector.selects(t);
                let j = choose|j: int| 0 <= j < list.len() && list@[j] == t;
                assert(selector.selects(list@[j]));
            }
        }
        let mut map = self.take_map();
        if rest.len() == 0 {
            map.remove(&subscriber);
        } else {
            map.insert(subscriber, rest);
        }
        assert(lists_of(map@) =~= removed(old(self)@, subscriber, *selector));
        self.map = map;
        found
    }

    /// Removes a subscriber with all its conditions, and says whether the
    /// store knew it.
    pub fn remove_all(&mut self, subscriber: i64) -> (existed: bool)
        ensures
            existed == old(self)@.contains_key(subscriber),
            final(self)@ == old(self)@.remove(subscriber),
            well_formed(final(self)@),
    {
        proof {
            use_type_invariant(&*self);
        }
        let mut map = self.take_map();
        let existed = map.remove(&subscriber).is_some();
        assert(lists_of(map@) =~= old(self)@.remove(subscriber));
        self.map = map;
        existed
    }

    /// A copy of the store for one evaluation pass: each subscriber once, in
    /// no particular order, with its conditions.
    pub fn snapshot_for_iteration(&self) -> (entries: Vec<(i64, Vec<Trigger>)>)
        ensures
            lists(entries_view(entries@), self@),
            well_formed(self@),
    {
        proof {
            use_type_invariant(self);
        }
        let mut entries: Vec<(i64, Vec<Trigger>)> = Vec::new();
        for pair in it: self.map.iter()
            invariant
                entries.len() == it.index(),
                forall|j: int|
                    0 <= j < entries.len() ==> (#[trigger] entries@[j]).0 == *it.seq()[j].0
                        && entries@[j].1@ == (*it.seq()[j].1)@,
        {
            let (subscriber, list) = pair;
            entries.push((*subscriber, copy_of(list)));
        }
        proof {
            let walked = self.map.iter().remaining();
            let view = entries_view(entries@);
            assert forall|i: int| 0 <= i < view.len() implies self@.contains_key(
                #[trigger] view[i].0,
            ) && self@[view[i].0] == view[i].1 by {
                assert(self.map@.contains_key(*walked[i].0));
            }
            assert forall|i: int, j: int| 0 <= i < j < view.len() implies (#[trigger] view[i]).0 != (
            #[trigger] view[j]).0 by {
                assert(self.map@.contains_key(*walked[i].0));
                assert(self.map@.contains_key(*walked[j].0));
                if view[i].0 == view[j].0 {
                    assert(walked[i] == walked[j]);
                }
            }
            assert forall|k: i64| #[trigger] self@.contains_key(k) implies exists|i: int|
                0 <= i < view.len() && (#[trigger] view[i]).0 == k by {
                assert(self.map@.contains_key(k));
                assert(walked.contains((&k, &self.map@[k])));
                let i = choose|i: int| 0 <= i < walked.len() && walked[i] == (&k, &self.map@[k]);
                assert(view[i].0 == k);
            }
        }
        entries
    }
}

} // verus!
