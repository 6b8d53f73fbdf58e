//! The backup of a store as bytes, and the store that bytes restore.
//!
//! A backup lists each subscriber with its conditions, a condition as the
//! number of its direction and the bit pattern of its threshold, and leaves
//! the bytes to bincode.

use crate::order::lemma_sorted_unique;
use crate::price::{bits_of_key, is_key, is_number, key_of_bits, lemma_bits_of_key, Price};
use crate::store::{entries_view, holds, lemma_added, well_formed, TriggerStore};
use crate::trigger::Trigger;
use vstd::prelude::*;

verus! {

/// The number that stands for `Lower` in a backup.
pub const LOWER_TAG: u32 = 0;

/// The number that stands for `Higher` in a backup.
pub const HIGHER_TAG: u32 = 1;

/// Why a backup or a restore did not work.
#[derive(Clone, Copy, PartialEq, Eq, Structural, Debug)]
pub enum BackupError {
    /// There is no backup.
    Missing,
    /// The bytes are not a backup of a store.
    Corrupt,
    /// bincode reported an error on writing. It reports none for the listing
    /// of a store, so `backup` never returns this.
    Encode,
}

/// The error type of bincode.
#[verifier::external_type_specification]
#[verifier::external_body]
pub struct ExErrorKind(bincode::ErrorKind);

/// The bytes that bincode writes for a list of subscribers, each with the
/// list of its conditions as pairs of numbers.
pub uninterp spec fn encoded(plain: Seq<(i64, Seq<(u32, u64)>)>) -> Seq<u8>;

/// The list that bincode reads from bytes; `None` where it reports an error.
pub uninterp spec fn decoded(bytes: Seq<u8>) -> Option<Seq<(i64, Seq<(u32, u64)>)>>;

/// A list of subscribers and vectors as a list of subscribers and sequences.
pub open spec fn plain_view(plain: Seq<(i64, Vec<(u32, u64)>)>) -> Seq<(i64, Seq<(u32, u64)>)> {
    plain.map_values(|e: (i64, Vec<(u32, u64)>)| (e.0, e.1@))
}

/// `bincode::serialize` on a list of subscribers and conditions. The bytes
/// are named, not described. Claimed beyond the name:
///
/// - The call succeeds. On writing, bincode reports an error where a size
///   limit refuses, where the writer fails, and where a sequence does not
///   know its length; this call sets no limit, writes into a vector, and
///   hands over vectors, tuples and integers, which know their lengths.
/// - bincode reads back from these bytes the list that it was given, as the
///   first example of its documentation shows and asserts.
#[verifier::external_body]
fn serialize(plain: &Vec<(i64, Vec<(u32, u64)>)>) -> (r: Result<Vec<u8>, Box<bincode::ErrorKind>>)
    ensures
        r is Ok,
        r matches Ok(bytes) ==> bytes@ == encoded(plain_view(plain@)) && decoded(bytes@) == Some(
            plain_view(plain@),
        ),
{
    bincode::serialize(plain)
}

/// `bincode::deserialize` to a list of subscribers and conditions: the named
/// result, with bincode's error where it reports one.
#[verifier::external_body]
fn deserialize(bytes: &[u8]) -> (r: Result<Vec<(i64, Vec<(u32, u64)>)>, Box<bincode::ErrorKind>>)
    ensures
        match r {
            Ok(plain) => decoded(bytes@) == Some(plain_view(plain@)),
            Err(_) => decoded(bytes@) is None,
        },
{
    bincode::deserialize(bytes)
}

/// The pair of numbers that a backup holds for a condition.
pub open spec fn item(condition: Trigger) -> (u32, u64) {
    match condition {
        Trigger::Lower(_) => (LOWER_TAG, bits_of_key(condition.threshold())),
        Trigger::Higher(_) => (HIGHER_TAG, bits_of_key(condition.threshold())),
    }
}

/// Whether a pair of numbers stands for a condition. Beside the pair that a
/// backup holds for it, a zero threshold may come with its sign bit set.
pub open spec fn encodes(item: (u32, u64), condition: Trigger) -> bool {
    &&& is_number(item.1)
    &&& condition.threshold() == key_of_bits(item.1)
    &&& match condition {
        Trigger::Lower(_) => item.0 == LOWER_TAG,
        Trigger::Higher(_) => item.0 == HIGHER_TAG,
    }
}

/// Whether a pair of numbers stands for some condition.
pub open spec fn readable(item: (u32, u64)) -> bool {
    (item.0 == LOWER_TAG || item.0 == HIGHER_TAG) && is_number(item.1)
}

/// Whether every pair of a list stands for some condition.
pub open spec fn all_readable(plain: Seq<(i64, Seq<(u32, u64)>)>) -> bool {
    forall|i: int, j: int|
        0 <= i < plain.len() && 0 <= j < plain[i].1.len() ==> readable(#[trigger] plain[i].1[j])
}

/// Whether a list gives a subscriber a condition.
pub open spec fn mentions(
    plain: Seq<(i64, Seq<(u32, u64)>)>,
    subscriber: i64,
    condition: Trigger,
) -> bool {
    exists|i: int, j: int|
        0 <= i < plain.len() && 0 <= j < plain[i].1.len() && plain[i].0 == subscriber && encodes(
            #[trigger] plain[i].1[j],
            condition,
        )
}

/// Whether a list is the listing of a store: each subscriber once, in any
/// order, with the pairs of its conditions in their order.
pub open spec fn spells(plain: Seq<(i64, Seq<(u32, u64)>)>, m: Map<i64, Seq<Trigger>>) -> bool {
    &&& forall|i: int|
        0 <= i < plain.len() ==> m.contains_key(#[trigger] plain[i].0) && plain[i].1
            == m[plain[i].0].map_values(|t: Trigger| item(t))
    &&& forall|i: int, j: int|
        0 <= i < j < plain.len() ==> (#[trigger] plain[i]).0 != (#[trigger] plain[j]).0
    &&& forall|k: i64| #[trigger]
        m.contains_key(k) ==> exists|i: int| 0 <= i < plain.len() && (#[trigger] plain[i]).0 == k
}

/// Whether a store is what a list gathers to: every pair of the list stands
/// for a condition, and the store holds the conditions that the list gives
/// each subscriber, each once and in order, and no others.
pub open spec fn gathers(plain: Seq<(i64, Seq<(u32, u64)>)>, m: Map<i64, Seq<Trigger>>) -> bool {
    &&& all_readable(plain)
    &&& well_formed(m)
    &&& forall|k: i64, t: Trigger| holds(m, k, t) <==> mentions(plain, k, t)
}

/// The store that a list gathers to, if every pair of it stands for a
/// condition.
pub open spec fn gathered(plain: Seq<(i64, Seq<(u32, u64)>)>) -> Option<Map<i64, Seq<Trigger>>> {
    if exists|m: Map<i64, Seq<Trigger>>| gathers(plain, m) {
        Some(choose|m: Map<i64, Seq<Trigger>>| gathers(plain, m))
    } else {
        None
    }
}

/// The store that bytes restore: empty where they are not a backup.
pub open spec fn restored(bytes: Seq<u8>) -> Map<i64, Seq<Trigger>> {
    match decoded(bytes) {
        Some(plain) => match gathered(plain) {
            Some(m) => m,
            None => Map::empty(),
        },
        None => Map::empty(),
    }
}

/// Whether bytes are a backup: bincode reads a list from them, and every
/// pair of the list stands for a condition.
pub open spec fn is_backup(bytes: Seq<u8>) -> bool {
    decoded(bytes) matches Some(plain) && gathered(plain) is Some
}

/// Two well-formed stores that hold the same conditions are equal.
pub proof fn lemma_store_unique(a: Map<i64, Seq<Trigger>>, b: Map<i64, Seq<Trigger>>)
    requires
        well_formed(a),
        well_formed(b),
        forall|k: i64, t: Trigger| holds(a, k, t) <==> holds(b, k, t),
    ensures
        a == b,
{
    assert forall|k: i64| a.contains_key(k) <==> b.contains_key(k) by {
        if a.contains_key(k) {
            assert(a[k].contains(a[k][0]));
            assert(holds(a, k, a[k][0]));
            assert(holds(b, k, a[k][0]));
        }
        if b.contains_key(k) {
            assert(b[k].contains(b[k][0]));
            assert(holds(b, k, b[k][0]));
            assert(holds(a, k, b[k][0]));
        }
    }
    assert forall|k: i64| a.contains_key(k) implies a[k] == b[k] by {
        assert forall|t: Trigger| a[k].contains(t) <==> b[k].contains(t) by {
            assert(holds(a, k, t) <==> holds(b, k, t));
        }
        lemma_sorted_unique(a[k], b[k]);
    }
    assert(a =~= b);
}

/// A list gathers to one store at most.
pub proof fn lemma_gathered(plain: Seq<(i64, Seq<(u32, u64)>)>, m: Map<i64, Seq<Trigger>>)
    requires
        gathers(plain, m),
    ensures
        gathered(plain) == Some(m),
{
    let chosen = choose|m: Map<i64, Seq<Trigger>>| gathers(plain, m);
    lemma_store_unique(chosen, m);
}

/// A pair of numbers stands for one condition at most.
proof fn lemma_encodes_one(item: (u32, u64), a: Trigger, b: Trigger)
    requires
        encodes(item, a),
        encodes(item, b),
    ensures
        a == b,
{
    a.threshold_price().lemma_same_key(b.threshold_price());
}

/// The listing of a store gathers to that store.
pub proof fn lemma_listing_gathers(plain: Seq<(i64, Seq<(u32, u64)>)>, m: Map<i64, Seq<Trigger>>)
    requires
        spells(plain, m),
        well_formed(m),
        forall|k: i64, t: Trigger| holds(m, k, t) ==> is_key(t.threshold()),
    ensures
        gathers(plain, m),
        gathered(plain) == Some(m),
{
    assert forall|i: int, j: int| 0 <= i < plain.len() && 0 <= j < plain[i].1.len() implies encodes(
        #[trigger] plain[i].1[j],
        m[plain[i].0][j],
    ) by {
        let t = m[plain[i].0][j];
        assert(m.contains_key(plain[i].0));
        assert(m[plain[i].0].contains(t));
        assert(holds(m, plain[i].0, t));
        lemma_bits_of_key(t.threshold());
        assert(plain[i].1[j] == item(t));
    }
    assert forall|k: i64, t: Trigger| holds(m, k, t) <==> mentions(plain, k, t) by {
        if holds(m, k, t) {
            let i = choose|i: int| 0 <= i < plain.len() && (#[trigger] plain[i]).0 == k;
            assert(m.contains_key(plain[i].0));
            let j = choose|j: int| 0 <= j < m[k].len() && m[k][j] == t;
            assert(encodes(plain[i].1[j], m[plain[i].0][j]));
        }
        if mentions(plain, k, t) {
            let (i, j) = choose|i: int, j: int|
                0 <= i < plain.len() && 0 <= j < plain[i].1.len() && plain[i].0 == k && encodes(
                    #[trigger] plain[i].1[j],
                    t,
                );
            assert(encodes(plain[i].1[j], m[plain[i].0][j]));
            lemma_encodes_one(plain[i].1[j], t, m[plain[i].0][j]);
            assert(m.contains_key(plain[i].0));
            assert(m[k][j] == t);
        }
    }
    lemma_gathered(plain, m);
}

/// The pair of numbers that a backup holds for a condition.
fn item_of(condition: &Trigger) -> (pair: (u32, u64))
    ensures
        pair == item(*condition),
        is_key(condition.threshold()),
{
    match condition {
        Trigger::Lower(p) => (LOWER_TAG, p.to_bits()),
        Trigger::Higher(p) => (HIGHER_TAG, p.to_bits()),
    }
}

/// The condition that a pair of numbers stands for, if any.
fn condition_of(pair: &(u32, u64)) -> (r: Option<Trigger>)
    ensures
        r is Some <==> readable(*pair),
        r matches Some(t) ==> encodes(*pair, t),
{
    match Price::from_bits(pair.1) {
        Some(price) => {
            if pair.0 == LOWER_TAG {
                Some(Trigger::Lower(price))
            } else if pair.0 == HIGHER_TAG {
                Some(Trigger::Higher(price))
            } else {
                None
            }
        },
        None => None,
    }
}

/// The conditions of a subscriber as pairs of numbers.
fn items_of(list: &Vec<Trigger>) -> (items: Vec<(u32, u64)>)
    ensures
        items@ == list@.map_values(|t: Trigger| item(t)),
        forall|j: int| 0 <= j < list.len() ==> is_key((#[trigger] list@[j]).threshold()),
{
    let mut items: Vec<(u32, u64)> = Vec::new();
    let mut j: usize = 0;
    while j < list.len()
        invariant
            j <= list.len(),
            items.len() == j,
            forall|b: int| 0 <= b < j ==> #[trigger] items@[b] == item(list@[b]),
            forall|b: int| 0 <= b < j ==> is_key((#[trigger] list@[b]).threshold()),
        decreases list.len() - j,
    {
        items.push(item_of(&list[j]));
        j += 1;
    }
    assert(items@ =~= list@.map_values(|t: Trigger| item(t)));
    items
}

/// The listing of a store, as a backup holds it: each subscriber once, in no
/// particular order, with its conditions as pairs of numbers.
pub fn plain_of(store: &TriggerStore) -> (plain: Vec<(i64, Vec<(u32, u64)>)>)
    ensures
        spells(plain_view(plain@), store@),
        gathered(plain_view(plain@)) == Some(store@),
{
    let entries = store.snapshot_for_iteration();
    let ghost ev = entries_view(entries@);
    let mut plain: Vec<(i64, Vec<(u32, u64)>)> = Vec::new();
    let mut i: usize = 0;
    while i < entries.len()
        invariant
            i <= entries.len(),
            plain.len() == i,
            forall|a: int|
                0 <= a < i ==> (#[trigger] plain@[a]).0 == entries@[a].0 && plain@[a].1@
                    == entries@[a].1@.map_values(|t: Trigger| item(t)),
            forall|a: int, b: int|
                0 <= a < i && 0 <= b < entries@[a].1.len() ==> is_key(
                    (#[trigger] entries@[a].1@[b]).threshold(),
                ),
        decreases entries.len() - i,
    {
        let items = items_of(&entries[i].1);
        plain.push((entries[i].0, items));
        i += 1;
    }
    proof {
        let pv = plain_view(plain@);
        assert forall|a: int| 0 <= a < pv.len() implies store@.contains_key(#[trigger] pv[a].0)
            && pv[a].1 == store@[pv[a].0].map_values(|t: Trigger| item(t)) by {
            assert(store@.contains_key(ev[a].0));
        }
        assert forall|a: int, b: int| 0 <= a < b < pv.len() implies (#[trigger] pv[a]).0 != (
        #[trigger] pv[b]).0 by {
            assert(ev[a].0 != ev[b].0);
        }
        assert forall|k: i64| #[trigger] store@.contains_key(k) implies exists|a: int|
            0 <= a < pv.len() && (#[trigger] pv[a]).0 == k by {
            let a = choose|a: int| 0 <= a < ev.len() && (#[trigger] ev[a]).0 == k;
            assert(pv[a].0 == k);
        }
        assert forall|k: i64, t: Trigger| holds(store@, k, t) implies is_key(
            t.threshold(),
        ) by {
            let a = choose|a: int| 0 <= a < ev.len() && (#[trigger] ev[a]).0 == k;
            assert(store@.contains_key(ev[a].0));
            let b = choose|b: int| 0 <= b < ev[a].1.len() && ev[a].1[b] == t;
            assert(is_key(entries@[a].1@[b].threshold()));
        }
        lemma_listing_gathers(pv, store@);
    }
    plain
}

/// Whether one of the first `upto` entries of a list, or one of the first
/// `within` pairs of the entry after them, gives a subscriber a condition.
spec fn mentions_before(
    plain: Seq<(i64, Seq<(u32, u64)>)>,
    upto: int,
    within: int,
    subscriber: i64,
    condition: Trigger,
) -> bool {
    exists|i: int, j: int|
        0 <= i < plain.len() && 0 <= j < plain[i].1.len() && (i < upto || (i == upto && j
            < within)) && plain[i].0 == subscriber && encodes(#[trigger] plain[i].1[j], condition)
}

/// The store that a list gathers to: every condition that the list gives a
/// subscriber is added, so the store holds it once and in order, however
/// the list orders or repeats it. `None` where a pair of the list stands
/// for no condition.
pub fn store_of(plain: &Vec<(i64, Vec<(u32, u64)>)>) -> (r: Option<TriggerStore>)
    ensures
        match r {
            Some(store) => gathered(plain_view(plain@)) == Some(store@),
            None => gathered(plain_view(plain@)) is None,
        },
        r is Some <==> all_readable(plain_view(plain@)),
{
    let ghost pv = plain_view(plain@);
    let mut store = TriggerStore::new();
    let mut i: usize = 0;
    while i < plain.len()
        invariant
            i <= plain.len(),
            pv == plain_view(plain@),
            well_formed(store@),
            forall|a: int, b: int|
                0 <= a < i && 0 <= b < pv[a].1.len() ==> readable(#[trigger] pv[a].1[b]),
            forall|k: i64, t: Trigger| holds(store@, k, t) <==> mentions_before(pv, i as int, 0, k, t),
        decreases plain.len() - i,
    {
        let subscriber: i64 = plain[i].0;
        let items = &plain[i].1;
        assert(pv[i as int] == (subscriber, items@));
        let mut j: usize = 0;
        while j < items.len()
            invariant
                i < plain.len(),
                j <= items.len(),
                pv == plain_view(plain@),
                pv[i as int] == (subscriber, items@),
                well_formed(store@),
                forall|a: int, b: int|
                    0 <= a < i && 0 <= b < pv[a].1.len() ==> readable(#[trigger] pv[a].1[b]),
                forall|b: int| 0 <= b < j ==> readable(#[trigger] items@[b]),
                forall|k: i64, t: Trigger|
                    holds(store@, k, t) <==> mentions_before(pv, i as int, j as int, k, t),
            decreases items.len() - j,
        {
            let condition = match condition_of(&items[j]) {
                Some(condition) => condition,
                None => {
                    proof {
                        assert(!readable(pv[i as int].1[j as int]));
                        assert(!all_readable(pv));
                    }
                    return None;
                },
            };
            let ghost before = store@;
            store.add(subscriber, condition);
            proof {
                lemma_added(before, subscriber, condition);
                assert forall|k: i64, t: Trigger|
                    holds(store@, k, t) <==> mentions_before(pv, i as int, j + 1, k, t) by {
                    assert(holds(before, k, t) <==> mentions_before(pv, i as int, j as int, k, t));
                    assert(holds(store@, k, t) <==> holds(before, k, t) || (k == subscriber && t
                        == condition));
                    if mentions_before(pv, i as int, j + 1, k, t) {
                        let (a, b) = choose|a: int, b: int|
                            0 <= a < pv.len() && 0 <= b < pv[a].1.len() && (a < i || (a == i && b
                                < j + 1)) && pv[a].0 == k && encodes(#[trigger] pv[a].1[b], t);
                        if a == i && b == j {
                            lemma_encodes_one(pv[a].1[b], t, condition);
                        } else {
                            assert(mentions_before(pv, i as int, j as int, k, t));
                        }
                    }
                    if mentions_before(pv, i as int, j as int, k, t) {
                        let (a, b) = choose|a: int, b: int|
                            0 <= a < pv.len() && 0 <= b < pv[a].1.len() && (a < i || (a == i && b
                                < j)) && pv[a].0 == k && encodes(#[trigger] pv[a].1[b], t);
                        assert(mentions_before(pv, i as int, j + 1, k, t));
                    }
                    if k == subscriber && t == condition {
                        assert(encodes(pv[i as int].1[j as int], t));
                        assert(mentions_before(pv, i as int, j + 1, k, t));
                    }
                }
            }
            j += 1;
        }
        proof {
            assert forall|k: i64, t: Trigger|
                mentions_before(pv, i as int, items.len() as int, k, t) <==> mentions_before(
                    pv,
                    i + 1,
                    0,
                    k,
                    t,
                ) by {
                if mentions_before(pv, i as int, items.len() as int, k, t) {
                    let (a, b) = choose|a: int, b: int|
                        0 <= a < pv.len() && 0 <= b < pv[a].1.len() && (a < i || (a == i && b
                            < items.len())) && pv[a].0 == k && encodes(#[trigger] pv[a].1[b], t);
                    assert(mentions_before(pv, i + 1, 0, k, t));
                }
                if mentions_before(pv, i + 1, 0, k, t) {
                    let (a, b) = choose|a: int, b: int|
                        0 <= a < pv.len() && 0 <= b < pv[a].1.len() && (a < i + 1 || (a == i + 1
                            && b < 0)) && pv[a].0 == k && encodes(#[trigger] pv[a].1[b], t);
                    assert(mentions_before(pv, i as int, items.len() as int, k, t));
                }
            }
        }
        i += 1;
    }
    proof {
        assert forall|k: i64, t: Trigger| holds(store@, k, t) <==> mentions(pv, k, t) by {
            if mentions(pv, k, t) {
                let (a, b) = choose|a: int, b: int|
                    0 <= a < pv.len() && 0 <= b < pv[a].1.len() && pv[a].0 == k && encodes(
                        #[trigger] pv[a].1[b],
                        t,
                    );
                assert(mentions_before(pv, plain.len() as int, 0, k, t));
            }
            if mentions_before(pv, plain.len() as int, 0, k, t) {
                let (a, b) = choose|a: int, b: int|
                    0 <= a < pv.len() && 0 <= b < pv[a].1.len() && (a < plain.len() || (a
                        == plain.len() && b < 0)) && pv[a].0 == k && encodes(
                        #[trigger] pv[a].1[b],
                        t,
                    );
                assert(mentions(pv, k, t));
            }
        }
        assert(gathers(pv, store@));
        lemma_gathered(pv, store@);
    }
    Some(store)
}

/// The bytes of a backup of the store: what bincode writes for the listing
/// of the store. Every store has a backup, and restoring it gives the store
/// as it is now.
pub fn backup(store: &TriggerStore) -> (r: Result<Vec<u8>, BackupError>)
    ensures
        r is Ok,
        r matches Ok(bytes) ==> {
            &&& restored(bytes@) == store@
            &&& is_backup(bytes@)
            &&& exists|plain: Seq<(i64, Seq<(u32, u64)>)>|
                spells(plain, store@) && bytes@ == #[trigger] encoded(plain)
        },
{
    let plain = plain_of(store);
    match serialize(&plain) {
        Ok(bytes) => Ok(bytes),
        Err(_) => Err(BackupError::Encode),
    }
}

/// The store of a backup, and why it is empty where the backup could not be
/// used: there was none, or its bytes are not a backup.
pub fn restore(content: Option<&[u8]>) -> (r: (TriggerStore, Option<BackupError>))
    ensures
        well_formed(r.0@),
        match content {
            None => r.0@ == Map::<i64, Seq<Trigger>>::empty() && r.1 == Some(BackupError::Missing),
            Some(bytes) => {
                &&& r.0@ == restored(bytes@)
                &&& r.1 == if is_backup(bytes@) {
                    None
                } else {
                    Some(BackupError::Corrupt)
                }
            },
        },
{
    let bytes = match content {
        Some(bytes) => bytes,
        None => {
            return (TriggerStore::new(), Some(BackupError::Missing));
        },
    };
    let plain = match deserialize(bytes) {
        Ok(plain) => plain,
        Err(_) => {
            return (TriggerStore::new(), Some(BackupError::Corrupt));
        },
    };
    match store_of(&plain) {
        Some(store) => {
            proof {
                use_type_invariant(&store);
            }
            (store, None)
        },
        None => (TriggerStore::new(), Some(BackupError::Corrupt)),
    }
}

/// Restoring the backup of a store gives that store: bytes from which
/// bincode reads the listing of a store restore that store.
pub proof fn lemma_round_trip(
    bytes: Seq<u8>,
    plain: Seq<(i64, Seq<(u32, u64)>)>,
    m: Map<i64, Seq<Trigger>>,
)
    requires
        decoded(bytes) == Some(plain),
        gathers(plain, m),
    ensures
        restored(bytes) == m,
        is_backup(bytes),
{
    lemma_gathered(plain, m);
}

} // verus!
