//! The commands of a subscriber: what each does to the store, what the
//! subscriber is told, and where the conversation stands afterwards.

use crate::dialogue::{Reply, State, Turn};
use crate::price::Price;
use crate::store::{
    added, conditions, holds, removed, selects_any, well_formed, TriggerStore,
};
use crate::trigger::{Selector, Trigger};
use vstd::prelude::*;

verus! {

/// What adding a condition does: the store gets it unless the subscriber
/// has it already, the conversation ends, and the store is to be backed up
/// where it changed.
pub open spec fn adds(
    before: Map<i64, Seq<Trigger>>,
    after: Map<i64, Seq<Trigger>>,
    chat_id: i64,
    trigger: Trigger,
    turn: Turn,
) -> bool {
    &&& after == added(before, chat_id, trigger)
    &&& turn.state == State::Start
    &&& turn.persist == !holds(before, chat_id, trigger)
    &&& turn.reply == if holds(before, chat_id, trigger) {
        Reply::TriggerExists(trigger)
    } else {
        Reply::TriggerAdded(trigger)
    }
}

/// What deleting at a threshold does: the subscriber loses its conditions at
/// that threshold, whatever their direction, the conversation ends, and the
/// store is to be backed up whether or not one was found.
pub open spec fn deletes(
    before: Map<i64, Seq<Trigger>>,
    after: Map<i64, Seq<Trigger>>,
    chat_id: i64,
    price: Price,
    turn: Turn,
) -> bool {
    &&& after == removed(before, chat_id, Selector::Threshold(price))
    &&& turn.state == State::Start
    &&& turn.persist
    &&& turn.reply == if selects_any(before, chat_id, Selector::Threshold(price)) {
        Reply::TriggerDeleted(price)
    } else {
        Reply::TriggerNotFound(price)
    }
}

/// What deleting everything does: the subscriber leaves the store, and the
/// store is to be backed up where the subscriber had any condition.
pub open spec fn deletes_all(
    before: Map<i64, Seq<Trigger>>,
    after: Map<i64, Seq<Trigger>>,
    chat_id: i64,
    turn: Turn,
) -> bool {
    &&& after == before.remove(chat_id)
    &&& turn.state == State::Start
    &&& turn.persist == before.contains_key(chat_id)
    &&& turn.reply == if before.contains_key(chat_id) {
        Reply::AllDeleted
    } else {
        Reply::NoTriggers
    }
}

/// What listing does: the subscriber is shown its conditions in order, a
/// list that may be empty, or told that there are no conditions where the
/// store holds none at all.
pub open spec fn shows(m: Map<i64, Seq<Trigger>>, chat_id: i64, turn: Turn) -> bool {
    &&& turn.state == State::Start
    &&& !turn.persist
    &&& if forall|k: i64| !m.contains_key(k) {
        turn.reply == Reply::NoTriggers
    } else {
        turn.reply matches Reply::Triggers(shown) && shown@ == conditions(m, chat_id)
    }
}

/// What opening a deletion does: the subscriber is shown its conditions to
/// choose from, or told that it has none, which ends the conversation.
pub open spec fn offers(m: Map<i64, Seq<Trigger>>, chat_id: i64, turn: Turn) -> bool {
    &&& !turn.persist
    &&& if m.contains_key(chat_id) {
        &&& turn.state == State::DeleteTrigger
        &&& turn.reply matches Reply::ChooseTriggerToDelete(shown)
        &&& shown@ == m[chat_id]
    } else {
        turn.state == State::Start && turn.reply == Reply::NoTriggers
    }
}

/// What choosing a direction does: with a direction the subscriber is asked
/// for the threshold, and the condition to complete is kept with threshold
/// zero; with anything else the subscriber is asked again, and the
/// conversation stays where it was.
pub open spec fn takes_type(state: State, data: Option<&str>, turn: Turn) -> bool {
    &&& !turn.persist
    &&& if names_lower(data) {
        &&& turn.state matches State::ReceivePrice { trigger: Trigger::Lower(p) }
        &&& p@ == 0
        &&& turn.reply == Reply::AskPrice
    } else if names_higher(data) {
        &&& turn.state matches State::ReceivePrice { trigger: Trigger::Higher(p) }
        &&& p@ == 0
        &&& turn.reply == Reply::AskPrice
    } else {
        turn.state == state && turn.reply == Reply::ChooseOption
    }
}

/// What sending a threshold does: with a number the condition gets that
/// threshold and is added; without one the subscriber is asked again, and
/// nothing changes.
pub open spec fn takes_price(
    before: Map<i64, Seq<Trigger>>,
    after: Map<i64, Seq<Trigger>>,
    price: Option<Price>,
    trigger: Trigger,
    chat_id: i64,
    turn: Turn,
) -> bool {
    match price {
        Some(p) => adds(before, after, chat_id, trigger.with_threshold(p), turn),
        None => {
            &&& after == before
            &&& turn.state == (State::ReceivePrice { trigger })
            &&& turn.reply == Reply::AskNumber
            &&& !turn.persist
        },
    }
}

/// What choosing a condition to delete does: with a number the conditions
/// at that threshold are deleted; without one the subscriber is asked
/// again, and nothing changes.
pub open spec fn takes_choice(
    before: Map<i64, Seq<Trigger>>,
    after: Map<i64, Seq<Trigger>>,
    state: State,
    price: Option<Price>,
    chat_id: i64,
    turn: Turn,
) -> bool {
    match price {
        Some(p) => deletes(before, after, chat_id, p, turn),
        None => {
            &&& after == before
            &&& turn.state == state
            &&& turn.reply == Reply::ChooseOption
            &&& !turn.persist
        },
    }
}

/// Opens the conversation that adds a condition: the subscriber is asked for
/// a direction.
pub fn start() -> (turn: Turn)
    ensures
        turn.state == State::ReceiveTriggerType,
        turn.reply == Reply::ChooseTriggerType,
        !turn.persist,
{
    Turn { state: State::ReceiveTriggerType, reply: Reply::ChooseTriggerType, persist: false }
}

/// Whether a button's data names the direction `Lower`.
pub open spec fn names_lower(data: Option<&str>) -> bool {
    data matches Some(d) && d@ == "Lower"@
}

/// Whether a button's data names the direction `Higher`.
pub open spec fn names_higher(data: Option<&str>) -> bool {
    data matches Some(d) && d@ == "Higher"@
}

/// Whether two strings are the same.
fn same(a: &str, b: &str) -> (r: bool)
    ensures
        r == (a@ == b@),
{
    a.to_owned() == b.to_owned()
}

/// Takes the direction that the subscriber chose, as the data of the button
/// pressed.
pub fn receive_trigger_type(state: State, data: Option<&str>) -> (turn: Turn)
    ensures
        takes_type(state, data, turn),
{
    proof {
        reveal_strlit("Lower");
        reveal_strlit("Higher");
    }
    match data {
        Some(d) => {
            if same(d, "Lower") {
                assert("Lower"@ != "Higher"@) by {
                    assert("Lower"@.len() != "Higher"@.len());
                }
                Turn {
                    state: State::ReceivePrice { trigger: Trigger::Lower(Price::zero()) },
                    reply: Reply::AskPrice,
                    persist: false,
                }
            } else if same(d, "Higher") {
                Turn {
                    state: State::ReceivePrice { trigger: Trigger::Higher(Price::zero()) },
                    reply: Reply::AskPrice,
                    persist: false,
                }
            } else {
                Turn { state, reply: Reply::ChooseOption, persist: false }
            }
        },
        None => Turn { state, reply: Reply::ChooseOption, persist: false },
    }
}

/// Adds a condition for a subscriber.
pub fn add(trigger: Trigger, chat_id: i64, triggers: &mut TriggerStore) -> (turn: Turn)
    ensures
        adds(old(triggers)@, final(triggers)@, chat_id, trigger, turn),
        well_formed(final(triggers)@),
{
    if triggers.add(chat_id, trigger) {
        Turn { state: State::Start, reply: Reply::TriggerAdded(trigger), persist: true }
    } else {
        Turn { state: State::Start, reply: Reply::TriggerExists(trigger), persist: false }
    }
}

/// Takes the threshold that the subscriber sent, as the number that the
/// message holds, if it holds one.
pub fn receive_price(
    price: Option<Price>,
    trigger: Trigger,
    chat_id: i64,
    triggers: &mut TriggerStore,
) -> (turn: Turn)
    ensures
        takes_price(old(triggers)@, final(triggers)@, price, trigger, chat_id, turn),
        well_formed(final(triggers)@),
{
    match price {
        Some(p) => {
            let mut complete = trigger;
            complete.set(p);
            self::add(complete, chat_id, triggers)
        },
        None => {
            proof {
                use_type_invariant(&*triggers);
            }
            Turn { state: State::ReceivePrice { trigger }, reply: Reply::AskNumber, persist: false }
        },
    }
}

/// The conditions of a subscriber, in order, for display.
pub fn list(chat_id: i64, triggers: &TriggerStore) -> (turn: Turn)
    ensures
        shows(triggers@, chat_id, turn),
{
    if triggers.is_empty() {
        Turn { state: State::Start, reply: Reply::NoTriggers, persist: false }
    } else {
        Turn { state: State::Start, reply: Reply::Triggers(triggers.list(chat_id)), persist: false }
    }
}

/// Opens the conversation that deletes a condition.
pub fn show_trigger_to_delete(chat_id: i64, triggers: &TriggerStore) -> (turn: Turn)
    ensures
        offers(triggers@, chat_id, turn),
{
    let shown = triggers.list(chat_id);
    if shown.len() == 0 {
        Turn { state: State::Start, reply: Reply::NoTriggers, persist: false }
    } else {
        Turn {
            state: State::DeleteTrigger,
            reply: Reply::ChooseTriggerToDelete(shown),
            persist: false,
        }
    }
}

/// Deletes the conditions of a subscriber at a threshold.
pub fn delete(price: Price, chat_id: i64, triggers: &mut TriggerStore) -> (turn: Turn)
    ensures
        deletes(old(triggers)@, final(triggers)@, chat_id, price, turn),
        well_formed(final(triggers)@),
{
    if triggers.remove_matching(chat_id, &Selector::Threshold(price)) {
        Turn { state: State::Start, reply: Reply::TriggerDeleted(price), persist: true }
    } else {
        Turn { state: State::Start, reply: Reply::TriggerNotFound(price), persist: true }
    }
}

/// Takes the condition that the subscriber chose to delete, as the number
/// that the button's data holds, if it holds one.
pub fn choose_trigger_to_delete(
    state: State,
    price: Option<Price>,
    chat_id: i64,
    triggers: &mut TriggerStore,
) -> (turn: Turn)
    ensures
        takes_choice(old(triggers)@, final(triggers)@, state, price, chat_id, turn),
        well_formed(final(triggers)@),
{
    match price {
        Some(p) => delete(p, chat_id, triggers),
        None => {
            proof {
                use_type_invariant(&*triggers);
            }
            Turn { state, reply: Reply::ChooseOption, persist: false }
        },
    }
}

/// Deletes every condition of a subscriber.
pub fn delete_all(chat_id: i64, triggers: &mut TriggerStore) -> (turn: Turn)
    ensures
        deletes_all(old(triggers)@, final(triggers)@, chat_id, turn),
        well_formed(final(triggers)@),
{
    if triggers.remove_all(chat_id) {
        Turn { state: State::Start, reply: Reply::AllDeleted, persist: true }
    } else {
        Turn { state: State::Start, reply: Reply::NoTriggers, persist: false }
    }
}

} // verus!
