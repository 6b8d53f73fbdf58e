//! The conversation with a subscriber: where it stands, what arrives, and
//! which command handles it.

use crate::handlers::{
    choose_trigger_to_delete, delete_all, deletes_all, list, names_higher, names_lower, offers,
    receive_price, receive_trigger_type, show_trigger_to_delete, shows, takes_choice, takes_price,
    takes_type,
};
use crate::price::Price;
use crate::store::{well_formed, TriggerStore};
use crate::trigger::Trigger;
use vstd::prelude::*;

verus! {

/// Where the conversation with a subscriber stands.
#[derive(Clone, Copy, PartialEq, Eq, Structural, Debug)]
pub enum State {
    /// No conversation is under way: commands are taken.
    Start,
    /// The subscriber is choosing the direction of a new condition.
    ReceiveTriggerType,
    /// The subscriber is to send the threshold of this condition.
    ReceivePrice { trigger: Trigger },
    /// The subscriber is choosing the condition to delete.
    DeleteTrigger,
}

impl Default for State {
    fn default() -> (state: State)
        ensures
            state == State::Start,
    {
        State::Start
    }
}

/// The commands that a subscriber can send.
#[derive(Clone, Copy, PartialEq, Eq, Structural, Debug)]
pub enum Command {
    /// Display the list of commands.
    Help,
    /// Get the current price.
    GetPrice,
    /// Add a new condition.
    AddTrigger,
    /// Delete a chosen condition.
    DeleteTrigger,
    /// Delete all conditions.
    DeleteAll,
    /// List all conditions.
    ListTriggers,
}

/// What the subscriber is to be told. The chat layer finds the words.
#[derive(Clone, PartialEq, Eq, Debug)]
pub enum Reply {
    /// Nothing.
    Nothing,
    /// The list of commands.
    Help,
    /// The current price, which the chat layer has to ask the cache for.
    CurrentPrice,
    /// Choose the direction of the new condition.
    ChooseTriggerType,
    /// Send the threshold.
    AskPrice,
    /// That was no number: send a number.
    AskNumber,
    /// Choose one of the options offered.
    ChooseOption,
    /// That button is not known.
    UnknownCommand,
    /// The condition was added: a message will come when it fires.
    TriggerAdded(Trigger),
    /// The condition is there already.
    TriggerExists(Trigger),
    /// The subscriber's conditions, in order.
    Triggers(Vec<Trigger>),
    /// There are no conditions.
    NoTriggers,
    /// Choose one of these conditions to delete.
    ChooseTriggerToDelete(Vec<Trigger>),
    /// The conditions at this threshold were deleted.
    TriggerDeleted(Price),
    /// There was no condition at this threshold.
    TriggerNotFound(Price),
    /// All conditions were deleted.
    AllDeleted,
}

/// The result of one step of a conversation.
#[derive(Clone, PartialEq, Eq, Debug)]
pub struct Turn {
    /// Where the conversation stands now.
    pub state: State,
    /// What the subscriber is to be told.
    pub reply: Reply,
    /// Whether the store is to be backed up.
    pub persist: bool,
}

/// What arrives from a subscriber.
#[derive(Clone, Copy, Debug)]
pub enum Update<'a> {
    /// A command.
    Command(Command),
    /// A message that is no command, with the number that it holds, if it
    /// holds one.
    Message { price: Option<Price> },
    /// A button was pressed: its data, and the number that the data holds,
    /// if it holds one.
    Callback { data: Option<&'a str>, price: Option<Price> },
}

/// A step that changes nothing and tells nothing.
pub open spec fn ignores(
    before: Map<i64, Seq<Trigger>>,
    after: Map<i64, Seq<Trigger>>,
    state: State,
    turn: Turn,
) -> bool {
    &&& after == before
    &&& turn.state == state
    &&& turn.reply == Reply::Nothing
    &&& !turn.persist
}

/// The routing of what arrives, by where the conversation stands.
///
/// Commands are taken where no conversation is under way. While a threshold
/// is awaited, every message is taken for the threshold, a command too,
/// which holds no number. A pressed button is taken for a direction while
/// one is being chosen, and for a condition to delete while one is being
/// chosen. Everything else is ignored.
pub open spec fn routed(
    before: Map<i64, Seq<Trigger>>,
    after: Map<i64, Seq<Trigger>>,
    state: State,
    chat_id: i64,
    update: Update,
    turn: Turn,
) -> bool {
    match (state, update) {
        (State::Start, Update::Command(Command::Help)) => {
            &&& after == before
            &&& turn.state == State::Start
            &&& turn.reply == Reply::Help
            &&& !turn.persist
        },
        (State::Start, Update::Command(Command::GetPrice)) => {
            &&& after == before
            &&& turn.state == State::Start
            &&& turn.reply == Reply::CurrentPrice
            &&& !turn.persist
        },
        (State::Start, Update::Command(Command::AddTrigger)) => {
            &&& after == before
            &&& turn.state == State::ReceiveTriggerType
            &&& turn.reply == Reply::ChooseTriggerType
            &&& !turn.persist
        },
        (State::Start, Update::Command(Command::DeleteTrigger)) => after == before && offers(
            before,
            chat_id,
            turn,
        ),
        (State::Start, Update::Command(Command::DeleteAll)) => deletes_all(
            before,
            after,
            chat_id,
            turn,
        ),
        (State::Start, Update::Command(Command::ListTriggers)) => after == before && shows(
            before,
            chat_id,
            turn,
        ),
        (State::ReceivePrice { trigger }, Update::Command(_)) => takes_price(
            before,
            after,
            None,
            trigger,
            chat_id,
            turn,
        ),
        (State::ReceivePrice { trigger }, Update::Message { price }) => takes_price(
            before,
            after,
            price,
            trigger,
            chat_id,
            turn,
        ),
        (State::ReceiveTriggerType, Update::Callback { data, price }) => after == before
            && takes_type(state, data, turn),
        (State::DeleteTrigger, Update::Callback { data, price }) => takes_choice(
            before,
            after,
            state,
            price,
            chat_id,
            turn,
        ),
        _ => ignores(before, after, state, turn),
    }
}

/// Handles what arrives from a subscriber: routes it by where the
/// conversation stands, and lets the command that is found do its work.
pub fn process(state: State, chat_id: i64, update: Update, triggers: &mut TriggerStore) -> (turn:
    Turn)
    ensures
        routed(old(triggers)@, final(triggers)@, state, chat_id, update, turn),
        well_formed(final(triggers)@),
{
    proof {
        use_type_invariant(&*triggers);
    }
    match (state, update) {
        (State::Start, Update::Command(command)) => match command {
            Command::Help => Turn { state: State::Start, reply: Reply::Help, persist: false },
            Command::GetPrice => Turn {
                state: State::Start,
                reply: Reply::CurrentPrice,
                persist: false,
            },
            Command::AddTrigger => crate::handlers::start(),
            Command::DeleteTrigger => show_trigger_to_delete(chat_id, triggers),
            Command::DeleteAll => delete_all(chat_id, triggers),
            Command::ListTriggers => list(chat_id, triggers),
        },
        (State::ReceivePrice { trigger }, Update::Command(_)) => receive_price(
            None,
            trigger,
            chat_id,
            triggers,
        ),
        (State::ReceivePrice { trigger }, Update::Message { price }) => receive_price(
            price,
            trigger,
            chat_id,
            triggers,
        ),
        (State::ReceiveTriggerType, Update::Callback { data, price }) => receive_trigger_type(
            state,
            data,
        ),
        (State::DeleteTrigger, Update::Callback { data, price }) => choose_trigger_to_delete(
            state,
            price,
            chat_id,
            triggers,
        ),
        _ => Turn { state, reply: Reply::Nothing, persist: false },
    }
}

/// Handles a pressed button by its data alone, wherever the conversation
/// stands: a direction opens the request for a threshold, a number deletes
/// the conditions at that threshold, anything else is not known, and a
/// button without data is ignored.
pub fn start(
    state: State,
    data: Option<&str>,
    price: Option<Price>,
    chat_id: i64,
    triggers: &mut TriggerStore,
) -> (turn: Turn)
    ensures
        well_formed(final(triggers)@),
        if data is None {
            ignores(old(triggers)@, final(triggers)@, state, turn)
        } else if names_lower(data) || names_higher(data) {
            final(triggers)@ == old(triggers)@ && takes_type(state, data, turn)
        } else if price is Some {
            takes_choice(old(triggers)@, final(triggers)@, state, price, chat_id, turn)
        } else {
            &&& final(triggers)@ == old(triggers)@
            &&& turn.state == state
            &&& turn.reply == Reply::UnknownCommand
            &&& !turn.persist
        },
{
    proof {
        use_type_invariant(&*triggers);
    }
    if data.is_none() {
        return Turn { state, reply: Reply::Nothing, persist: false };
    }
    let turn = receive_trigger_type(state, data);
    match turn.reply {
        Reply::AskPrice => turn,
        _ => {
            if price.is_some() {
                choose_trigger_to_delete(state, price, chat_id, triggers)
            } else {
                Turn { state, reply: Reply::UnknownCommand, persist: false }
            }
        },
    }
}

} // verus!
