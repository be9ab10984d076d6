//! Squad roster and ready-check tracking, with the update-check decisions
//! and chat bookkeeping around it.

pub mod chat_log;
pub mod ready_check_laws;
pub mod ready_check_table;
pub mod squad_tracker;
pub mod text;
pub mod updates;

use vstd::prelude::*;
use crate::chat_log::ChatLog;
use crate::squad_tracker::{SquadMemberState, SquadTracker};

verus! {

/// Sets up the tracker and the chat log once the host names the user's
/// account; what is already set up stays. Without a name nothing is set up.
/// Returns whether a name was given.
pub fn unofficial_extras_init(
    tracker: &mut Option<SquadTracker>,
    chat_log: &mut Option<ChatLog>,
    self_account_name: Option<&str>,
) -> (r: bool)
    ensures
        r == self_account_name is Some,
        match self_account_name {
            Some(name) => {
                &&& (*old(tracker)) is Some ==> *final(tracker) == *old(tracker)
                &&& (*old(tracker)) is None ==> (*final(tracker) matches Some(t) && t.self_name()
                    == name@ && t@ == Map::<Seq<char>, SquadMemberState>::empty())
                &&& (*old(chat_log)) is Some ==> *final(chat_log) == *old(chat_log)
                &&& (*old(chat_log)) is None ==> (*final(chat_log) matches Some(c) && c@ == Seq::<
                    (chat_log::Channel, Seq<chat_log::ChatMessage>),
                >::empty())
            },
            None => *final(tracker) == *old(tracker) && *final(chat_log) == *old(chat_log),
        },
{
    let name = match self_account_name {
        Some(x) => x,
        None => return false,
    };
    if tracker.is_none() {
        *tracker = Some(SquadTracker::new(name));
    }
    if chat_log.is_none() {
        *chat_log = Some(ChatLog::new());
    }
    true
}

} // verus!
