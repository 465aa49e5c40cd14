//! The handlers that run on every sync: `invited`, `joined` and `left`.
pub mod invited;
pub mod joined;
pub mod left;

use vstd::prelude::*;
use vstd::string::*;
use crate::{EventMain, EventModuleView, SonicBotEventModule};

verus! {

/// The event handlers, sorted by name.
pub open spec fn essential_event_modules() -> Seq<EventModuleView> {
    seq![
        EventModuleView { name: "invited"@, essential: true, main: EventMain::Invited, help: invited::HELP_TEXT@ },
        EventModuleView { name: "joined"@, essential: true, main: EventMain::Joined, help: joined::HELP_TEXT@ },
        EventModuleView { name: "left"@, essential: true, main: EventMain::Left, help: left::HELP_TEXT@ },
    ]
}

/// The event handlers.
pub fn get_essentials_on_event() -> (r: Vec<SonicBotEventModule>)
    ensures
        r.deep_view() == essential_event_modules(),
{
    let mut r: Vec<SonicBotEventModule> = Vec::new();
    r.push(SonicBotEventModule::new(String::from_str("invited"), true, EventMain::Invited, invited::help()));
    r.push(SonicBotEventModule::new(String::from_str("joined"), true, EventMain::Joined, joined::help()));
    r.push(SonicBotEventModule::new(String::from_str("left"), true, EventMain::Left, left::help()));
    assert(r.deep_view() =~= essential_event_modules());
    r
}

} // verus!
