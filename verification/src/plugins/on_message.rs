//! The optional commands: `choose` and `randfact`.
pub mod choose_command;
pub mod randfact;

use vstd::prelude::*;
use vstd::string::*;
use crate::{ModuleView, MessageMain, SonicBotMessageModule};

verus! {

/// The optional commands, sorted by name.
pub open spec fn plugin_message_modules() -> Seq<ModuleView> {
    seq![
        ModuleView { name: "choose"@, essential: false, main: MessageMain::Choose, help: choose_command::HELP_TEXT@ },
        ModuleView { name: "randfact"@, essential: false, main: MessageMain::RandFact, help: randfact::HELP_TEXT@ },
    ]
}

/// The optional commands.
pub fn get_plugins_on_message() -> (r: Vec<SonicBotMessageModule>)
    ensures
        r.deep_view() == plugin_message_modules(),
{
    let mut r: Vec<SonicBotMessageModule> = Vec::new();
    r.push(SonicBotMessageModule {
        name: String::from_str("choose"),
        essential: false,
        main: MessageMain::Choose,
        help: choose_command::help(),
    });
    r.push(SonicBotMessageModule {
        name: String::from_str("randfact"),
        essential: false,
        main: MessageMain::RandFact,
        help: randfact::help(),
    });
    assert(r.deep_view() =~= plugin_message_modules());
    r
}

} // verus!
