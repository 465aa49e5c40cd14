//! The `list` command: names every command.
use vstd::prelude::*;
use vstd::string::*;
use crate::{Instructions, InstructionView, MessageArgs, MessageArgsView, SonicBotMessageModule};
use crate::essentials::on_message::{all_message_modules, command_names, get_essentials_on_message};
use crate::plugins::on_message::get_plugins_on_message;
use crate::text::{join_with, join_text, cat3};

verus! {

/// The help text of `list`.
pub const HELP_TEXT: &'static str = "list\nLists all the commands";

/// The answer to `list`: the sender, then every command name.
pub open spec fn list_reply(a: MessageArgsView) -> Seq<InstructionView> {
    seq![
        InstructionView::SendMessage(
            a.message_info.room_id,
            a.message_info.sender + ": The following are my commands: "@ + join_with(
                command_names(),
                ", "@,
            ) + ".  For help using them use the help command."@,
        ),
    ]
}

/// Answers `list`.
pub fn main(message_args: MessageArgs) -> (r: Vec<Instructions>)
    ensures
        r.deep_view() == list_reply(message_args.deep_view()),
{
    let message_info = message_args.message_info;
    let mut instructions: Vec<Instructions> = Vec::new();
    let names = join_text(&get_command_list(), ", ");
    let head = cat3(message_info.sender.as_str(), ": The following are my commands: ", names.as_str());
    let text = cat3(head.as_str(), ".  For help using them use the help command.", "");
    proof {
        reveal_strlit("");
        assert(text@ =~= head@ + ".  For help using them use the help command."@);
    }
    instructions.push(Instructions::SendMessage(message_info.room_id, text));
    assert(instructions.deep_view() =~= list_reply(message_args.deep_view()));
    instructions
}

/// The names of the modules, in order.
fn push_names(list: &mut Vec<String>, modules: Vec<SonicBotMessageModule>)
    ensures
        final(list).deep_view() == old(list).deep_view() + modules.deep_view().map_values(
            |m: crate::ModuleView| m.name,
        ),
{
    let ghost start = list.deep_view();
    let ghost all = modules.deep_view();
    let mut modules = modules;
    let ghost mut k: int = 0;
    while modules.len() > 0
        invariant
            0 <= k,
            k + modules.len() == all.len(),
            modules.deep_view() == all.skip(k),
            list.deep_view() == start + all.take(k).map_values(|m: crate::ModuleView| m.name),
        decreases modules.len(),
    {
        let ghost before = modules.deep_view();
        let m = modules.remove(0);
        let ghost mv = m.deep_view();
        let ghost lbefore = list.deep_view();
        list.push(m.name);
        proof {
            assert(list.deep_view() =~= lbefore.push(mv.name));
            assert(modules.deep_view() =~= before.drop_first());
            assert(before.drop_first() =~= all.skip(k + 1));
            assert(mv == before[0]);
            assert(all.take(k + 1) == all.take(k).push(all[k]));
            assert(all.take(k + 1).map_values(|m: crate::ModuleView| m.name) =~= all.take(
                k,
            ).map_values(|m: crate::ModuleView| m.name).push(all[k].name));
            k = k + 1;
        }
    }
    assert(all.take(k) == all);
}

/// The names of all commands: the basic ones, then the plugins.
pub fn get_command_list() -> (r: Vec<String>)
    ensures
        r.deep_view() == command_names(),
{
    let mut command_list: Vec<String> = Vec::new();
    push_names(&mut command_list, get_essentials_on_message());
    push_names(&mut command_list, get_plugins_on_message());
    assert(command_list.deep_view() =~= command_names());
    command_list
}

/// The help text of `list`.
pub fn help() -> (r: String)
    ensures
        r@ == HELP_TEXT@,
{
    String::from_str(HELP_TEXT)
}

} // verus!
