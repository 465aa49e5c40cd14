//! The `help` command: tells what a command does.
use vstd::prelude::*;
use vstd::string::*;
use crate::{Instructions, InstructionView, MessageArgs, MessageArgsView, ModuleView, SonicBotMessageModule};
use crate::essentials::on_message::{all_message_modules, essential_message_modules, get_essentials_on_message};
use crate::plugins::on_message::{plugin_message_modules, get_plugins_on_message};
use crate::text::{words, words_of, cat, cat3};

verus! {

/// The help text of `help`.
pub const HELP_TEXT: &'static str = "help <command_name>\nDisplays information on what a command does and how to use it";

/// The help text of the first module named `name`.
pub open spec fn help_lookup(mods: Seq<ModuleView>, name: Seq<char>) -> Option<Seq<char>>
    decreases mods.len(),
{
    if mods.len() == 0 {
        None
    } else if mods[0].name == name {
        Some(mods[0].help)
    } else {
        help_lookup(mods.drop_first(), name)
    }
}

pub proof fn lemma_help_lookup_append(a: Seq<ModuleView>, b: Seq<ModuleView>, name: Seq<char>)
    ensures
        help_lookup(a + b, name) == match help_lookup(a, name) {
            Some(h) => Some(h),
            None => help_lookup(b, name),
        },
    decreases a.len(),
{
    if a.len() > 0 {
        assert((a + b).drop_first() == a.drop_first() + b);
        lemma_help_lookup_append(a.drop_first(), b, name);
    } else {
        assert(a + b == b);
    }
}

/// `help_lookup` finds a text exactly for the names of the modules.
pub proof fn lemma_help_lookup_found(mods: Seq<ModuleView>, name: Seq<char>)
    ensures
        help_lookup(mods, name) is Some <==> mods.map_values(|m: ModuleView| m.name).contains(name),
        help_lookup(mods, name) matches Some(h) ==> exists|i: int|
            0 <= i < mods.len() && mods[i].name == name && mods[i].help == h,
    decreases mods.len(),
{
    let names = mods.map_values(|m: ModuleView| m.name);
    if mods.len() > 0 {
        let rest = mods.drop_first();
        lemma_help_lookup_found(rest, name);
        let rnames = rest.map_values(|m: ModuleView| m.name);
        assert(names =~= seq![mods[0].name] + rnames);
        if mods[0].name == name {
            assert(names[0] == name);
        } else {
            if rnames.contains(name) {
                let j = choose|j: int| 0 <= j < rnames.len() && rnames[j] == name;
                assert(names[j + 1] == name);
            }
            if names.contains(name) {
                let j = choose|j: int| 0 <= j < names.len() && names[j] == name;
                assert(j > 0);
                assert(rnames[j - 1] == name);
            }
            if help_lookup(mods, name) is Some {
                let i = choose|i: int|
                    0 <= i < rest.len() && rest[i].name == name && rest[i].help == help_lookup(
                        rest,
                        name,
                    )->0;
                assert(mods[i + 1] == rest[i]);
            }
        }
    }
}

/// Law: `help` knows a text for exactly the commands that `list` names.
pub proof fn lemma_listed_commands_have_help(name: Seq<char>)
    ensures
        help_lookup(all_message_modules(), name) is Some <==> crate::essentials::on_message::command_names().contains(name),
{
    lemma_help_lookup_found(all_message_modules(), name);
}

/// The answer to `help <command>`: the command's help text, or that there is
/// no such command; nothing when no command is named.
pub open spec fn help_reply(a: MessageArgsView) -> Seq<InstructionView> {
    let ws = words(a.message_info.message);
    let room = a.message_info.room_id;
    let sender = a.message_info.sender;
    if ws.len() >= 2 {
        match help_lookup(all_message_modules(), ws[1]) {
            Some(h) => seq![InstructionView::SendMessage(room, sender + ": "@ + a.prefix + h)],
            None => seq![
                InstructionView::SendMessage(
                    room,
                    sender + ": Couldn't find a command named '"@ + ws[1] + "'"@,
                ),
            ],
        }
    } else {
        seq![]
    }
}

/// Answers `help`.
pub fn main(message_args: MessageArgs) -> (r: Vec<Instructions>)
    ensures
        r.deep_view() == help_reply(message_args.deep_view()),
{
    let ghost a = message_args.deep_view();
    let message_info = message_args.message_info;
    let mut instructions: Vec<Instructions> = Vec::new();
    let words: Vec<String> = words_of(message_info.message.as_str());
    if words.len() >= 2 {
        let command_name = words[1].clone();
        assert(command_name@ == words.deep_view()[1]);
        if let Some(help_string) = get_help_for_command(command_name.clone()) {
            let head = cat3(message_info.sender.as_str(), ": ", message_args.prefix.as_str());
            let text = cat(head.as_str(), help_string.as_str());
            instructions.push(Instructions::SendMessage(message_info.room_id, text));
        } else {
            let head = cat(message_info.sender.as_str(), ": Couldn't find a command named '");
            let text = cat3(head.as_str(), command_name.as_str(), "'");
            instructions.push(Instructions::SendMessage(message_info.room_id, text));
        }
    }
    assert(instructions.deep_view() =~= help_reply(a));
    instructions
}

/// The help text of the first module of `mods` named `name`.
fn find_help(mods: &Vec<SonicBotMessageModule>, name: &String) -> (r: Option<String>)
    ensures
        r.deep_view() == help_lookup(mods.deep_view(), name@),
{
    let mut i: usize = 0;
    assert(mods.deep_view().skip(0) =~= mods.deep_view());
    while i < mods.len()
        invariant
            i <= mods.len(),
            help_lookup(mods.deep_view(), name@) == help_lookup(mods.deep_view().skip(i as int), name@),
        decreases mods.len() - i,
    {
        assert(mods.deep_view().skip(i as int).drop_first() == mods.deep_view().skip(i + 1));
        if mods[i].name == *name {
            return Some(mods[i].help.clone());
        }
        i = i + 1;
    }
    None
}

/// The help text of the command named `command_name`: the basic commands are
/// searched first, then the plugins.
pub fn get_help_for_command(command_name: String) -> (r: Option<String>)
    ensures
        r.deep_view() == help_lookup(all_message_modules(), command_name@),
{
    proof {
        lemma_help_lookup_append(essential_message_modules(), plugin_message_modules(), command_name@);
    }
    match find_help(&get_essentials_on_message(), &command_name) {
        Some(h) => Some(h),
        None => find_help(&get_plugins_on_message(), &command_name),
    }
}

/// The help text of `help`.
pub fn help() -> (r: String)
    ensures
        r@ == HELP_TEXT@,
{
    String::from_str(HELP_TEXT)
}

} // verus!
