//! The `choose` command: picks one of the choices it is given.
use vstd::prelude::*;
use vstd::string::*;
use crate::{Instructions, InstructionView, MessageArgs, MessageArgsView, MessageInfoView};
use crate::bindings::choose_random;
use crate::text::{join_with, join_text, split_on, split_text, strings_from, cat3};

verus! {

/// The help text of `choose`.
pub const HELP_TEXT: &'static str = "choose <choices seperated by ' or ' without the quotes>\nChooses a random choice from <choices>";

/// The choices of a `choose` command: the words after the command, joined by
/// single spaces and cut at each " or ".
pub open spec fn choices_of(m: MessageInfoView) -> Seq<Seq<char>> {
    split_on(join_with(m.words.skip(1), " "@), " or "@)
}

/// The answer naming `choice`.
pub open spec fn choose_reply(a: MessageArgsView, choice: Seq<char>) -> Seq<InstructionView> {
    seq![
        InstructionView::SendMessage(
            a.message_info.room_id,
            a.message_info.sender + ": "@ + choice,
        ),
    ]
}

/// The answer once `choice` has been picked.
pub fn reply(message_args: MessageArgs, choice: String) -> (r: Vec<Instructions>)
    ensures
        r.deep_view() == choose_reply(message_args.deep_view(), choice@),
{
    let message_info = message_args.message_info;
    let mut instructions: Vec<Instructions> = Vec::new();
    let text = cat3(message_info.sender.as_str(), ": ", choice.as_str());
    instructions.push(Instructions::SendMessage(message_info.room_id, text));
    assert(instructions.deep_view() =~= choose_reply(message_args.deep_view(), choice@));
    instructions
}

/// The choices of the command in `message_args`.
pub fn choices(message_args: &MessageArgs) -> (r: Vec<String>)
    requires
        message_args.message_info.words.len() >= 1,
    ensures
        r.deep_view() == choices_of(message_args.message_info.deep_view()),
        r.len() >= 1,
{
    let rest = strings_from(&message_args.message_info.words, 1);
    let msg = join_text(&rest, " ");
    proof {
        reveal_strlit(" or ");
    }
    split_text(msg.as_str(), " or ")
}

/// Answers `choose` with one of the choices, picked at random.
pub fn main(message_args: MessageArgs) -> (r: Vec<Instructions>)
    requires
        message_args.message_info.words.len() >= 1,
    ensures
        exists|c: Seq<char>|
            choices_of(message_args.message_info.deep_view()).contains(c) && r.deep_view()
                == choose_reply(message_args.deep_view(), c),
{
    let choices = choices(&message_args);
    match choose_random(&choices) {
        Some(choice) => {
            let ghost c = choice@;
            reply(message_args, choice)
        },
        None => {
            assert(false);
            Vec::new()
        },
    }
}

/// The help text of `choose`.
pub fn help() -> (r: String)
    ensures
        r@ == HELP_TEXT@,
{
    String::from_str(HELP_TEXT)
}

} // verus!
