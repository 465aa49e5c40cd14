//! The `randfact` command: a random fact from a web page.
use vstd::prelude::*;
use vstd::string::*;
use crate::{Instructions, InstructionView, MessageArgs, MessageArgsView};
use crate::bindings::{first_group, first_group_of};
use crate::text::cat3;

verus! {

/// The help text of `randfact`.
pub const HELP_TEXT: &'static str = "randfact\n Returns a random fact from http://randomfunfacts.com/";

/// The page the facts come from.
pub const FACT_SOURCE: &'static str = "http://randomfunfacts.com/";

/// Where the fact stands in that page: the text of the first capture group.
pub const FACT_PATTERN: &'static str = "<strong><i>(.*)</i></strong>";

/// The answer naming `fact`.
pub open spec fn fact_reply(a: MessageArgsView, fact: Seq<char>) -> Seq<InstructionView> {
    seq![
        InstructionView::SendMessage(
            a.message_info.room_id,
            a.message_info.sender + ": "@ + fact,
        ),
    ]
}

/// The answer once the fact has been found.
pub fn reply(message_args: MessageArgs, fact: String) -> (r: Vec<Instructions>)
    ensures
        r.deep_view() == fact_reply(message_args.deep_view(), fact@),
{
    let message_info = message_args.message_info;
    let mut instructions: Vec<Instructions> = Vec::new();
    let text = cat3(message_info.sender.as_str(), ": ", fact.as_str());
    instructions.push(Instructions::SendMessage(message_info.room_id, text));
    assert(instructions.deep_view() =~= fact_reply(message_args.deep_view(), fact@));
    instructions
}

/// Answers `randfact` from the fact page `page`; `None` when the page holds no
/// fact.
pub fn main(message_args: MessageArgs, page: &str) -> (r: Option<Vec<Instructions>>)
    ensures
        match first_group_of(FACT_PATTERN@, page@) {
            Some(f) => r matches Some(v) && v.deep_view() == fact_reply(message_args.deep_view(), f),
            None => r is None,
        },
{
    match first_group(FACT_PATTERN, page) {
        Some(fact) => Some(reply(message_args, fact)),
        None => None,
    }
}

/// The help text of `randfact`.
pub fn help() -> (r: String)
    ensures
        r@ == HELP_TEXT@,
{
    String::from_str(HELP_TEXT)
}

} // verus!
