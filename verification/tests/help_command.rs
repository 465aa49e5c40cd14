use ctrlc_handler::CtrlCHandler;
use sonicbot_matrix::essentials::on_message::help;
use sonicbot_matrix::text::words_of;
use sonicbot_matrix::{Instructions, MessageArgs, MessageInfo};

fn info(message: &str) -> MessageInfo {
    let words = words_of(message);
    let args = if words.is_empty() { Vec::new() } else { words[1..].to_vec() };
    MessageInfo {
        message: message.to_string(),
        words,
        args,
        sender: "@alice:example.org".to_string(),
        room_id: "!room:example.org".to_string(),
    }
}

#[test]
fn help_command_answers() {
    let handler = CtrlCHandler::new();
    let args = MessageArgs::new(info("!help list"), "@owner:example.org".to_string(), &handler, true, "!".to_string());
    assert_eq!(
        help::main(args),
        vec![Instructions::SendMessage(
            "!room:example.org".to_string(),
            "@alice:example.org: !list\nLists all the commands".to_string()
        )]
    );
    let args = MessageArgs::new(info("!help   choose extra"), "@owner:example.org".to_string(), &handler, true, "!".to_string());
    assert_eq!(
        help::main(args),
        vec![Instructions::SendMessage(
            "!room:example.org".to_string(),
            "@alice:example.org: !choose <choices seperated by ' or ' without the quotes>\nChooses a random choice from <choices>".to_string()
        )]
    );
    let args = MessageArgs::new(info("!help nothing"), "@owner:example.org".to_string(), &handler, true, "!".to_string());
    assert_eq!(
        help::main(args),
        vec![Instructions::SendMessage(
            "!room:example.org".to_string(),
            "@alice:example.org: Couldn't find a command named 'nothing'".to_string()
        )]
    );
    let args = MessageArgs::new(info("!help"), "@owner:example.org".to_string(), &handler, true, "!".to_string());
    assert!(help::main(args).is_empty());
}
