use ctrlc_handler::CtrlCHandler;
use sonicbot_matrix::essentials::on_message::list;
use sonicbot_matrix::{Instructions, MessageArgs, MessageInfo};

#[test]
fn list_command_names_all_commands() {
    let handler = CtrlCHandler::new();
    let info = MessageInfo {
        message: "!list".to_string(),
        words: vec!["!list".to_string()],
        args: Vec::new(),
        sender: "@bob:example.org".to_string(),
        room_id: "!r:example.org".to_string(),
    };
    let args = MessageArgs::new(info, "@owner:example.org".to_string(), &handler, false, "!".to_string());
    assert_eq!(
        list::main(args),
        vec![Instructions::SendMessage(
            "!r:example.org".to_string(),
            "@bob:example.org: The following are my commands: help, list, choose, randfact.  For help using them use the help command.".to_string()
        )]
    );
}
