use ctrlc_handler::CtrlCHandler;
use sonicbot_matrix::plugins::on_message::choose_command;
use sonicbot_matrix::text::words_of;
use sonicbot_matrix::{Instructions, MessageArgs, MessageInfo};

fn info(message: &str) -> MessageInfo {
    let words = words_of(message);
    let args = words[1..].to_vec();
    MessageInfo {
        message: message.to_string(),
        words,
        args,
        sender: "@carol:example.org".to_string(),
        room_id: "!r:example.org".to_string(),
    }
}

#[test]
fn choose_command_picks_one_choice() {
    let handler = CtrlCHandler::new();
    let args = MessageArgs::new(info("!choose tea  or coffee or hot water"), "@o:example.org".to_string(), &handler, true, "!".to_string());
    assert_eq!(choose_command::choices(&args), vec!["tea", "coffee", "hot water"]);
    for _ in 0..20 {
        let args = args.clone();
        let r = choose_command::main(args);
        assert_eq!(r.len(), 1);
        match &r[0] {
            Instructions::SendMessage(room, text) => {
                assert_eq!(room, "!r:example.org");
                assert!(
                    text == "@carol:example.org: tea"
                        || text == "@carol:example.org: coffee"
                        || text == "@carol:example.org: hot water"
                );
            }
            other => panic!("unexpected {:?}", other),
        }
    }
    let args = MessageArgs::new(info("!choose"), "@o:example.org".to_string(), &handler, true, "!".to_string());
    assert_eq!(choose_command::choices(&args), vec![""]);
    assert_eq!(
        choose_command::main(args),
        vec![Instructions::SendMessage("!r:example.org".to_string(), "@carol:example.org: ".to_string())]
    );
    let args = MessageArgs::new(info("!choose x"), "@o:example.org".to_string(), &handler, true, "!".to_string());
    assert_eq!(
        choose_command::reply(args, "y".to_string()),
        vec![Instructions::SendMessage("!r:example.org".to_string(), "@carol:example.org: y".to_string())]
    );
}
