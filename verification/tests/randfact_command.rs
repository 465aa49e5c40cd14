use ctrlc_handler::CtrlCHandler;
use sonicbot_matrix::essentials::on_message::run_command;
use sonicbot_matrix::plugins::on_message::randfact;
use sonicbot_matrix::{Instructions, MessageArgs, MessageInfo, MessageMain};

fn info() -> MessageInfo {
    MessageInfo {
        message: "!randfact".to_string(),
        words: vec!["!randfact".to_string()],
        args: Vec::new(),
        sender: "@dan:example.org".to_string(),
        room_id: "!r:example.org".to_string(),
    }
}

#[test]
fn randfact_reads_the_fact_from_the_page() {
    let handler = CtrlCHandler::new();
    let args = MessageArgs::new(info(), "@o:example.org".to_string(), &handler, true, "!".to_string());
    let page = "<html><td><strong><i>Cats sleep most of the day.</i></strong></td></html>";
    assert_eq!(
        randfact::main(args.clone(), page),
        Some(vec![Instructions::SendMessage(
            "!r:example.org".to_string(),
            "@dan:example.org: Cats sleep most of the day.".to_string()
        )])
    );
    assert_eq!(randfact::main(args.clone(), "<html>no fact</html>"), None);
    assert_eq!(
        run_command(MessageMain::RandFact, args.clone(), Some(page.to_string())),
        Some(vec![Instructions::SendMessage(
            "!r:example.org".to_string(),
            "@dan:example.org: Cats sleep most of the day.".to_string()
        )])
    );
    assert_eq!(run_command(MessageMain::RandFact, args.clone(), None), None);
    assert_eq!(
        run_command(MessageMain::List, args.clone(), None).map(|v| v.len()),
        Some(1)
    );
    assert_eq!(
        randfact::reply(args, "fact".to_string()),
        vec![Instructions::SendMessage("!r:example.org".to_string(), "@dan:example.org: fact".to_string())]
    );
}
