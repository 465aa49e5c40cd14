use ctrlc_handler::CtrlCHandler;
use sonicbot_matrix::essentials::on_message::run_steps;
use sonicbot_matrix::{Instructions, MessageArgs, MessageInfo, MessageMain, Step};

fn info(message: &str) -> MessageInfo {
    let words: Vec<String> = message.split_whitespace().map(|w| w.to_string()).collect();
    MessageInfo {
        message: message.to_string(),
        args: words[1..].to_vec(),
        words,
        sender: "@alice:x.org".to_string(),
        room_id: "!a:x.org".to_string(),
    }
}

#[test]
fn steps_run_in_order_and_fail_without_a_fact() {
    let handler = CtrlCHandler::new();
    let args = |m: &str| MessageArgs::new(info(m), "@owner:x.org".to_string(), &handler, true, "!".to_string());
    let steps = vec![
        Step::Do(Instructions::SetSince("t".to_string())),
        Step::Do(Instructions::UpdateLastResponseTime(4)),
        Step::Run(MessageMain::List, args("!list")),
        Step::Do(Instructions::AddRoom("!b:x.org".to_string())),
    ];
    assert_eq!(
        run_steps(&steps, &vec![None, None, None, None]),
        Some(vec![
            Instructions::SetSince("t".to_string()),
            Instructions::UpdateLastResponseTime(4),
            Instructions::SendMessage(
                "!a:x.org".to_string(),
                "@alice:x.org: The following are my commands: help, list, choose, randfact.  For help using them use the help command.".to_string()
            ),
            Instructions::AddRoom("!b:x.org".to_string()),
        ])
    );
    // `randfact` with no page, or with a page without a fact, answers nothing.
    let fact = vec![Step::Do(Instructions::SetSince("t".to_string())), Step::Run(MessageMain::RandFact, args("!randfact"))];
    assert_eq!(run_steps(&fact, &vec![None, None]), None);
    assert_eq!(run_steps(&fact, &vec![None, Some("<html></html>".to_string())]), None);
    assert_eq!(run_steps(&Vec::new(), &Vec::new()), Some(Vec::new()));
}
