use ctrlc_handler::CtrlCHandler;
use sonicbot_matrix::essentials::on_event::joined;
use sonicbot_matrix::essentials::on_message::run_command;
use sonicbot_matrix::instruction_generators::handle_rooms;
use sonicbot_matrix::{EventArgs, Instructions, JoinedRoom, MessageMain, RoomTypeData, Step, TimelineEvent};

fn text(sender: &str, body: &str) -> TimelineEvent {
    TimelineEvent::TextMessage { sender: sender.to_string(), body: body.to_string() }
}

fn rooms() -> Vec<(String, JoinedRoom)> {
    vec![
        ("!a:x.org".to_string(), JoinedRoom { timeline: vec![
            text("@alice:x.org", "hello"),
            text("@bot:x.org", "!list"),
            TimelineEvent::Other,
            text("@alice:x.org", "!list please"),
            text("@alice:x.org", "!randfact"),
            text("@alice:x.org", "!unknown"),
        ] }),
        ("!b:x.org".to_string(), JoinedRoom { timeline: Vec::new() }),
    ]
}

#[test]
fn joined_handler_dispatches_commands() {
    let handler = CtrlCHandler::new();
    let args = EventArgs::new(RoomTypeData::Joined(rooms()), false, &handler, true, "@owner:x.org".to_string(), "!".to_string(), "@bot:x.org".to_string(), 77);
    let steps = joined::main(&args);
    assert_eq!(steps.len(), 7);
    match &steps[0] { Step::Do(i) => assert_eq!(i, &Instructions::AddRoom("!a:x.org".to_string())), s => panic!("{:?}", s) }
    match &steps[1] { Step::Do(i) => assert_eq!(i, &Instructions::UpdateLastResponseTime(77)), s => panic!("{:?}", s) }
    match &steps[2] {
        Step::Run(m, a) => {
            assert_eq!(*m, MessageMain::List);
            assert_eq!(a.message_info.message, "!list please");
            assert_eq!(a.message_info.words, vec!["!list", "please"]);
            assert_eq!(a.message_info.args, vec!["please"]);
            assert_eq!(a.message_info.sender, "@alice:x.org");
            assert_eq!(a.message_info.room_id, "!a:x.org");
            assert_eq!(a.owner, "@owner:x.org");
            assert_eq!(a.prefix, "!");
            assert!(a.cleanup_on_ctrlc);
        }
        s => panic!("{:?}", s),
    }
    match &steps[3] { Step::Do(i) => assert_eq!(i, &Instructions::UpdateLastResponseTime(77)), s => panic!("{:?}", s) }
    match &steps[4] { Step::Run(m, _) => assert_eq!(*m, MessageMain::RandFact), s => panic!("{:?}", s) }
    match &steps[5] { Step::Do(i) => assert_eq!(i, &Instructions::UpdateLastResponseTime(77)), s => panic!("{:?}", s) }
    match &steps[6] { Step::Do(i) => assert_eq!(i, &Instructions::AddRoom("!b:x.org".to_string())), s => panic!("{:?}", s) }

    // Running the list command that was dispatched.
    if let Step::Run(m, a) = &steps[2] {
        assert_eq!(
            run_command(*m, a.clone(), None),
            Some(vec![Instructions::SendMessage(
                "!a:x.org".to_string(),
                "@alice:x.org: The following are my commands: help, list, choose, randfact.  For help using them use the help command.".to_string()
            )])
        );
    }

    // While starting, rooms are only kept.
    let args = EventArgs::new(RoomTypeData::Joined(rooms()), true, &handler, true, "@owner:x.org".to_string(), "!".to_string(), "@bot:x.org".to_string(), 77);
    let steps = handle_rooms(&args);
    assert_eq!(steps.len(), 2);
    match &steps[0] { Step::Do(i) => assert_eq!(i, &Instructions::AddRoom("!a:x.org".to_string())), s => panic!("{:?}", s) }
    match &steps[1] { Step::Do(i) => assert_eq!(i, &Instructions::AddRoom("!b:x.org".to_string())), s => panic!("{:?}", s) }

    // After Ctrl-C, the handler stops with a Quit.
    handler.send_quit();
    let args = EventArgs::new(RoomTypeData::Joined(rooms()), true, &handler, false, "@owner:x.org".to_string(), "!".to_string(), "@bot:x.org".to_string(), 77);
    let steps = joined::main(&args);
    assert_eq!(steps.len(), 1);
    match &steps[0] { Step::Do(i) => assert_eq!(i, &Instructions::Quit(false)), s => panic!("{:?}", s) }
}
