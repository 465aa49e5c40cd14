use ctrlc_handler::CtrlCHandler;
use sonicbot_matrix::{EventResponse, JoinedRoom, MessageMain, Rooms, SonicBot, TimelineEvent};

#[test]
fn whitespace_command_cannot_be_answered() {
    let handler = CtrlCHandler::new();
    let mut bot = SonicBot::try_new("https://h".into(), "bot".into(), "x.org".into(), true, " ".into(), "@owner:x.org".into(), handler, 0).unwrap();
    let event = EventResponse {
        next_batch: "b".into(),
        rooms: Rooms {
            join: vec![("!j:x.org".into(), JoinedRoom { timeline: vec![
                TimelineEvent::TextMessage { sender: "@u:x.org".into(), body: "   ".into() },
            ] })],
            leave: Vec::new(),
            invite: Vec::new(),
        },
    };
    assert!(bot.can_answer(&event, 0));
    bot.finish_startup();
    assert!(!bot.can_answer(&event, 0));
    assert_eq!(MessageMain::RandFact.needs_fact_page(), true);
    assert_eq!(MessageMain::Help.needs_fact_page(), false);
}
