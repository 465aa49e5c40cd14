use ctrlc_handler::CtrlCHandler;
use sonicbot_matrix::essentials::on_event::joined;
use sonicbot_matrix::{EventArgs, Instructions, JoinedRoom, MessageMain, RoomTypeData, Step, TimelineEvent};

#[test]
fn joined_room_follows_the_ctrlc_answer() {
    let handler = CtrlCHandler::new();
    let args = EventArgs::new(RoomTypeData::Joined(Vec::new()), false, &handler, false, "@owner:x.org".to_string(), "!".to_string(), "@bot:x.org".to_string(), 5);
    let room = ("!a:x.org".to_string(), JoinedRoom { timeline: vec![
        TimelineEvent::TextMessage { sender: "@u:x.org".to_string(), body: "!help".to_string() },
    ] });
    let mut steps = Vec::new();
    assert!(!joined::joined_room(&mut steps, &room, true, &args));
    assert_eq!(steps.len(), 3);
    match &steps[0] { Step::Do(i) => assert_eq!(i, &Instructions::AddRoom("!a:x.org".to_string())), s => panic!("{:?}", s) }
    match &steps[1] { Step::Do(i) => assert_eq!(i, &Instructions::UpdateLastResponseTime(5)), s => panic!("{:?}", s) }
    match &steps[2] { Step::Run(m, _) => assert_eq!(*m, MessageMain::Help), s => panic!("{:?}", s) }
    assert!(joined::joined_room(&mut steps, &room, false, &args));
    assert_eq!(steps.len(), 4);
    match &steps[3] { Step::Do(i) => assert_eq!(i, &Instructions::Quit(false)), s => panic!("{:?}", s) }
}
