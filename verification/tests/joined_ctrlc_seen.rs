use ctrlc_handler::CtrlCHandler;
use sonicbot_matrix::essentials::on_event::joined;
use sonicbot_matrix::{EventArgs, Instructions, JoinedRoom, RoomTypeData, Step};

#[test]
fn joined_quits_at_the_room_where_ctrlc_is_seen() {
    let handler = CtrlCHandler::new();
    let rooms = vec![
        ("!a:x.org".to_string(), JoinedRoom { timeline: Vec::new() }),
        ("!b:x.org".to_string(), JoinedRoom { timeline: Vec::new() }),
    ];
    let args = EventArgs::new(RoomTypeData::Joined(rooms), true, &handler, true, "@owner:x.org".to_string(), "!".to_string(), "@bot:x.org".to_string(), 1);
    let steps = joined::main(&args);
    assert_eq!(steps.len(), 2);
    handler.send_quit();
    let steps = joined::main(&args);
    assert_eq!(steps.len(), 1);
    match &steps[0] { Step::Do(i) => assert_eq!(i, &Instructions::Quit(true)), s => panic!("{:?}", s) }
}
