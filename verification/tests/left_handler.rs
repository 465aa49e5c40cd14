use ctrlc_handler::CtrlCHandler;
use sonicbot_matrix::essentials::on_event::left;
use sonicbot_matrix::{EventArgs, Instructions, InvitedRoom, LeftRoom, RoomTypeData};

#[test]
fn left_handler_forgets_left_rooms() {
    let handler = CtrlCHandler::new();
    let data = RoomTypeData::Left(vec![
        ("!a:example.org".to_string(), LeftRoom {}),
        ("!b:example.org".to_string(), LeftRoom {}),
    ]);
    let args = EventArgs::new(data, false, &handler, true, "@o:x.org".to_string(), "!".to_string(), "@bot:x.org".to_string(), 5);
    assert_eq!(
        left::main(&args),
        vec![
            Instructions::DelRoom("!a:example.org".to_string()),
            Instructions::DelRoom("!b:example.org".to_string())
        ]
    );
    let data = RoomTypeData::Invited(vec![("!c:example.org".to_string(), InvitedRoom { invite_state: Vec::new() })]);
    let args = EventArgs::new(data, false, &handler, true, "@o:x.org".to_string(), "!".to_string(), "@bot:x.org".to_string(), 5);
    assert!(left::main(&args).is_empty());
}
