use ctrlc_handler::CtrlCHandler;
use sonicbot_matrix::instruction_generators::ids_of;
use sonicbot_matrix::names::ids_in_order;
use sonicbot_matrix::{EventResponse, JoinedRoom, Rooms, SonicBot};

#[test]
fn rooms_must_come_in_ascending_order() {
    let handler = CtrlCHandler::new();
    let bot = SonicBot::new("https://h".into(), "bot".into(), "x.org".into(), true, "!".into(), "@owner:x.org".into(), handler, 0);
    let room = || JoinedRoom { timeline: Vec::new() };
    let ordered = vec![("!a:x.org".to_string(), room()), ("!b:x.org".to_string(), room())];
    let unordered = vec![("!b:x.org".to_string(), room()), ("!a:x.org".to_string(), room())];
    let twice = vec![("!a:x.org".to_string(), room()), ("!a:x.org".to_string(), room())];
    assert_eq!(ids_of(&ordered), vec!["!a:x.org".to_string(), "!b:x.org".to_string()]);
    assert!(ids_in_order(&ids_of(&ordered)));
    assert!(!ids_in_order(&ids_of(&unordered)));
    assert!(!ids_in_order(&ids_of(&twice)));
    assert!(ids_in_order(&vec!["a".to_string(), "ab".to_string(), "b".to_string()]));
    let sync = |join| EventResponse { next_batch: "b".into(), rooms: Rooms { join, leave: Vec::new(), invite: Vec::new() } };
    assert!(bot.can_answer(&sync(ordered), 0));
    assert!(!bot.can_answer(&sync(unordered), 0));
}

