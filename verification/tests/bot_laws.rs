use ctrlc_handler::CtrlCHandler;
use sonicbot_matrix::{Instructions, SonicBot};

#[test]
fn rooms_stay_and_tokens_chain() {
    let handler = CtrlCHandler::new();
    let mut bot = SonicBot::new("https://h".into(), "bot".into(), "x.org".into(), true, "!".into(), "@owner:x.org".into(), handler, 0);
    // The first sync asks for the full state.
    assert_eq!(bot.sync_query(0)[0], ("full_state".to_string(), "true".to_string()));
    bot.process_instructions(vec![
        Instructions::SetSince("t1".into()),
        Instructions::AddRoom("!a:x.org".into()),
        Instructions::DelRoom("!a:x.org".into()),
        Instructions::SendMessage("!a:x.org".into(), "hi".into()),
    ]);
    assert_eq!(bot.joined_rooms(), vec!["!a:x.org".to_string()]);
    assert_eq!(bot.sync_query(0)[0..2].to_vec(), vec![
        ("since".to_string(), "t1".to_string()),
        ("full_state".to_string(), "false".to_string()),
    ]);
    bot.process_instructions(vec![Instructions::SetSince("t2".into()), Instructions::AddRoom("!b:x.org".into())]);
    assert_eq!(bot.sync_query(0)[0..2].to_vec(), vec![
        ("since".to_string(), "t2".to_string()),
        ("full_state".to_string(), "false".to_string()),
    ]);
    // A `DelRoom` that names another room drops the room added before it.
    bot.process_instructions(vec![Instructions::SetSince("t3".into()), Instructions::AddRoom("!c:x.org".into()), Instructions::DelRoom("!b:x.org".into())]);
    assert_eq!(bot.joined_rooms(), vec!["!b:x.org".to_string()]);
}
