use ctrlc_handler::CtrlCHandler;
use sonicbot_matrix::{Instructions, SonicBot};

#[test]
fn directory_answers_are_checked_and_joined_once() {
    let handler = CtrlCHandler::new();
    let mut bot = SonicBot::new("https://h".into(), "bot".into(), "x.org".into(), true, "!".into(), "@owner:x.org".into(), handler, 0);
    // Not a room ID: no sigil, no server name, or a user ID.
    assert_eq!(bot.room_to_join("abc:x.org"), Err(()));
    assert_eq!(bot.room_to_join("!abc"), Err(()));
    assert_eq!(bot.room_to_join("@abc:x.org"), Err(()));
    assert_eq!(bot.room_to_join("!abc:x.org"), Ok(Some("!abc:x.org".to_string())));
    assert_eq!(bot.room_to_join("!:x.org"), Ok(Some("!:x.org".to_string())));
    bot.process_instructions(vec![Instructions::AddRoom("!abc:x.org".into())]);
    assert_eq!(bot.room_to_join("!abc:x.org"), Ok(None));

    // The run goes on while processing did not end it and no Ctrl-C is seen.
    assert!(SonicBot::keeps_running(&None, true));
    assert!(!SonicBot::keeps_running(&None, false));
    assert!(!SonicBot::keeps_running(&Some("QUIT".to_string()), true));
    assert!(!bot.still_running(&Some("QUIT".to_string())));
    assert!(bot.still_running(&None));
    bot.ctrlc_handler().send_quit();
    assert!(!bot.still_running(&None));
    assert!(bot.still_running(&None));
}
