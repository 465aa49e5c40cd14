use ctrlc_handler::CtrlCHandler;
use sonicbot_matrix::SonicBot;

#[test]
fn bot_is_made_only_for_valid_user_ids() {
    let handler = CtrlCHandler::new();
    let bot = SonicBot::try_new("https://h//".into(), "bot".into(), "x.org".into(), false, "!".into(), "@owner:x.org".into(), handler.clone(), 3).unwrap();
    assert_eq!(bot.me(), "@bot:x.org");
    assert_eq!(bot.host(), "https://h");
    assert!(!bot.cleanup_on_ctrlc());
    assert_eq!(bot.last_response_time(), 3);
    assert!(SonicBot::try_new("https://h".into(), "bot".into(), "x.org".into(), false, "!".into(), "owner:x.org".into(), handler, 3).is_none());
}
