use ctrlc_handler::CtrlCHandler;
use sonicbot_matrix::{Action, Instructions, PresenceState, SonicBot};

fn strings(v: &[&str]) -> Vec<String> {
    v.iter().map(|s| s.to_string()).collect()
}

#[test]
fn bot_keeps_its_state() {
    let handler = CtrlCHandler::new();
    // Invalid user IDs are refused.
    assert!(SonicBot::try_new("https://h/".into(), "bad name".into(), "example.org".into(), true, "!".into(), "@o:example.org".into(), handler.clone(), 0).is_none());
    assert!(SonicBot::try_new("https://h/".into(), "bot".into(), "example.org".into(), true, "!".into(), "owner".into(), handler.clone(), 0).is_none());

    let mut bot = SonicBot::new("https://matrix.example.org//".into(), "bot".into(), "example.org".into(), true, "!".into(), "@owner:example.org".into(), handler, 1_000);
    assert_eq!(bot.host(), "https://matrix.example.org");
    assert_eq!(bot.me(), "@bot:example.org");
    assert_eq!(bot.owner(), "@owner:example.org");
    assert_eq!(bot.localpart(), "bot");
    assert!(bot.starting());
    assert_eq!(bot.endpoint("sync"), "https://matrix.example.org/_matrix/client/v3/sync");
    bot.set_auth_token("tok".to_string());
    assert_eq!(bot.authorization(), "Bearer tok");
    assert_eq!(
        bot.sync_query(1_000),
        vec![
            ("full_state".to_string(), "true".to_string()),
            ("set_presence".to_string(), "online".to_string()),
            ("timeout".to_string(), "3000".to_string())
        ]
    );

    // Adding a room twice joins it once.
    let (actions, quit) = bot.process_instructions(vec![
        Instructions::AddRoom("!a:x".into()),
        Instructions::AddRoom("!a:x".into()),
        Instructions::AddRoom("!b:x".into()),
        Instructions::SetSince("s1".into()),
        Instructions::SendMessage("!a:x".into(), "hi".into()),
        Instructions::UpdateLastResponseTime(2_000),
    ]);
    assert_eq!(quit, None);
    assert_eq!(
        actions,
        vec![
            Action::JoinRoom("!a:x".into()),
            Action::JoinRoom("!b:x".into()),
            Action::SendMessage("!a:x".into(), "hi".into())
        ]
    );
    assert_eq!(bot.joined_rooms(), strings(&["!a:x", "!b:x"]));
    assert_eq!(bot.since(), Some("s1".to_string()));
    assert_eq!(bot.last_response_time(), 2_000);
    assert!(!bot.needs_join(&"!a:x".to_string()));
    assert!(bot.needs_join(&"!c:x".to_string()));
    assert_eq!(
        bot.sync_query(2_000),
        vec![
            ("since".to_string(), "s1".to_string()),
            ("full_state".to_string(), "false".to_string()),
            ("set_presence".to_string(), "online".to_string()),
            ("timeout".to_string(), "3000".to_string())
        ]
    );

    // Presence turns to unavailable after more than three minutes.
    assert_eq!(bot.calculate_presence(2_000 + 180_000_000_000), PresenceState::Online);
    assert_eq!(bot.calculate_presence(2_001 + 180_000_000_000), PresenceState::Unavailable);
    assert_eq!(bot.calculate_presence(1_000), PresenceState::Online);

    // DelRoom keeps only the room it names.
    let (actions, quit) = bot.process_instructions(vec![Instructions::DelRoom("!b:x".into())]);
    assert!(actions.is_empty());
    assert_eq!(quit, None);
    assert_eq!(bot.joined_rooms(), strings(&["!b:x"]));

    // A Quit stops the processing.
    let (actions, quit) = bot.process_instructions(vec![
        Instructions::SendMessage("!b:x".into(), "one".into()),
        Instructions::Quit(true),
        Instructions::SetSince("s2".into()),
    ]);
    assert_eq!(quit, Some("QUIT".to_string()));
    assert_eq!(actions, vec![Action::SendMessage("!b:x".into(), "one".into())]);
    assert_eq!(bot.since(), Some("s1".to_string()));

    // A Quit(false) anywhere ends the program before anything else.
    let (actions, quit) = bot.process_instructions(vec![
        Instructions::SetSince("s3".into()),
        Instructions::AddRoom("!z:x".into()),
        Instructions::Quit(false),
    ]);
    assert_eq!(actions, vec![Action::Exit]);
    assert_eq!(quit, None);
    assert_eq!(bot.since(), Some("s1".to_string()));
    assert_eq!(bot.joined_rooms(), strings(&["!b:x"]));

    bot.finish_startup();
    assert!(!bot.starting());
}
