use ctrlc_handler::CtrlCHandler;
use sonicbot_matrix::essentials::on_event::invited;
use sonicbot_matrix::{EventResponse, InvitedRoom, JoinedRoom, MembershipState, Rooms, SonicBot, StrippedStateEvent, TimelineEvent};

fn invite(state_key: &str, sender: &str) -> Option<StrippedStateEvent> {
    Some(StrippedStateEvent {
        state_key: state_key.to_string(),
        sender: sender.to_string(),
        membership: Some(MembershipState::Invite),
    })
}

#[test]
fn unreadable_events_are_refused_where_they_are_read() {
    let handler = CtrlCHandler::new();
    // An unreadable invite event before the owner's invitation is read; one after it is not.
    let before = vec![("!a:x.org".to_string(), InvitedRoom { invite_state: vec![None, invite("@bot:x.org", "@owner:x.org")] })];
    let after = vec![("!a:x.org".to_string(), InvitedRoom { invite_state: vec![invite("@bot:x.org", "@owner:x.org"), None] })];
    let me = "@bot:x.org".to_string();
    let owner = "@owner:x.org".to_string();
    assert!(!invited::invitations_readable(&before, &me, &owner));
    assert!(invited::invitations_readable(&after, &me, &owner));

    let mut bot = SonicBot::new("https://h".into(), "bot".into(), "x.org".into(), true, "!".into(), "@owner:x.org".into(), handler, 0);
    let event = EventResponse {
        next_batch: "b".into(),
        rooms: Rooms {
            join: vec![("!j:x.org".into(), JoinedRoom { timeline: vec![TimelineEvent::Unreadable] })],
            leave: Vec::new(),
            invite: after,
        },
    };
    // Timelines are not read while the bot starts.
    assert!(bot.can_answer(&event, 0));
    bot.finish_startup();
    assert!(!bot.can_answer(&event, 0));
}

