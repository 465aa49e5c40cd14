use ctrlc_handler::CtrlCHandler;
use sonicbot_matrix::essentials::on_event::invited;
use sonicbot_matrix::{EventArgs, Instructions, InvitedRoom, MembershipState, RoomTypeData, StrippedStateEvent};

fn invite(state_key: &str, sender: &str) -> Option<StrippedStateEvent> {
    Some(StrippedStateEvent {
        state_key: state_key.to_string(),
        sender: sender.to_string(),
        membership: Some(MembershipState::Invite),
    })
}

#[test]
fn invited_skips_the_room_where_ctrlc_is_seen() {
    let handler = CtrlCHandler::new();
    let rooms = vec![
        ("!a:x.org".to_string(), InvitedRoom { invite_state: vec![invite("@bot:x.org", "@owner:x.org")] }),
        ("!b:x.org".to_string(), InvitedRoom { invite_state: vec![invite("@bot:x.org", "@owner:x.org")] }),
    ];
    let args = EventArgs::new(RoomTypeData::Invited(rooms), false, &handler, true, "@owner:x.org".to_string(), "!".to_string(), "@bot:x.org".to_string(), 1);
    handler.send_quit();
    // The one Ctrl-C is seen as the first room comes up; the second is answered.
    assert_eq!(invited::main(&args), vec![Instructions::AddRoom("!b:x.org".to_string())]);
    assert_eq!(
        invited::main(&args),
        vec![Instructions::AddRoom("!a:x.org".to_string()), Instructions::AddRoom("!b:x.org".to_string())]
    );
}
