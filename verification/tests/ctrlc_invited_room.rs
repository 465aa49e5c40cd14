use ctrlc_handler::CtrlCHandler;
use sonicbot_matrix::essentials::on_event::invited;
use sonicbot_matrix::{EventArgs, Instructions, InvitedRoom, MembershipState, RoomTypeData, StrippedStateEvent};

fn invite(state_key: &str, sender: &str) -> Option<StrippedStateEvent> {
    Some(StrippedStateEvent {
        state_key: state_key.to_string(),
        sender: sender.to_string(),
        membership: Some(MembershipState::Invite),
    })
}

#[test]
fn invited_room_follows_the_ctrlc_answer() {
    let handler = CtrlCHandler::new();
    let args = EventArgs::new(RoomTypeData::Invited(Vec::new()), false, &handler, true, "@owner:x.org".to_string(), "!".to_string(), "@bot:x.org".to_string(), 1);
    let room = ("!a:x.org".to_string(), InvitedRoom { invite_state: vec![invite("@bot:x.org", "@owner:x.org")] });
    assert_eq!(invited::invited_room(&room, true, &args), Some(Instructions::AddRoom("!a:x.org".to_string())));
    assert_eq!(invited::invited_room(&room, false, &args), None);
    let stranger = ("!b:x.org".to_string(), InvitedRoom { invite_state: vec![invite("@bot:x.org", "@eve:x.org")] });
    assert_eq!(invited::invited_room(&stranger, true, &args), None);
    // A room that cannot be read is never looked at once Ctrl-C was seen.
    let unreadable = ("!c:x.org".to_string(), InvitedRoom { invite_state: vec![None] });
    assert_eq!(invited::invited_room(&unreadable, false, &args), None);
}
