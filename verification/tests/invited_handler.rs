use ctrlc_handler::CtrlCHandler;
use sonicbot_matrix::essentials::on_event::invited;
use sonicbot_matrix::instruction_generators::handle_rooms;
use sonicbot_matrix::{
    EventArgs, Instructions, InvitedRoom, MembershipState, RoomTypeData, Step, StrippedStateEvent,
};

fn event(state_key: &str, sender: &str, membership: Option<MembershipState>) -> Option<StrippedStateEvent> {
    Some(StrippedStateEvent { state_key: state_key.to_string(), sender: sender.to_string(), membership })
}

#[test]
fn invited_handler_accepts_only_the_owner() {
    let handler = CtrlCHandler::new();
    let me = "@bot:x.org";
    let owner = "@owner:x.org";
    let rooms = vec![
        // Invited by the owner.
        ("!a:x.org".to_string(), InvitedRoom { invite_state: vec![
            event("", owner, None),
            event(me, owner, Some(MembershipState::Invite)),
        ] }),
        // Invited by someone else.
        ("!b:x.org".to_string(), InvitedRoom { invite_state: vec![event(me, "@eve:x.org", Some(MembershipState::Invite))] }),
        // The owner's event is about someone else.
        ("!c:x.org".to_string(), InvitedRoom { invite_state: vec![event("@other:x.org", owner, Some(MembershipState::Invite))] }),
        // The owner's event does not invite.
        ("!d:x.org".to_string(), InvitedRoom { invite_state: vec![event(me, owner, Some(MembershipState::Join))] }),
        ("!e:x.org".to_string(), InvitedRoom { invite_state: Vec::new() }),
    ];
    let args = EventArgs::new(RoomTypeData::Invited(rooms), false, &handler, true, owner.to_string(), "!".to_string(), me.to_string(), 1);
    assert_eq!(invited::main(&args), vec![Instructions::AddRoom("!a:x.org".to_string())]);
    let steps = handle_rooms(&args);
    assert_eq!(steps.len(), 1);
    match &steps[0] {
        Step::Do(i) => assert_eq!(i, &Instructions::AddRoom("!a:x.org".to_string())),
        other => panic!("unexpected {:?}", other),
    }
}
