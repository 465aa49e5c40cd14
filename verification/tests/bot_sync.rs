use ctrlc_handler::CtrlCHandler;
use sonicbot_matrix::essentials::on_message::run_command;
use sonicbot_matrix::{
    Action, EventResponse, Instructions, InvitedRoom, JoinedRoom, LeftRoom, MembershipState, MessageMain,
    Rooms, SonicBot, Step, StrippedStateEvent, TimelineEvent,
};

#[test]
fn sync_answers_in_order() {
    let handler = CtrlCHandler::new();
    let mut bot = SonicBot::try_new("https://h".into(), "bot".into(), "x.org".into(), true, "?".into(), "@owner:x.org".into(), handler, 0).unwrap();
    bot.finish_startup();
    let event = EventResponse {
        next_batch: "batch2".into(),
        rooms: Rooms {
            join: vec![("!j:x.org".into(), JoinedRoom { timeline: vec![
                TimelineEvent::TextMessage { sender: "@u:x.org".into(), body: "?help list".into() },
            ] })],
            leave: vec![("!l:x.org".into(), LeftRoom {})],
            invite: vec![("!i:x.org".into(), InvitedRoom { invite_state: vec![Some(StrippedStateEvent {
                state_key: "@bot:x.org".into(),
                sender: "@owner:x.org".into(),
                membership: Some(MembershipState::Invite),
            })] })],
        },
    };
    let steps = bot.generate_instructions(event, 9);
    assert_eq!(steps.len(), 6);
    match &steps[0] { Step::Do(i) => assert_eq!(i, &Instructions::SetSince("batch2".into())), s => panic!("{:?}", s) }
    match &steps[1] { Step::Do(i) => assert_eq!(i, &Instructions::AddRoom("!j:x.org".into())), s => panic!("{:?}", s) }
    match &steps[2] { Step::Do(i) => assert_eq!(i, &Instructions::UpdateLastResponseTime(9)), s => panic!("{:?}", s) }
    match &steps[3] { Step::Run(m, a) => { assert_eq!(*m, MessageMain::Help); assert_eq!(a.prefix, "?"); }, s => panic!("{:?}", s) }
    match &steps[4] { Step::Do(i) => assert_eq!(i, &Instructions::DelRoom("!l:x.org".into())), s => panic!("{:?}", s) }
    match &steps[5] { Step::Do(i) => assert_eq!(i, &Instructions::AddRoom("!i:x.org".into())), s => panic!("{:?}", s) }

    let mut instructions = Vec::new();
    for step in steps {
        match step {
            Step::Do(i) => instructions.push(i),
            Step::Run(m, a) => instructions.extend(run_command(m, a, None).unwrap()),
        }
    }
    assert!(instructions[1..].iter().all(|i| !matches!(i, Instructions::SetSince(_))));
    let (actions, quit) = bot.process_instructions(instructions);
    assert_eq!(quit, None);
    assert_eq!(
        actions,
        vec![
            Action::JoinRoom("!j:x.org".into()),
            Action::SendMessage("!j:x.org".into(), "@u:x.org: ?list\nLists all the commands".into()),
            Action::JoinRoom("!i:x.org".into()),
        ]
    );
    // The next sync starts from the batch token of this one.
    assert_eq!(bot.since(), Some("batch2".to_string()));
    // A left room keeps only the rooms equal to it, so only the new invitation remains.
    assert_eq!(bot.joined_rooms(), vec!["!i:x.org".to_string()]);
    assert_eq!(bot.last_response_time(), 9);
}
