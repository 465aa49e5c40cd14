//! Runs the event handlers on the room updates of a sync.
use vstd::prelude::*;
use crate::{
    EventArgs, EventArgsView, EventMain, JoinedRoom, InvitedRoom, LeftRoom, Step, StepView,
    append_as_steps, append_steps, do_steps,
};
use crate::essentials::on_event::{essential_event_modules, get_essentials_on_event, invited, joined, left};
use crate::essentials::on_event::invited::{invited_instrs, invited_outcome};
use crate::essentials::on_event::joined::{
    joined_outcome, joined_answers, first_stop, room_answer, step_fits, lemma_joined_answers_fit, joined_ready, rooms_steps, room_steps, timeline_steps, event_steps, dispatch,
};
use crate::{InstructionView, ModuleView, MessageArgsView, TimelineEventView, StrippedStateEventView};
use crate::essentials::on_event::invited::invites_readable;
use crate::names::strictly_ascending;
use crate::essentials::on_event::left::{left_instrs, left_outcome};

verus! {

/// The room updates of one kind, each with its room ID.
#[derive(Debug, Clone)]
pub enum RoomTypeData {
    Joined(Vec<(String, JoinedRoom)>),
    Invited(Vec<(String, InvitedRoom)>),
    Left(Vec<(String, LeftRoom)>),
}

pub enum RoomTypeDataView {
    Joined(Seq<(Seq<char>, Seq<crate::TimelineEventView>)>),
    Invited(Seq<(Seq<char>, Seq<Option<crate::StrippedStateEventView>>)>),
    Left(Seq<(Seq<char>, ())>),
}

impl DeepView for RoomTypeData {
    type V = RoomTypeDataView;

    open spec fn deep_view(&self) -> RoomTypeDataView {
        match self {
            RoomTypeData::Joined(r) => RoomTypeDataView::Joined(r.deep_view()),
            RoomTypeData::Invited(r) => RoomTypeDataView::Invited(r.deep_view()),
            RoomTypeData::Left(r) => RoomTypeDataView::Left(r.deep_view()),
        }
    }
}

/// The IDs of the rooms, in order.
pub open spec fn room_ids<T>(rooms: Seq<(Seq<char>, T)>) -> Seq<Seq<char>> {
    rooms.map_values(|r: (Seq<char>, T)| r.0)
}

/// The IDs of the rooms, in order.
pub fn ids_of<T: DeepView>(rooms: &Vec<(String, T)>) -> (r: Vec<String>)
    ensures
        r.deep_view() == room_ids(rooms.deep_view()),
{
    let ghost all = rooms.deep_view();
    let mut r: Vec<String> = Vec::new();
    let mut i: usize = 0;
    while i < rooms.len()
        invariant
            i <= rooms.len(),
            all == rooms.deep_view(),
            r.deep_view() == room_ids(all.take(i as int)),
        decreases rooms.len() - i,
    {
        let ghost before = r.deep_view();
        r.push(rooms[i].0.clone());
        proof {
            assert(r.deep_view() =~= before.push(all[i as int].0));
            assert(room_ids(all.take(i + 1)) =~= room_ids(all.take(i as int)).push(all[i as int].0));
        }
        i = i + 1;
    }
    assert(all.take(rooms.len() as int) == all);
    r
}

/// What the handlers need of their input: the rooms come in strictly
/// ascending order of their IDs (as the keys of a map do), and everything the
/// handlers read can be read.
pub open spec fn handlers_ready(a: EventArgsView) -> bool {
    match a.room_data {
        RoomTypeDataView::Joined(rooms) => strictly_ascending(room_ids(rooms)) && joined_ready(a),
        RoomTypeDataView::Invited(rooms) => strictly_ascending(room_ids(rooms)) && invites_readable(
            rooms,
            a.me,
            a.owner,
        ),
        RoomTypeDataView::Left(rooms) => strictly_ascending(room_ids(rooms)),
    }
}

/// What the handlers may answer to room updates: for invitations, a join of
/// each room the owner invited the bot to (as far as Ctrl-C let them through);
/// for joined rooms, what `joined` answers; for left rooms, a `DelRoom` each.
pub open spec fn rooms_outcome(r: Seq<StepView>, a: EventArgsView) -> bool {
    match a.room_data {
        RoomTypeDataView::Invited(rooms) => exists|keep: Seq<bool>|
            keep.len() == rooms.len() && r == do_steps(invited_instrs(rooms, keep, a.me, a.owner)),
        RoomTypeDataView::Joined(_) => joined_outcome(r, a),
        RoomTypeDataView::Left(rooms) => r == do_steps(left_instrs(rooms)),
    }
}

/// What the handlers have answered once the first `n` of them have run.
pub open spec fn handled_after(r: Seq<StepView>, n: int, a: EventArgsView) -> bool {
    match a.room_data {
        RoomTypeDataView::Invited(_) => if n >= 1 { rooms_outcome(r, a) } else { r == Seq::<StepView>::empty() },
        RoomTypeDataView::Joined(_) => if n >= 2 { rooms_outcome(r, a) } else { r == Seq::<StepView>::empty() },
        RoomTypeDataView::Left(_) => if n >= 3 { rooms_outcome(r, a) } else { r == Seq::<StepView>::empty() },
    }
}

/// Runs every event handler, in the order of their names, on these room
/// updates.
pub fn handle_rooms<'a>(event_args: &EventArgs<'a>) -> (r: Vec<Step<'a>>)
    requires
        handlers_ready(event_args.deep_view()),
    ensures
        rooms_outcome(r.deep_view(), event_args.deep_view()),
{
    let ghost a = event_args.deep_view();
    let mut instructions: Vec<Step<'a>> = Vec::new();
    let eoe = get_essentials_on_event();
    let ghost mods = essential_event_modules();
    assert(instructions.deep_view() =~= Seq::<StepView>::empty());
    let mut i: usize = 0;
    while i < eoe.len()
        invariant
            i <= eoe.len(),
            eoe.deep_view() == mods,
            mods == essential_event_modules(),
            mods.len() == 3,
            mods[0].main == EventMain::Invited,
            mods[1].main == EventMain::Joined,
            mods[2].main == EventMain::Left,
            a == event_args.deep_view(),
            handlers_ready(a),
            handled_after(instructions.deep_view(), i as int, a),
        decreases eoe.len() - i,
    {
        let ghost before = instructions.deep_view();
        assert(eoe.deep_view()[i as int] == eoe[i as int].deep_view());
        match eoe[i].main {
            EventMain::Invited => {
                let v = invited::main(event_args);
                proof {
                    assert(invited_outcome(v.deep_view(), a.room_data, a.me, a.owner));
                }
                append_as_steps(&mut instructions, v);
                proof {
                    assert(i == 0);
                    match a.room_data {
                        RoomTypeDataView::Invited(rooms) => {
                            let keep = choose|keep: Seq<bool>|
                                keep.len() == rooms.len() && v.deep_view() == invited_instrs(rooms, keep, a.me, a.owner);
                            assert(instructions.deep_view() =~= do_steps(invited_instrs(rooms, keep, a.me, a.owner)));
                        },
                        _ => {
                            assert(instructions.deep_view() =~= Seq::<StepView>::empty());
                        },
                    }
                }
            },
            EventMain::Joined => {
                let v = joined::main(event_args);
                append_steps(&mut instructions, v);
                proof {
                    assert(i == 1);
                    match a.room_data {
                        RoomTypeDataView::Joined(_) => {
                            assert(instructions.deep_view() =~= v.deep_view());
                        },
                        _ => {
                            assert(instructions.deep_view() =~= before);
                        },
                    }
                }
            },
            EventMain::Left => {
                let v = left::main(event_args);
                append_as_steps(&mut instructions, v);
                proof {
                    assert(i == 2);
                    match a.room_data {
                        RoomTypeDataView::Left(rooms) => {
                            assert(instructions.deep_view() =~= do_steps(left_instrs(rooms)));
                        },
                        _ => {
                            assert(instructions.deep_view() =~= before);
                        },
                    }
                }
            },
        }
        i = i + 1;
    }
    instructions
}

/// No step of `r` sets the batch token.
pub open spec fn sets_no_token(r: Seq<StepView>) -> bool {
    forall|k: int| 0 <= k < r.len() ==> !(#[trigger] r[k] matches StepView::Do(InstructionView::SetSince(_)))
}

proof fn lemma_no_token_concat(a: Seq<StepView>, b: Seq<StepView>)
    requires
        sets_no_token(a),
        sets_no_token(b),
    ensures
        sets_no_token(a + b),
{
    assert forall|k: int| 0 <= k < (a + b).len() implies !(#[trigger] (a + b)[k] matches StepView::Do(InstructionView::SetSince(_))) by {
        if k < a.len() {
            assert((a + b)[k] == a[k]);
        } else {
            assert((a + b)[k] == b[k - a.len()]);
        }
    }
}

proof fn lemma_dispatch_no_token(mods: Seq<ModuleView>, m: MessageArgsView)
    ensures
        sets_no_token(dispatch(mods, m)),
    decreases mods.len(),
{
    if mods.len() > 0 {
        lemma_dispatch_no_token(mods.drop_last(), m);
        let last = if m.message_info.words[0] == m.prefix + mods.last().name {
            seq![StepView::Run(mods.last().main, m)]
        } else {
            seq![]
        };
        lemma_no_token_concat(dispatch(mods.drop_last(), m), last);
    }
}

proof fn lemma_timeline_no_token(events: Seq<TimelineEventView>, room_id: Seq<char>, a: EventArgsView)
    ensures
        sets_no_token(timeline_steps(events, room_id, a)),
    decreases events.len(),
{
    if events.len() > 0 {
        lemma_timeline_no_token(events.drop_last(), room_id, a);
        let e = events.last();
        match e {
            TimelineEventView::TextMessage { sender, body } => {
                if sender != a.me && a.prefix.is_prefix_of(body) {
                    let m = crate::essentials::on_event::joined::command_args(sender, body, room_id, a);
                    let head = seq![StepView::Do(InstructionView::UpdateLastResponseTime(a.now))];
                    lemma_dispatch_no_token(crate::essentials::on_message::essential_message_modules(), m);
                    lemma_dispatch_no_token(crate::plugins::on_message::plugin_message_modules(), m);
                    lemma_no_token_concat(head, dispatch(crate::essentials::on_message::essential_message_modules(), m));
                    lemma_no_token_concat(
                        head + dispatch(crate::essentials::on_message::essential_message_modules(), m),
                        dispatch(crate::plugins::on_message::plugin_message_modules(), m),
                    );
                }
            },
            _ => {},
        }
        lemma_no_token_concat(timeline_steps(events.drop_last(), room_id, a), event_steps(e, room_id, a));
    }
}

proof fn lemma_rooms_no_token(rooms: Seq<(Seq<char>, Seq<TimelineEventView>)>, a: EventArgsView)
    ensures
        sets_no_token(rooms_steps(rooms, a)),
    decreases rooms.len(),
{
    if rooms.len() > 0 {
        lemma_rooms_no_token(rooms.drop_last(), a);
        let room = rooms.last();
        let head = seq![StepView::Do(InstructionView::AddRoom(room.0))];
        if !a.starting {
            lemma_timeline_no_token(room.1, room.0, a);
            lemma_no_token_concat(head, timeline_steps(room.1, room.0, a));
        } else {
            assert(room_steps(room, a) =~= head);
        }
        lemma_no_token_concat(rooms_steps(rooms.drop_last(), a), room_steps(room, a));
    }
}

proof fn lemma_invited_no_token(
    rooms: Seq<(Seq<char>, Seq<Option<StrippedStateEventView>>)>,
    keep: Seq<bool>,
    me: Seq<char>,
    owner: Seq<char>,
)
    ensures
        sets_no_token(do_steps(invited_instrs(rooms, keep, me, owner))),
    decreases rooms.len(),
{
    if rooms.len() > 0 && keep.len() == rooms.len() {
        lemma_invited_no_token(rooms.drop_last(), keep.drop_last(), me, owner);
        let r = invited_instrs(rooms, keep, me, owner);
        let p = invited_instrs(rooms.drop_last(), keep.drop_last(), me, owner);
        assert forall|k: int| 0 <= k < do_steps(r).len() implies !(#[trigger] do_steps(r)[k] matches StepView::Do(InstructionView::SetSince(_))) by {
            if k < p.len() {
                assert(r[k] == p[k]);
                assert(do_steps(p)[k] == StepView::Do(p[k]));
            }
        }
    }
}

/// The invitations are answered with joins only.
proof fn lemma_invited_joins_only(
    rooms: Seq<(Seq<char>, Seq<Option<StrippedStateEventView>>)>,
    keep: Seq<bool>,
    me: Seq<char>,
    owner: Seq<char>,
)
    ensures
        forall|k: int| 0 <= k < invited_instrs(rooms, keep, me, owner).len() ==> #[trigger] invited_instrs(rooms, keep, me, owner)[k] is AddRoom,
    decreases rooms.len(),
{
    if rooms.len() > 0 && keep.len() == rooms.len() {
        lemma_invited_joins_only(rooms.drop_last(), keep.drop_last(), me, owner);
        let r = invited_instrs(rooms, keep, me, owner);
        let p = invited_instrs(rooms.drop_last(), keep.drop_last(), me, owner);
        assert forall|k: int| 0 <= k < r.len() implies #[trigger] r[k] is AddRoom by {
            if k < p.len() {
                assert(r[k] == p[k]);
            }
        }
    }
}

/// Every step a handler answers fits its event arguments (see `step_fits`).
pub(crate) proof fn lemma_rooms_outcome_fits(r: Seq<StepView>, a: EventArgsView)
    requires
        rooms_outcome(r, a),
    ensures
        forall|k: int| 0 <= k < r.len() ==> step_fits(#[trigger] r[k], a),
{
    match a.room_data {
        RoomTypeDataView::Invited(rooms) => {
            let keep = choose|keep: Seq<bool>|
                keep.len() == rooms.len() && r == do_steps(invited_instrs(rooms, keep, a.me, a.owner));
            lemma_invited_joins_only(rooms, keep, a.me, a.owner);
            assert forall|k: int| 0 <= k < r.len() implies step_fits(#[trigger] r[k], a) by {
                assert(r[k] == StepView::Do(invited_instrs(rooms, keep, a.me, a.owner)[k]));
            }
        },
        RoomTypeDataView::Joined(rooms) => {
            let keep = choose|keep: Seq<bool>| keep.len() == rooms.len() && r == joined_answers(rooms, keep, a);
            lemma_joined_answers_fit(rooms, keep, a);
        },
        RoomTypeDataView::Left(rooms) => {
            assert forall|k: int| 0 <= k < r.len() implies step_fits(#[trigger] r[k], a) by {
                assert(r[k] == StepView::Do(left_instrs(rooms)[k]));
            }
        },
    }
}

/// Law: no event handler ever sets the batch token, whatever the outcome of
/// the Ctrl-C checks.
pub proof fn lemma_handlers_keep_batch_token(r: Seq<StepView>, a: EventArgsView)
    requires
        rooms_outcome(r, a),
    ensures
        sets_no_token(r),
{
    match a.room_data {
        RoomTypeDataView::Invited(rooms) => {
            let keep = choose|keep: Seq<bool>|
                keep.len() == rooms.len() && r == do_steps(invited_instrs(rooms, keep, a.me, a.owner));
            lemma_invited_no_token(rooms, keep, a.me, a.owner);
        },
        RoomTypeDataView::Joined(rooms) => {
            let keep = choose|keep: Seq<bool>| keep.len() == rooms.len() && r == joined_answers(rooms, keep, a);
            if forall|j: int| 0 <= j < keep.len() ==> #[trigger] keep[j] {
                lemma_rooms_no_token(rooms, a);
            } else {
                let k = first_stop(keep);
                lemma_rooms_no_token(rooms.take(k), a);
                lemma_no_token_concat(rooms_steps(rooms.take(k), a), room_answer(rooms[k], false, a));
            }
        },
        RoomTypeDataView::Left(rooms) => {
            assert forall|k: int| 0 <= k < r.len() implies !(#[trigger] r[k] matches StepView::Do(InstructionView::SetSince(_))) by {
                assert(r[k] == StepView::Do(left_instrs(rooms)[k]));
            }
        },
    }
}

} // verus!
