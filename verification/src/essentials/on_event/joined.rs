//! The `joined` handler: keeps the joined rooms and hands each command
//! message to the command it names.
use vstd::prelude::*;
use vstd::string::*;
use crate::{
    EventArgs, EventArgsView, Instructions, InstructionView, JoinedRoom, MessageArgs,
    MessageArgsView, MessageInfo, MessageInfoView, ModuleView, SonicBotMessageModule, Step,
    StepView, TimelineEvent, TimelineEventView, push_step,
};
use crate::bindings::should_continue;
use crate::essentials::on_message::{essential_message_modules, get_essentials_on_message};
use crate::plugins::on_message::{plugin_message_modules, get_plugins_on_message};
use crate::text::{words, words_of, strings_from, starts_with_text, cat};
use crate::instruction_generators::{RoomTypeData, RoomTypeDataView};

verus! {

/// The help text of `joined`.
pub const HELP_TEXT: &'static str = "Runs on all syncs that have joined room updates.";

/// The command message read from a text.
pub open spec fn message_info_of(sender: Seq<char>, body: Seq<char>, room_id: Seq<char>) -> MessageInfoView {
    MessageInfoView {
        message: body,
        words: words(body),
        args: words(body).skip(1),
        sender,
        room_id,
    }
}

/// What a command module gets for that message.
pub open spec fn command_args(
    sender: Seq<char>,
    body: Seq<char>,
    room_id: Seq<char>,
    a: EventArgsView,
) -> MessageArgsView {
    MessageArgsView {
        message_info: message_info_of(sender, body, room_id),
        owner: a.owner,
        cleanup_on_ctrlc: a.cleanup_on_ctrlc,
        prefix: a.prefix,
    }
}

/// A run of each module whose name, after the prefix, is the message's first
/// word, in the order of the modules.
pub open spec fn dispatch(mods: Seq<ModuleView>, m: MessageArgsView) -> Seq<StepView>
    decreases mods.len(),
{
    if mods.len() == 0 {
        seq![]
    } else {
        dispatch(mods.drop_last(), m) + if m.message_info.words[0] == m.prefix + mods.last().name {
            seq![StepView::Run(mods.last().main, m)]
        } else {
            seq![]
        }
    }
}

/// A text from someone else that starts with the prefix.
pub open spec fn is_command(e: TimelineEventView, a: EventArgsView) -> bool {
    match e {
        TimelineEventView::TextMessage { sender, body } => sender != a.me && a.prefix.is_prefix_of(body),
        _ => false,
    }
}

/// The text of an event (empty for events that are not texts).
pub open spec fn body_of(e: TimelineEventView) -> Seq<char> {
    match e {
        TimelineEventView::TextMessage { sender, body } => body,
        _ => seq![],
    }
}

/// The steps for one timeline event: for a command, the time of the answer
/// and a run of each module it names (the basic ones first).
pub open spec fn event_steps(e: TimelineEventView, room_id: Seq<char>, a: EventArgsView) -> Seq<StepView> {
    match e {
        TimelineEventView::TextMessage { sender, body } => if sender != a.me && a.prefix.is_prefix_of(body) {
            let m = command_args(sender, body, room_id, a);
            seq![StepView::Do(InstructionView::UpdateLastResponseTime(a.now))] + dispatch(
                essential_message_modules(),
                m,
            ) + dispatch(plugin_message_modules(), m)
        } else {
            seq![]
        },
        _ => seq![],
    }
}

/// The steps for a timeline, event after event.
pub open spec fn timeline_steps(events: Seq<TimelineEventView>, room_id: Seq<char>, a: EventArgsView) -> Seq<StepView>
    decreases events.len(),
{
    if events.len() == 0 {
        seq![]
    } else {
        timeline_steps(events.drop_last(), room_id, a) + event_steps(events.last(), room_id, a)
    }
}

/// The steps for one joined room: keep the room, then, once the bot has
/// started, answer the commands of its timeline.
pub open spec fn room_steps(room: (Seq<char>, Seq<TimelineEventView>), a: EventArgsView) -> Seq<StepView> {
    seq![StepView::Do(InstructionView::AddRoom(room.0))] + if a.starting {
        seq![]
    } else {
        timeline_steps(room.1, room.0, a)
    }
}

/// The steps for the joined rooms, room after room.
pub open spec fn rooms_steps(rooms: Seq<(Seq<char>, Seq<TimelineEventView>)>, a: EventArgsView) -> Seq<StepView>
    decreases rooms.len(),
{
    if rooms.len() == 0 {
        seq![]
    } else {
        rooms_steps(rooms.drop_last(), a) + room_steps(rooms.last(), a)
    }
}

/// The bot can answer this room: every event of its timeline can be read,
/// and every command holds at least one word (a command that is nothing but
/// whitespace has no first word to name a module by).
pub open spec fn room_answerable(room: (Seq<char>, Seq<TimelineEventView>), a: EventArgsView) -> bool {
    forall|j: int|
        0 <= j < room.1.len() ==> !(#[trigger] room.1[j] is Unreadable) && (is_command(room.1[j], a)
            ==> words(body_of(room.1[j])).len() > 0)
}

/// The bot can answer every one of these rooms.
pub open spec fn rooms_answerable(rooms: Seq<(Seq<char>, Seq<TimelineEventView>)>, a: EventArgsView) -> bool {
    forall|i: int| 0 <= i < rooms.len() ==> room_answerable(#[trigger] rooms[i], a)
}

/// What `joined` needs of its input: once the bot has started, it reads the
/// timelines, and must be able to answer them.
pub open spec fn joined_ready(a: EventArgsView) -> bool {
    match a.room_data {
        RoomTypeDataView::Joined(rooms) => !a.starting ==> rooms_answerable(rooms, a),
        _ => true,
    }
}

/// What `joined` answers for one room, given what the Ctrl-C check said
/// (`cont` is true when no Ctrl-C was seen): the room's steps, or a `Quit`.
pub open spec fn room_answer(room: (Seq<char>, Seq<TimelineEventView>), cont: bool, a: EventArgsView) -> Seq<StepView> {
    if cont {
        room_steps(room, a)
    } else {
        seq![StepView::Do(InstructionView::Quit(a.cleanup_on_ctrlc))]
    }
}

/// The room at which the Ctrl-C answers `keep` first say that Ctrl-C was seen.
pub open spec fn first_stop(keep: Seq<bool>) -> int {
    choose|k: int| 0 <= k < keep.len() && !keep[k] && forall|j: int| 0 <= j < k ==> #[trigger] keep[j]
}

/// What `joined` answers to its rooms when the Ctrl-C checks, one as each room
/// comes up, answered `keep`: the steps of every room while the answers say
/// go on; at the first answer that says stop, a `Quit`, and no later room is
/// looked at.
pub open spec fn joined_answers(
    rooms: Seq<(Seq<char>, Seq<TimelineEventView>)>,
    keep: Seq<bool>,
    a: EventArgsView,
) -> Seq<StepView> {
    if forall|j: int| 0 <= j < keep.len() ==> #[trigger] keep[j] {
        rooms_steps(rooms, a)
    } else {
        let k = first_stop(keep);
        rooms_steps(rooms.take(k), a) + room_answer(rooms[k], false, a)
    }
}

/// What `joined` may answer: its answer for some outcome of the Ctrl-C checks.
pub open spec fn joined_outcome(r: Seq<StepView>, a: EventArgsView) -> bool {
    match a.room_data {
        RoomTypeDataView::Joined(rooms) => exists|keep: Seq<bool>|
            keep.len() == rooms.len() && r == #[trigger] joined_answers(rooms, keep, a),
        _ => r == Seq::<StepView>::empty(),
    }
}

/// An answer for some outcome of the Ctrl-C checks is an outcome of `joined`.
proof fn lemma_outcome_of(
    r: Seq<StepView>,
    rooms: Seq<(Seq<char>, Seq<TimelineEventView>)>,
    keep: Seq<bool>,
    a: EventArgsView,
)
    requires
        a.room_data == RoomTypeDataView::Joined(rooms),
        keep.len() == rooms.len(),
        r == joined_answers(rooms, keep, a),
    ensures
        joined_outcome(r, a),
{
    match a.room_data {
        RoomTypeDataView::Joined(rs) => {
            assert(rs == rooms);
            assert(keep.len() == rs.len() && r == joined_answers(rs, keep, a));
        },
        _ => {},
    }
}

/// When some answer says stop, there is a first one.
proof fn lemma_first_stop_exists(keep: Seq<bool>, i: int)
    requires
        0 <= i < keep.len(),
        !keep[i],
    ensures
        0 <= first_stop(keep) < keep.len(),
        !keep[first_stop(keep)],
        forall|j: int| 0 <= j < first_stop(keep) ==> #[trigger] keep[j],
    decreases i,
{
    if forall|j: int| 0 <= j < i ==> #[trigger] keep[j] {
        lemma_first_stop(keep, i);
    } else {
        let j = choose|j: int| 0 <= j < i && !keep[j];
        lemma_first_stop_exists(keep, j);
    }
}

/// The first answer that says stop is the one at `k`.
proof fn lemma_first_stop(keep: Seq<bool>, k: int)
    requires
        0 <= k < keep.len(),
        !keep[k],
        forall|j: int| 0 <= j < k ==> #[trigger] keep[j],
    ensures
        first_stop(keep) == k,
        !(forall|j: int| 0 <= j < keep.len() ==> #[trigger] keep[j]),
{
    let f = first_stop(keep);
    assert(0 <= f < keep.len() && !keep[f] && forall|j: int| 0 <= j < f ==> #[trigger] keep[j]);
    if f < k {
        assert(keep[f]);
    } else if f > k {
        assert(keep[k]);
    }
}

/// Law: when every Ctrl-C check says go on, `joined` keeps every room and
/// answers every command in it; no `Quit` comes.
pub proof fn lemma_joined_without_ctrlc(
    rooms: Seq<(Seq<char>, Seq<TimelineEventView>)>,
    keep: Seq<bool>,
    a: EventArgsView,
)
    requires
        keep.len() == rooms.len(),
        forall|j: int| 0 <= j < keep.len() ==> #[trigger] keep[j],
    ensures
        joined_answers(rooms, keep, a) == rooms_steps(rooms, a),
        forall|k: int|
            0 <= k < joined_answers(rooms, keep, a).len() ==> !(#[trigger] joined_answers(rooms, keep, a)[k] matches StepView::Do(InstructionView::Quit(_))),
{
    lemma_rooms_steps_no_quit(rooms, a);
}

/// Law: while the bot reads its first sync and no Ctrl-C is seen, `joined`
/// only keeps each joined room, in order: no command is answered and no
/// `Quit` comes.
pub proof fn lemma_joined_while_starting(
    rooms: Seq<(Seq<char>, Seq<TimelineEventView>)>,
    keep: Seq<bool>,
    a: EventArgsView,
)
    requires
        a.starting,
        keep.len() == rooms.len(),
        forall|j: int| 0 <= j < keep.len() ==> #[trigger] keep[j],
    ensures
        joined_answers(rooms, keep, a) == rooms.map_values(
            |r: (Seq<char>, Seq<TimelineEventView>)| StepView::Do(InstructionView::AddRoom(r.0)),
        ),
{
    lemma_joined_without_ctrlc(rooms, keep, a);
    lemma_no_answers_while_starting(rooms, a);
}

/// Law: when the Ctrl-C check made as the room at `k` comes up is the first
/// to say stop, `joined` answers the rooms before it as usual and ends with a
/// `Quit` there.
pub proof fn lemma_joined_quits_where_ctrlc_is_seen(
    rooms: Seq<(Seq<char>, Seq<TimelineEventView>)>,
    keep: Seq<bool>,
    a: EventArgsView,
    k: int,
)
    requires
        keep.len() == rooms.len(),
        0 <= k < keep.len(),
        !keep[k],
        forall|j: int| 0 <= j < k ==> #[trigger] keep[j],
    ensures
        joined_answers(rooms, keep, a) == rooms_steps(rooms.take(k), a).push(
            StepView::Do(InstructionView::Quit(a.cleanup_on_ctrlc)),
        ),
{
    lemma_first_stop(keep, k);
    assert(rooms_steps(rooms.take(k), a) + room_answer(rooms[k], false, a) =~= rooms_steps(rooms.take(k), a).push(
        StepView::Do(InstructionView::Quit(a.cleanup_on_ctrlc)),
    ));
}

/// The steps of a room never hold a `Quit`.
proof fn lemma_rooms_steps_no_quit(rooms: Seq<(Seq<char>, Seq<TimelineEventView>)>, a: EventArgsView)
    ensures
        forall|k: int|
            0 <= k < rooms_steps(rooms, a).len() ==> !(#[trigger] rooms_steps(rooms, a)[k] matches StepView::Do(InstructionView::Quit(_))),
    decreases rooms.len(),
{
    if rooms.len() > 0 {
        lemma_rooms_steps_no_quit(rooms.drop_last(), a);
        let p = rooms_steps(rooms.drop_last(), a);
        let room = rooms.last();
        if !a.starting {
            lemma_timeline_no_quit(room.1, room.0, a);
        }
        let q = room_steps(room, a);
        assert forall|k: int| 0 <= k < q.len() implies !(#[trigger] q[k] matches StepView::Do(InstructionView::Quit(_))) by {
            if k > 0 {
                assert(q[k] == timeline_steps(room.1, room.0, a)[k - 1]);
            }
        }
        assert forall|k: int|
            0 <= k < rooms_steps(rooms, a).len() implies !(#[trigger] rooms_steps(rooms, a)[k] matches StepView::Do(InstructionView::Quit(_))) by {
            if k < p.len() {
                assert(rooms_steps(rooms, a)[k] == p[k]);
            } else {
                assert(rooms_steps(rooms, a)[k] == q[k - p.len()]);
            }
        }
    }
}

/// The steps of a timeline never hold a `Quit`.
proof fn lemma_timeline_no_quit(events: Seq<TimelineEventView>, room_id: Seq<char>, a: EventArgsView)
    ensures
        forall|k: int|
            0 <= k < timeline_steps(events, room_id, a).len() ==> !(#[trigger] timeline_steps(events, room_id, a)[k] matches StepView::Do(InstructionView::Quit(_))),
    decreases events.len(),
{
    if events.len() > 0 {
        lemma_timeline_no_quit(events.drop_last(), room_id, a);
        let p = timeline_steps(events.drop_last(), room_id, a);
        let e = events.last();
        let q = event_steps(e, room_id, a);
        match e {
            TimelineEventView::TextMessage { sender, body } => {
                if sender != a.me && a.prefix.is_prefix_of(body) {
                    let m = command_args(sender, body, room_id, a);
                    let d1 = dispatch(essential_message_modules(), m);
                    let d2 = dispatch(plugin_message_modules(), m);
                    lemma_dispatch_runs(essential_message_modules(), m);
                    lemma_dispatch_runs(plugin_message_modules(), m);
                    assert forall|k: int| 0 <= k < q.len() implies !(#[trigger] q[k] matches StepView::Do(InstructionView::Quit(_))) by {
                        if k >= 1 + d1.len() {
                            assert(q[k] == d2[k - 1 - d1.len()]);
                        } else if k >= 1 {
                            assert(q[k] == d1[k - 1]);
                        }
                    }
                }
            },
            _ => {},
        }
        assert forall|k: int|
            0 <= k < timeline_steps(events, room_id, a).len() implies !(#[trigger] timeline_steps(events, room_id, a)[k] matches StepView::Do(InstructionView::Quit(_))) by {
            if k < p.len() {
                assert(timeline_steps(events, room_id, a)[k] == p[k]);
            } else {
                assert(timeline_steps(events, room_id, a)[k] == q[k - p.len()]);
            }
        }
    }
}

/// A step that a handler may give under the event arguments `a`: a run of a
/// command only once the bot has started, for a message someone else sent,
/// with the owner, prefix and Ctrl-C setting of `a`; a `Quit` only with the
/// Ctrl-C setting of `a`.
pub open spec fn step_fits(st: StepView, a: EventArgsView) -> bool {
    match st {
        StepView::Run(_, ma) => {
            &&& !a.starting
            &&& ma.owner == a.owner
            &&& ma.prefix == a.prefix
            &&& ma.cleanup_on_ctrlc == a.cleanup_on_ctrlc
            &&& ma.message_info.sender != a.me
        },
        StepView::Do(InstructionView::Quit(b)) => b == a.cleanup_on_ctrlc,
        _ => true,
    }
}

/// Every run of a dispatch gets the message's arguments.
proof fn lemma_dispatch_args(mods: Seq<ModuleView>, m: MessageArgsView)
    ensures
        forall|k: int|
            0 <= k < dispatch(mods, m).len() ==> (#[trigger] dispatch(mods, m)[k] matches StepView::Run(_, mm) && mm == m),
    decreases mods.len(),
{
    if mods.len() > 0 {
        lemma_dispatch_args(mods.drop_last(), m);
        let p = dispatch(mods.drop_last(), m);
        assert forall|k: int| 0 <= k < dispatch(mods, m).len() implies (#[trigger] dispatch(mods, m)[k] matches StepView::Run(_, mm) && mm == m) by {
            if k < p.len() {
                assert(dispatch(mods, m)[k] == p[k]);
            }
        }
    }
}

/// Every step of a timeline fits the event arguments, once the bot has started.
proof fn lemma_timeline_fits(events: Seq<TimelineEventView>, room_id: Seq<char>, a: EventArgsView)
    requires
        !a.starting,
    ensures
        forall|k: int| 0 <= k < timeline_steps(events, room_id, a).len() ==> step_fits(#[trigger] timeline_steps(events, room_id, a)[k], a),
    decreases events.len(),
{
    if events.len() > 0 {
        lemma_timeline_fits(events.drop_last(), room_id, a);
        let p = timeline_steps(events.drop_last(), room_id, a);
        let e = events.last();
        let q = event_steps(e, room_id, a);
        match e {
            TimelineEventView::TextMessage { sender, body } => {
                if sender != a.me && a.prefix.is_prefix_of(body) {
                    let m = command_args(sender, body, room_id, a);
                    let d1 = dispatch(essential_message_modules(), m);
                    let d2 = dispatch(plugin_message_modules(), m);
                    lemma_dispatch_args(essential_message_modules(), m);
                    lemma_dispatch_args(plugin_message_modules(), m);
                    assert forall|k: int| 0 <= k < q.len() implies step_fits(#[trigger] q[k], a) by {
                        if k >= 1 + d1.len() {
                            assert(q[k] == d2[k - 1 - d1.len()]);
                        } else if k >= 1 {
                            assert(q[k] == d1[k - 1]);
                        }
                    }
                }
            },
            _ => {},
        }
        assert forall|k: int| 0 <= k < timeline_steps(events, room_id, a).len() implies step_fits(#[trigger] timeline_steps(events, room_id, a)[k], a) by {
            if k < p.len() {
                assert(timeline_steps(events, room_id, a)[k] == p[k]);
            } else {
                assert(timeline_steps(events, room_id, a)[k] == q[k - p.len()]);
            }
        }
    }
}

/// Every step for the joined rooms fits the event arguments.
proof fn lemma_rooms_steps_fit(rooms: Seq<(Seq<char>, Seq<TimelineEventView>)>, a: EventArgsView)
    ensures
        forall|k: int| 0 <= k < rooms_steps(rooms, a).len() ==> step_fits(#[trigger] rooms_steps(rooms, a)[k], a),
    decreases rooms.len(),
{
    if rooms.len() > 0 {
        lemma_rooms_steps_fit(rooms.drop_last(), a);
        let p = rooms_steps(rooms.drop_last(), a);
        let room = rooms.last();
        if !a.starting {
            lemma_timeline_fits(room.1, room.0, a);
        }
        let q = room_steps(room, a);
        assert forall|k: int| 0 <= k < q.len() implies step_fits(#[trigger] q[k], a) by {
            if k > 0 {
                assert(q[k] == timeline_steps(room.1, room.0, a)[k - 1]);
            }
        }
        assert forall|k: int| 0 <= k < rooms_steps(rooms, a).len() implies step_fits(#[trigger] rooms_steps(rooms, a)[k], a) by {
            if k < p.len() {
                assert(rooms_steps(rooms, a)[k] == p[k]);
            } else {
                assert(rooms_steps(rooms, a)[k] == q[k - p.len()]);
            }
        }
    }
}

/// Every step `joined` answers fits the event arguments, whatever the Ctrl-C
/// checks said.
pub(crate) proof fn lemma_joined_answers_fit(rooms: Seq<(Seq<char>, Seq<TimelineEventView>)>, keep: Seq<bool>, a: EventArgsView)
    ensures
        forall|k: int| 0 <= k < joined_answers(rooms, keep, a).len() ==> step_fits(#[trigger] joined_answers(rooms, keep, a)[k], a),
{
    if forall|j: int| 0 <= j < keep.len() ==> #[trigger] keep[j] {
        lemma_rooms_steps_fit(rooms, a);
    } else {
        let n = first_stop(keep);
        let p = rooms_steps(rooms.take(n), a);
        lemma_rooms_steps_fit(rooms.take(n), a);
        let r = joined_answers(rooms, keep, a);
        assert forall|k: int| 0 <= k < r.len() implies step_fits(#[trigger] r[k], a) by {
            if k < p.len() {
                assert(r[k] == p[k]);
            }
        }
    }
}

/// A timeline is answered with answer times and runs of commands only.
proof fn lemma_timeline_kinds(events: Seq<TimelineEventView>, room_id: Seq<char>, a: EventArgsView)
    ensures
        forall|k: int|
            0 <= k < timeline_steps(events, room_id, a).len() ==> #[trigger] timeline_steps(events, room_id, a)[k] is Run
                || timeline_steps(events, room_id, a)[k] matches StepView::Do(InstructionView::UpdateLastResponseTime(_)),
    decreases events.len(),
{
    if events.len() > 0 {
        lemma_timeline_kinds(events.drop_last(), room_id, a);
        let p = timeline_steps(events.drop_last(), room_id, a);
        let e = events.last();
        let q = event_steps(e, room_id, a);
        match e {
            TimelineEventView::TextMessage { sender, body } => {
                if sender != a.me && a.prefix.is_prefix_of(body) {
                    let m = command_args(sender, body, room_id, a);
                    let d1 = dispatch(essential_message_modules(), m);
                    let d2 = dispatch(plugin_message_modules(), m);
                    lemma_dispatch_runs(essential_message_modules(), m);
                    lemma_dispatch_runs(plugin_message_modules(), m);
                    assert forall|k: int| 0 <= k < q.len() implies #[trigger] q[k] is Run || q[k] matches StepView::Do(
                        InstructionView::UpdateLastResponseTime(_),
                    ) by {
                        if k >= 1 + d1.len() {
                            assert(q[k] == d2[k - 1 - d1.len()]);
                        } else if k >= 1 {
                            assert(q[k] == d1[k - 1]);
                        }
                    }
                }
            },
            _ => {},
        }
        let t = timeline_steps(events, room_id, a);
        assert forall|k: int| 0 <= k < t.len() implies #[trigger] t[k] is Run || t[k] matches StepView::Do(
            InstructionView::UpdateLastResponseTime(_),
        ) by {
            if k < p.len() {
                assert(t[k] == p[k]);
            } else {
                assert(t[k] == q[k - p.len()]);
            }
        }
    }
}

/// The steps for joined rooms join those rooms only.
proof fn lemma_rooms_steps_join_own(rooms: Seq<(Seq<char>, Seq<TimelineEventView>)>, a: EventArgsView)
    ensures
        forall|k: int|
            0 <= k < rooms_steps(rooms, a).len() ==> (#[trigger] rooms_steps(rooms, a)[k] matches StepView::Do(
                InstructionView::AddRoom(x),
            ) ==> exists|j: int| 0 <= j < rooms.len() && rooms[j].0 == x),
    decreases rooms.len(),
{
    if rooms.len() > 0 {
        lemma_rooms_steps_join_own(rooms.drop_last(), a);
        let p = rooms_steps(rooms.drop_last(), a);
        let room = rooms.last();
        lemma_timeline_kinds(room.1, room.0, a);
        let q = room_steps(room, a);
        let t = rooms_steps(rooms, a);
        assert forall|k: int| 0 <= k < t.len() implies (#[trigger] t[k] matches StepView::Do(
            InstructionView::AddRoom(x),
        ) ==> exists|j: int| 0 <= j < rooms.len() && rooms[j].0 == x) by {
            if k < p.len() {
                assert(t[k] == p[k]);
                if let StepView::Do(InstructionView::AddRoom(x)) = t[k] {
                    let j = choose|j: int| 0 <= j < rooms.drop_last().len() && rooms.drop_last()[j].0 == x;
                    assert(rooms[j] == rooms.drop_last()[j]);
                }
            } else {
                assert(t[k] == q[k - p.len()]);
                if k - p.len() > 0 {
                    assert(q[k - p.len()] == timeline_steps(room.1, room.0, a)[k - p.len() - 1]);
                } else {
                    assert(rooms[rooms.len() - 1] == room);
                }
            }
        }
    }
}

/// Whatever the Ctrl-C checks said, `joined` joins only the rooms it was given.
pub(crate) proof fn lemma_joined_answers_join_own(
    rooms: Seq<(Seq<char>, Seq<TimelineEventView>)>,
    keep: Seq<bool>,
    a: EventArgsView,
)
    requires
        keep.len() == rooms.len(),
    ensures
        forall|k: int|
            0 <= k < joined_answers(rooms, keep, a).len() ==> (#[trigger] joined_answers(rooms, keep, a)[k] matches StepView::Do(
                InstructionView::AddRoom(x),
            ) ==> exists|j: int| 0 <= j < rooms.len() && rooms[j].0 == x),
{
    if forall|j: int| 0 <= j < keep.len() ==> #[trigger] keep[j] {
        lemma_rooms_steps_join_own(rooms, a);
    } else {
        let i = choose|i: int| 0 <= i < keep.len() && !keep[i];
        lemma_first_stop_exists(keep, i);
        let n = first_stop(keep);
        let sub = rooms.take(n);
        let p = rooms_steps(sub, a);
        lemma_rooms_steps_join_own(sub, a);
        let r = joined_answers(rooms, keep, a);
        assert forall|k: int| 0 <= k < r.len() implies (#[trigger] r[k] matches StepView::Do(
            InstructionView::AddRoom(x),
        ) ==> exists|j: int| 0 <= j < rooms.len() && rooms[j].0 == x) by {
            if k < p.len() {
                assert(r[k] == p[k]);
                if let StepView::Do(InstructionView::AddRoom(x)) = r[k] {
                    let j = choose|j: int| 0 <= j < sub.len() && sub[j].0 == x;
                    assert(sub[j] == rooms[j]);
                }
            }
        }
    }
}

/// A dispatch holds runs of modules only.
proof fn lemma_dispatch_runs(mods: Seq<ModuleView>, m: MessageArgsView)
    ensures
        forall|k: int| 0 <= k < dispatch(mods, m).len() ==> #[trigger] dispatch(mods, m)[k] is Run,
    decreases mods.len(),
{
    if mods.len() > 0 {
        lemma_dispatch_runs(mods.drop_last(), m);
        let p = dispatch(mods.drop_last(), m);
        assert forall|k: int| 0 <= k < dispatch(mods, m).len() implies #[trigger] dispatch(mods, m)[k] is Run by {
            if k < p.len() {
                assert(dispatch(mods, m)[k] == p[k]);
            }
        }
    }
}

/// Law: the bot never answers its own messages.
pub proof fn lemma_own_messages_ignored(body: Seq<char>, room_id: Seq<char>, a: EventArgsView)
    ensures
        event_steps(TimelineEventView::TextMessage { sender: a.me, body }, room_id, a) == Seq::<StepView>::empty(),
{
}

/// Law: while the bot reads its first sync, it answers no command: it only
/// keeps each joined room.
pub proof fn lemma_no_answers_while_starting(rooms: Seq<(Seq<char>, Seq<TimelineEventView>)>, a: EventArgsView)
    requires
        a.starting,
    ensures
        rooms_steps(rooms, a) == rooms.map_values(
            |r: (Seq<char>, Seq<TimelineEventView>)| StepView::Do(InstructionView::AddRoom(r.0)),
        ),
    decreases rooms.len(),
{
    if rooms.len() > 0 {
        lemma_no_answers_while_starting(rooms.drop_last(), a);
        assert(rooms_steps(rooms, a) =~= rooms.map_values(
            |r: (Seq<char>, Seq<TimelineEventView>)| StepView::Do(InstructionView::AddRoom(r.0)),
        ));
    } else {
        assert(rooms_steps(rooms, a) =~= rooms.map_values(
            |r: (Seq<char>, Seq<TimelineEventView>)| StepView::Do(InstructionView::AddRoom(r.0)),
        ));
    }
}

/// What a module gets for `info` under these event arguments.
pub open spec fn args_for(info: MessageInfoView, a: EventArgsView) -> MessageArgsView {
    MessageArgsView {
        message_info: info,
        owner: a.owner,
        cleanup_on_ctrlc: a.cleanup_on_ctrlc,
        prefix: a.prefix,
    }
}

/// Adds a run of each module of `mods` that the message names.
fn dispatch_to<'a>(
    steps: &mut Vec<Step<'a>>,
    mods: &Vec<SonicBotMessageModule>,
    info: &MessageInfo,
    event_args: &EventArgs<'a>,
)
    requires
        info.words.len() >= 1,
    ensures
        final(steps).deep_view() == old(steps).deep_view() + dispatch(
            mods.deep_view(),
            args_for(info.deep_view(), event_args.deep_view()),
        ),
{
    let ghost start = steps.deep_view();
    let ghost m = args_for(info.deep_view(), event_args.deep_view());
    let ghost all = mods.deep_view();
    let mut i: usize = 0;
    while i < mods.len()
        invariant
            i <= mods.len(),
            all == mods.deep_view(),
            info.words.len() >= 1,
            m == args_for(info.deep_view(), event_args.deep_view()),
            steps.deep_view() == start + dispatch(all.take(i as int), m),
        decreases mods.len() - i,
    {
        let target = cat(event_args.prefix.as_str(), mods[i].name.as_str());
        let ghost before = steps.deep_view();
        assert(m.message_info.words[0] == info.words[0]@);
        if info.words[0] == target {
            let args = MessageArgs::new(
                info.duplicate(),
                event_args.owner.clone(),
                event_args.ctrlc_handler,
                event_args.cleanup_on_ctrlc,
                event_args.prefix.clone(),
            );
            push_step(steps, Step::Run(mods[i].main, args));
        }
        proof {
            let t = all.take(i + 1);
            assert(t.drop_last() == all.take(i as int));
            assert(t.last() == all[i as int]);
            if info.words[0]@ == target@ {
                assert(steps.deep_view() =~= before + seq![StepView::Run(all[i as int].main, m)]);
            } else {
                assert(steps.deep_view() =~= before + Seq::<StepView>::empty());
            }
        }
        i = i + 1;
    }
    assert(all.take(mods.len() as int) == all);
}

/// Adds the steps for the timeline of one joined room.
fn handle_timeline<'a>(
    steps: &mut Vec<Step<'a>>,
    room_id: &String,
    room: &JoinedRoom,
    event_args: &EventArgs<'a>,
)
    requires
        forall|j: int|
            0 <= j < room.timeline.len() && is_command(#[trigger] room.deep_view()[j], event_args.deep_view())
                ==> words(body_of(room.deep_view()[j])).len() > 0,
    ensures
        final(steps).deep_view() == old(steps).deep_view() + timeline_steps(
            room.deep_view(),
            room_id@,
            event_args.deep_view(),
        ),
{
    let ghost start = steps.deep_view();
    let ghost a = event_args.deep_view();
    let ghost evs = room.deep_view();
    let events = &room.timeline;
    let mut j: usize = 0;
    while j < events.len()
        invariant
            j <= events.len(),
            evs == events.deep_view(),
            evs == room.deep_view(),
            a == event_args.deep_view(),
            forall|j: int| 0 <= j < evs.len() && is_command(#[trigger] evs[j], a) ==> words(body_of(evs[j])).len() > 0,
            steps.deep_view() == start + timeline_steps(evs.take(j as int), room_id@, a),
        decreases events.len() - j,
    {
        let ghost before = steps.deep_view();
        let ghost e = evs[j as int];
        match &events[j] {
            TimelineEvent::TextMessage { sender, body } => {
                if !(*sender == event_args.me) && starts_with_text(body.as_str(), event_args.prefix.as_str()) {
                    assert(is_command(e, a));
                    push_step(steps, Step::Do(Instructions::UpdateLastResponseTime(event_args.now)));
                    let words = words_of(body.as_str());
                    let args = strings_from(&words, 1);
                    let info = MessageInfo {
                        message: body.clone(),
                        words,
                        args,
                        sender: sender.clone(),
                        room_id: room_id.clone(),
                    };
                    assert(info.deep_view() == message_info_of(sender@, body@, room_id@));
                    dispatch_to(steps, &get_essentials_on_message(), &info, event_args);
                    dispatch_to(steps, &get_plugins_on_message(), &info, event_args);
                    assert(steps.deep_view() =~= before + event_steps(e, room_id@, a));
                } else {
                    assert(steps.deep_view() =~= before + event_steps(e, room_id@, a));
                }
            },
            _ => {
                assert(steps.deep_view() =~= before + event_steps(e, room_id@, a));
            },
        }
        proof {
            let t = evs.take(j + 1);
            assert(t.drop_last() == evs.take(j as int));
            assert(t.last() == e);
        }
        j = j + 1;
    }
    assert(evs.take(events.len() as int) == evs);
}

/// Answers one joined room, given the answer `cont` of the Ctrl-C check made
/// as the room came up: its steps are added when `cont` holds, a `Quit`
/// otherwise; the result tells whether to stop.
pub fn joined_room<'a>(
    steps: &mut Vec<Step<'a>>,
    room: &(String, JoinedRoom),
    cont: bool,
    event_args: &EventArgs<'a>,
) -> (stop: bool)
    requires
        cont && !event_args.starting ==> room_answerable(room.deep_view(), event_args.deep_view()),
    ensures
        stop == !cont,
        final(steps).deep_view() == old(steps).deep_view() + room_answer(
            room.deep_view(),
            cont,
            event_args.deep_view(),
        ),
{
    let ghost a = event_args.deep_view();
    let ghost before = steps.deep_view();
    if cont {
        push_step(steps, Step::Do(Instructions::AddRoom(room.0.clone())));
        if !event_args.starting {
            proof {
                assert forall|j: int|
                    0 <= j < room.1.timeline.len() && is_command(#[trigger] room.1.deep_view()[j], a)
                    implies words(body_of(room.1.deep_view()[j])).len() > 0 by {
                    assert(room.deep_view().1[j] == room.1.deep_view()[j]);
                }
            }
            handle_timeline(steps, &room.0, &room.1, event_args);
        }
        assert(steps.deep_view() =~= before + room_steps(room.deep_view(), a));
        false
    } else {
        push_step(steps, Step::Do(Instructions::Quit(event_args.cleanup_on_ctrlc)));
        assert(steps.deep_view() =~= before + seq![StepView::Do(InstructionView::Quit(a.cleanup_on_ctrlc))]);
        true
    }
}

/// Keeps each joined room and hands every command in it to the modules it
/// names; stops with a `Quit` when Ctrl-C is seen as a room comes up.
pub fn main<'a>(event_args: &EventArgs<'a>) -> (r: Vec<Step<'a>>)
    requires
        crate::instruction_generators::handlers_ready(event_args.deep_view()),
    ensures
        joined_outcome(r.deep_view(), event_args.deep_view()),
{
    let ghost a = event_args.deep_view();
    let mut steps: Vec<Step<'a>> = Vec::new();
    if let RoomTypeData::Joined(x) = &event_args.room_data {
        let ghost rooms = x.deep_view();
        let mut i: usize = 0;
        while i < x.len()
            invariant
                i <= x.len(),
                rooms == x.deep_view(),
                a == event_args.deep_view(),
                a.room_data == RoomTypeDataView::Joined(rooms),
                joined_ready(a),
                steps.deep_view() == rooms_steps(rooms.take(i as int), a),
            decreases x.len() - i,
        {
            proof {
                if !a.starting {
                    assert(room_answerable(rooms[i as int], a));
                }
            }
            let cont = should_continue(event_args.ctrlc_handler);
            if joined_room(&mut steps, &x[i], cont, event_args) {
                proof {
                    let keep = Seq::new(rooms.len(), |j: int| j != i);
                    lemma_joined_quits_where_ctrlc_is_seen(rooms, keep, a, i as int);
                    assert(steps.deep_view() =~= joined_answers(rooms, keep, a));
                    lemma_outcome_of(steps.deep_view(), rooms, keep, a);
                }
                return steps;
            }
            proof {
                let t = rooms.take(i + 1);
                assert(t.drop_last() == rooms.take(i as int));
                assert(t.last() == rooms[i as int]);
            }
            i = i + 1;
        }
        proof {
            assert(rooms.take(x.len() as int) == rooms);
            let keep = Seq::new(rooms.len(), |j: int| true);
            lemma_joined_without_ctrlc(rooms, keep, a);
            lemma_outcome_of(steps.deep_view(), rooms, keep, a);
        }
    } else {
        assert(steps.deep_view() =~= Seq::<StepView>::empty());
    }
    steps
}

/// The help text of `joined`.
pub fn help() -> (r: String)
    ensures
        r@ == HELP_TEXT@,
{
    String::from_str(HELP_TEXT)
}

} // verus!
