//! The `invited` handler: accepts the owner's invitations.
use vstd::prelude::*;
use vstd::string::*;
use crate::{EventArgs, Instructions, InstructionView, InvitedRoom, MembershipState, StrippedStateEvent, StrippedStateEventView};
use crate::bindings::should_continue;
use crate::instruction_generators::{RoomTypeData, RoomTypeDataView};

verus! {

/// The help text of `invited`.
pub const HELP_TEXT: &'static str = "Runs on all syncs that have invited room updates.";

/// The event invites `me` and was sent by `owner`.
pub open spec fn is_acceptance(e: Option<StrippedStateEventView>, me: Seq<char>, owner: Seq<char>) -> bool {
    e matches Some(ev) && ev.state_key == me && ev.sender == owner && ev.membership == Some(
        MembershipState::Invite,
    )
}

/// The invitation holds an event that invites `me` and was sent by `owner`.
pub open spec fn accepts_invite(events: Seq<Option<StrippedStateEventView>>, me: Seq<char>, owner: Seq<char>) -> bool {
    exists|i: int| 0 <= i < events.len() && is_acceptance(#[trigger] events[i], me, owner)
}

/// Every event read before the first one that invites `me` from `owner` can
/// be read (the events after it are never looked at).
pub open spec fn invite_readable(events: Seq<Option<StrippedStateEventView>>, me: Seq<char>, owner: Seq<char>) -> bool {
    forall|i: int|
        0 <= i < events.len() && (#[trigger] events[i]) is None ==> exists|j: int|
            0 <= j < i && is_acceptance(#[trigger] events[j], me, owner)
}

/// Every invitation can be read as far as it is looked at.
pub open spec fn invites_readable(
    rooms: Seq<(Seq<char>, Seq<Option<StrippedStateEventView>>)>,
    me: Seq<char>,
    owner: Seq<char>,
) -> bool {
    forall|k: int| 0 <= k < rooms.len() ==> invite_readable(#[trigger] rooms[k].1, me, owner)
}

/// Whether the bot should accept the invitation to this room.
fn should_accept_invite(invited_room: &InvitedRoom, event_args: &EventArgs) -> (r: bool)
    requires
        invite_readable(invited_room.deep_view(), event_args.me@, event_args.owner@),
    ensures
        r == accepts_invite(invited_room.deep_view(), event_args.me@, event_args.owner@),
{
    let events = &invited_room.invite_state;
    let ghost evs = events.deep_view();
    let mut i: usize = 0;
    while i < events.len()
        invariant
            i <= events.len(),
            evs == events.deep_view(),
            evs == invited_room.deep_view(),
            invite_readable(evs, event_args.me@, event_args.owner@),
            forall|k: int| 0 <= k < i ==> !is_acceptance(#[trigger] evs[k], event_args.me@, event_args.owner@),
        decreases events.len() - i,
    {
        match &events[i] {
            Some(event) => {
                if event.state_key == event_args.me {
                    if event.sender == event_args.owner {
                        if let Some(m) = event.membership {
                            if m == MembershipState::Invite {
                                assert(is_acceptance(evs[i as int], event_args.me@, event_args.owner@));
                                return true;
                            }
                        }
                    }
                }
            },
            None => {
                assert(evs[i as int] is None);
                assert(false);
            },
        }
        i = i + 1;
    }
    false
}

/// Whether the event invites `me` and was sent by `owner`.
fn is_acceptance_event(e: &Option<StrippedStateEvent>, me: &String, owner: &String) -> (r: bool)
    ensures
        r == is_acceptance(e.deep_view(), me@, owner@),
{
    match e {
        Some(ev) => {
            let m = match ev.membership {
                Some(MembershipState::Invite) => true,
                _ => false,
            };
            ev.state_key == *me && ev.sender == *owner && m
        },
        None => false,
    }
}

/// Whether every invitation can be read as far as `invited` looks at it.
pub fn invitations_readable(rooms: &Vec<(String, InvitedRoom)>, me: &String, owner: &String) -> (r: bool)
    ensures
        r == invites_readable(rooms.deep_view(), me@, owner@),
{
    let ghost all = rooms.deep_view();
    let mut k: usize = 0;
    while k < rooms.len()
        invariant
            k <= rooms.len(),
            all == rooms.deep_view(),
            forall|k2: int| 0 <= k2 < k ==> invite_readable(#[trigger] all[k2].1, me@, owner@),
        decreases rooms.len() - k,
    {
        let events = &rooms[k].1.invite_state;
        let ghost evs = all[k as int].1;
        assert(evs == events.deep_view());
        let mut seen = false;
        let mut j: usize = 0;
        while j < events.len()
            invariant
                k < rooms.len(),
                all == rooms.deep_view(),
                j <= events.len(),
                evs == events.deep_view(),
                evs == all[k as int].1,
                seen == exists|j2: int| 0 <= j2 < j && is_acceptance(#[trigger] evs[j2], me@, owner@),
                forall|j2: int|
                    0 <= j2 < j && (#[trigger] evs[j2]) is None ==> exists|j3: int|
                        0 <= j3 < j2 && is_acceptance(#[trigger] evs[j3], me@, owner@),
            decreases events.len() - j,
        {
            if events[j].is_none() && !seen {
                assert(evs[j as int] is None);
                assert(!invites_readable(all, me@, owner@)) by {
                    if invites_readable(all, me@, owner@) {
                        assert(invite_readable(all[k as int].1, me@, owner@));
                        assert(exists|j3: int| 0 <= j3 < j && is_acceptance(#[trigger] evs[j3], me@, owner@));
                    }
                }
                return false;
            }
            let acc = is_acceptance_event(&events[j], me, owner);
            proof {
                if acc {
                    assert(is_acceptance(evs[j as int], me@, owner@));
                }
                assert forall|j2: int|
                    0 <= j2 < j + 1 && (#[trigger] evs[j2]) is None implies exists|j3: int|
                        0 <= j3 < j2 && is_acceptance(#[trigger] evs[j3], me@, owner@) by {
                    if j2 == j {
                        let w = choose|j3: int| 0 <= j3 < j && is_acceptance(#[trigger] evs[j3], me@, owner@);
                        assert(0 <= w < j2);
                    }
                }
            }
            seen = seen || acc;
            j = j + 1;
        }
        assert(invite_readable(all[k as int].1, me@, owner@));
        k = k + 1;
    }
    true
}

/// What `invited` answers for one room, given what the Ctrl-C check said
/// (`cont` is true when no Ctrl-C was seen): a join when the check let the room
/// through and the owner invited the bot, nothing otherwise.
pub open spec fn room_instr(
    room: (Seq<char>, Seq<Option<StrippedStateEventView>>),
    cont: bool,
    me: Seq<char>,
    owner: Seq<char>,
) -> Option<InstructionView> {
    if cont && accepts_invite(room.1, me, owner) {
        Some(InstructionView::AddRoom(room.0))
    } else {
        None
    }
}

/// Answers one invitation, given the answer `cont` of the Ctrl-C check made as
/// the room came up; the invitation is looked at only when `cont` holds.
pub fn invited_room(room: &(String, InvitedRoom), cont: bool, event_args: &EventArgs) -> (r: Option<Instructions>)
    requires
        cont ==> invite_readable(room.1.deep_view(), event_args.me@, event_args.owner@),
    ensures
        r.deep_view() == room_instr(room.deep_view(), cont, event_args.me@, event_args.owner@),
{
    if cont && should_accept_invite(&room.1, event_args) {
        Some(Instructions::AddRoom(room.0.clone()))
    } else {
        None
    }
}

/// Law: the bot accepts an invitation when any event of it, wherever it
/// stands, is the owner's `m.room.member` invite of the bot, and the Ctrl-C
/// check let the room through.
pub proof fn lemma_owner_invite_anywhere_accepted(
    room: (Seq<char>, Seq<Option<StrippedStateEventView>>),
    me: Seq<char>,
    owner: Seq<char>,
    k: int,
)
    requires
        0 <= k < room.1.len(),
        room.1[k] == Some(
            StrippedStateEventView { state_key: me, sender: owner, membership: Some(MembershipState::Invite) },
        ),
    ensures
        room_instr(room, true, me, owner) == Some(InstructionView::AddRoom(room.0)),
{
    assert(is_acceptance(room.1[k], me, owner));
}

/// Law: the bot joins a room it was invited to only when the Ctrl-C check let
/// the room through and some event of the invitation is the owner's
/// `m.room.member` invite of the bot; it then asks to join that very room.
pub proof fn lemma_accepted_only_on_owner_invite(
    room: (Seq<char>, Seq<Option<StrippedStateEventView>>),
    cont: bool,
    me: Seq<char>,
    owner: Seq<char>,
)
    ensures
        room_instr(room, cont, me, owner) is Some ==> {
            &&& cont
            &&& room_instr(room, cont, me, owner) == Some(InstructionView::AddRoom(room.0))
            &&& exists|k: int|
                0 <= k < room.1.len() && #[trigger] room.1[k] == Some(
                    StrippedStateEventView { state_key: me, sender: owner, membership: Some(MembershipState::Invite) },
                )
        },
        !cont ==> room_instr(room, cont, me, owner) is None,
{
    if room_instr(room, cont, me, owner) is Some {
        let k = choose|k: int| 0 <= k < room.1.len() && is_acceptance(#[trigger] room.1[k], me, owner);
        assert(room.1[k] == Some(
            StrippedStateEventView { state_key: me, sender: owner, membership: Some(MembershipState::Invite) },
        ));
    }
}

/// Law: events that are not the owner's invite of the bot, put before or after
/// an invitation's events, do not change the answer for that room.
pub proof fn lemma_other_events_change_nothing(
    id: Seq<char>,
    before: Seq<Option<StrippedStateEventView>>,
    events: Seq<Option<StrippedStateEventView>>,
    after: Seq<Option<StrippedStateEventView>>,
    cont: bool,
    me: Seq<char>,
    owner: Seq<char>,
)
    requires
        forall|k: int|
            0 <= k < before.len() ==> #[trigger] before[k] != Some(
                StrippedStateEventView { state_key: me, sender: owner, membership: Some(MembershipState::Invite) },
            ),
        forall|k: int|
            0 <= k < after.len() ==> #[trigger] after[k] != Some(
                StrippedStateEventView { state_key: me, sender: owner, membership: Some(MembershipState::Invite) },
            ),
    ensures
        room_instr((id, before + events + after), cont, me, owner) == room_instr((id, events), cont, me, owner),
{
    let all = before + events + after;
    let inv = Some(StrippedStateEventView { state_key: me, sender: owner, membership: Some(MembershipState::Invite) });
    if accepts_invite(all, me, owner) {
        let k = choose|k: int| 0 <= k < all.len() && is_acceptance(#[trigger] all[k], me, owner);
        assert(all[k] == inv);
        if k < before.len() {
            assert(all[k] == before[k]);
        } else if k < before.len() + events.len() {
            assert(all[k] == events[k - before.len()]);
            assert(is_acceptance(events[k - before.len()], me, owner));
        } else {
            assert(all[k] == after[k - before.len() - events.len()]);
        }
    }
    if accepts_invite(events, me, owner) {
        let k = choose|k: int| 0 <= k < events.len() && is_acceptance(#[trigger] events[k], me, owner);
        assert(all[k + before.len()] == events[k]);
    }
}

/// The answers of `invited` to its rooms, room after room, when the Ctrl-C
/// checks answered `keep`.
pub open spec fn invited_instrs(
    rooms: Seq<(Seq<char>, Seq<Option<StrippedStateEventView>>)>,
    keep: Seq<bool>,
    me: Seq<char>,
    owner: Seq<char>,
) -> Seq<InstructionView>
    decreases rooms.len(),
{
    if rooms.len() == 0 || keep.len() != rooms.len() {
        seq![]
    } else {
        invited_instrs(rooms.drop_last(), keep.drop_last(), me, owner) + match room_instr(
            rooms.last(),
            keep.last(),
            me,
            owner,
        ) {
            Some(i) => seq![i],
            None => seq![],
        }
    }
}

/// Law: the bot joins a room only on an invitation of its owner, whatever the
/// outcome of the Ctrl-C checks.
pub proof fn lemma_only_owner_invitations(
    rooms: Seq<(Seq<char>, Seq<Option<StrippedStateEventView>>)>,
    keep: Seq<bool>,
    me: Seq<char>,
    owner: Seq<char>,
    id: Seq<char>,
)
    requires
        invited_instrs(rooms, keep, me, owner).contains(InstructionView::AddRoom(id)),
    ensures
        exists|k: int| 0 <= k < rooms.len() && rooms[k].0 == id && accepts_invite(rooms[k].1, me, owner),
    decreases rooms.len(),
{
    let r = invited_instrs(rooms, keep, me, owner);
    if rooms.len() > 0 && keep.len() == rooms.len() {
        let p = invited_instrs(rooms.drop_last(), keep.drop_last(), me, owner);
        let j = choose|j: int| 0 <= j < r.len() && r[j] == InstructionView::AddRoom(id);
        if j < p.len() {
            assert(r[j] == p[j]);
            lemma_only_owner_invitations(rooms.drop_last(), keep.drop_last(), me, owner, id);
            let k = choose|k: int|
                0 <= k < rooms.drop_last().len() && rooms.drop_last()[k].0 == id && accepts_invite(
                    rooms.drop_last()[k].1,
                    me,
                    owner,
                );
            assert(rooms[k] == rooms.drop_last()[k]);
        } else {
            assert(rooms[rooms.len() - 1] == rooms.last());
        }
    }
}

/// Law: when no Ctrl-C is seen, the bot joins every room that its owner
/// invited it to.
pub proof fn lemma_owner_invitations_joined(
    rooms: Seq<(Seq<char>, Seq<Option<StrippedStateEventView>>)>,
    keep: Seq<bool>,
    me: Seq<char>,
    owner: Seq<char>,
    k: int,
)
    requires
        keep.len() == rooms.len(),
        forall|j: int| 0 <= j < keep.len() ==> #[trigger] keep[j],
        0 <= k < rooms.len(),
        accepts_invite(rooms[k].1, me, owner),
    ensures
        invited_instrs(rooms, keep, me, owner).contains(InstructionView::AddRoom(rooms[k].0)),
    decreases rooms.len(),
{
    let r = invited_instrs(rooms, keep, me, owner);
    let p = invited_instrs(rooms.drop_last(), keep.drop_last(), me, owner);
    if k < rooms.len() - 1 {
        assert(rooms.drop_last()[k] == rooms[k]);
        assert forall|j: int| 0 <= j < keep.drop_last().len() implies #[trigger] keep.drop_last()[j] by {
            assert(keep.drop_last()[j] == keep[j]);
        }
        lemma_owner_invitations_joined(rooms.drop_last(), keep.drop_last(), me, owner, k);
        let w = choose|w: int| 0 <= w < p.len() && p[w] == InstructionView::AddRoom(rooms[k].0);
        assert(r[w] == p[w]);
    } else {
        assert(keep.last() == keep[k]);
        assert(rooms.last() == rooms[k]);
        assert(r[p.len() as int] == InstructionView::AddRoom(rooms[k].0));
    }
}

/// What `invited` may answer to room updates of any kind, for some outcome of
/// the Ctrl-C checks.
pub open spec fn invited_outcome(
    r: Seq<InstructionView>,
    data: RoomTypeDataView,
    me: Seq<char>,
    owner: Seq<char>,
) -> bool {
    match data {
        RoomTypeDataView::Invited(rooms) => exists|keep: Seq<bool>|
            keep.len() == rooms.len() && r == invited_instrs(rooms, keep, me, owner),
        _ => r == Seq::<InstructionView>::empty(),
    }
}

/// Asks to join each room that the owner invited the bot to, unless Ctrl-C
/// was seen when that room came up.
pub fn main(event_args: &EventArgs) -> (r: Vec<Instructions>)
    requires
        crate::instruction_generators::handlers_ready(event_args.deep_view()),
    ensures
        invited_outcome(r.deep_view(), event_args.room_data.deep_view(), event_args.me@, event_args.owner@),
{
    let mut instructions: Vec<Instructions> = Vec::new();
    if let RoomTypeData::Invited(x) = &event_args.room_data {
        let ghost rooms = x.deep_view();
        let ghost mut keep: Seq<bool> = seq![];
        let mut i: usize = 0;
        while i < x.len()
            invariant
                i <= x.len(),
                rooms == x.deep_view(),
                invites_readable(rooms, event_args.me@, event_args.owner@),
                keep.len() == i,
                instructions.deep_view() == invited_instrs(rooms.take(i as int), keep, event_args.me@, event_args.owner@),
            decreases x.len() - i,
        {
            assert(invite_readable(rooms[i as int].1, event_args.me@, event_args.owner@));
            let cont = should_continue(event_args.ctrlc_handler);
            let answer = invited_room(&x[i], cont, event_args);
            let ghost before = instructions.deep_view();
            match answer {
                Some(add) => {
                    instructions.push(add);
                    assert(instructions.deep_view() =~= before.push(InstructionView::AddRoom(rooms[i as int].0)));
                },
                None => {},
            }
            proof {
                let t = rooms.take(i + 1);
                assert(t.drop_last() == rooms.take(i as int));
                assert(t.last() == rooms[i as int]);
                let old_keep = keep;
                keep = keep.push(cont);
                assert(keep.drop_last() =~= old_keep);
                assert(before == invited_instrs(t.drop_last(), keep.drop_last(), event_args.me@, event_args.owner@));
                if cont && accepts_invite(rooms[i as int].1, event_args.me@, event_args.owner@) {
                    assert(instructions.deep_view() =~= before + seq![InstructionView::AddRoom(rooms[i as int].0)]);
                } else {
                    assert(instructions.deep_view() =~= before + Seq::<InstructionView>::empty());
                }
                assert(instructions.deep_view() == invited_instrs(t, keep, event_args.me@, event_args.owner@));
            }
            i = i + 1;
        }
        assert(rooms.take(x.len() as int) == rooms);
        assert(keep.len() == rooms.len() && instructions.deep_view() == invited_instrs(rooms, keep, event_args.me@, event_args.owner@));
    } else {
        assert(instructions.deep_view() =~= Seq::<InstructionView>::empty());
    }
    instructions
}

/// The help text of `invited`.
pub fn help() -> (r: String)
    ensures
        r@ == HELP_TEXT@,
{
    String::from_str(HELP_TEXT)
}

} // verus!
