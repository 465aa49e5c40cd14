//! The bot itself: its state, the requests it makes, and how it carries out
//! the instructions its handlers give.
use vstd::prelude::*;
use vstd::string::*;
use vstd::utf8::encode_utf8;
use ctrlc_handler::CtrlCHandler;
use crate::{
    EventArgs, EventArgsView, EventResponse, Instructions, InstructionView, StorageData, Step,
    StepView, append_steps, push_step,
};
use crate::bindings::{
    is_lower_hex, new_txid, parse_room_id, parse_user_id, percent_encoded, room_id_valid, should_continue, url_encode,
    user_id_valid,
};
use crate::essentials::on_event::joined::{room_answerable, rooms_answerable, joined_ready};
use crate::essentials::on_event::invited::invitations_readable;
use crate::names::ids_in_order;
use crate::instruction_generators::{
    handlers_ready, ids_of, handle_rooms, rooms_outcome, sets_no_token, lemma_handlers_keep_batch_token,
    lemma_rooms_outcome_fits, RoomTypeData,
    RoomTypeDataView,
};
use crate::essentials::on_message::{answers_for, lemma_commands_answer_in_room, splice};
use crate::text::{
    cat, cat3, chars_of, same_text, starts_with_text, string_of_range, trim_end, trim_end_char,
    words, words_of,
};
use crate::essentials::on_event::joined::{body_of, is_command, joined_answers, lemma_joined_answers_join_own, step_fits};
use crate::essentials::on_event::invited::{accepts_invite, invited_instrs, is_acceptance, lemma_only_owner_invitations};
use crate::essentials::on_event::left::left_instrs;
use crate::do_steps;
use crate::{JoinedRoom, TimelineEvent, TimelineEventView};

verus! {

/// The path of the client-server API.
pub const BASE: &'static str = "/_matrix/client/v3/";

/// How long the bot may stay without answering before it shows as away:
/// three minutes, in nanoseconds.
pub const TIME_TO_IDLE: u64 = 180_000_000_000;

/// The presence the bot announces.
#[derive(PartialEq, Eq, Structural, Debug, Clone, Copy)]
pub enum PresenceState {
    Online,
    Unavailable,
}

/// The presence as the API writes it.
pub open spec fn presence_word(p: PresenceState) -> Seq<char> {
    match p {
        PresenceState::Online => "online"@,
        PresenceState::Unavailable => "unavailable"@,
    }
}

/// The presence as the API writes it.
pub fn presence_text(p: PresenceState) -> (r: String)
    ensures
        r@ == presence_word(p),
{
    match p {
        PresenceState::Online => String::from_str("online"),
        PresenceState::Unavailable => String::from_str("unavailable"),
    }
}

/// The presence `now` for a bot that last answered at `last`: away once more
/// than three minutes have passed.
pub open spec fn presence_at(last: u64, now: u64) -> PresenceState {
    if now > last && now - last > TIME_TO_IDLE {
        PresenceState::Unavailable
    } else {
        PresenceState::Online
    }
}

/// Something the program around the bot has to do.
#[derive(PartialEq, Eq, Debug, Clone)]
pub enum Action {
    /// End the program at once.
    Exit,
    /// Join the room (a `POST` to `join_path` of it).
    JoinRoom(String),
    /// Send the text to the room.
    SendMessage(String, String),
}

pub enum ActionView {
    Exit,
    JoinRoom(Seq<char>),
    SendMessage(Seq<char>, Seq<char>),
}

impl DeepView for Action {
    type V = ActionView;

    open spec fn deep_view(&self) -> ActionView {
        match self {
            Action::Exit => ActionView::Exit,
            Action::JoinRoom(r) => ActionView::JoinRoom(r@),
            Action::SendMessage(r, m) => ActionView::SendMessage(r@, m@),
        }
    }
}

/// The state of a bot.
pub struct BotView {
    pub auth_token: Seq<char>,
    pub host: Seq<char>,
    pub me: Seq<char>,
    pub joined_rooms: Seq<Seq<char>>,
    pub since: Option<Seq<char>>,
    pub last_response_time: u64,
    pub starting: bool,
    pub cleanup_on_ctrlc: bool,
    pub prefix: Seq<char>,
    pub owner: Seq<char>,
}

/// A Matrix bot.
pub struct SonicBot {
    data: StorageData,
    host: String,
    me: String,
    joined_rooms: Vec<String>,
    since: Option<String>,
    last_response_time: u64,
    starting: bool,
    ctrlc_handler: CtrlCHandler,
    cleanup_on_ctrlc: bool,
    prefix: String,
    owner: String,
}

impl DeepView for SonicBot {
    type V = BotView;

    closed spec fn deep_view(&self) -> BotView {
        BotView {
            auth_token: self.data.auth_token@,
            host: self.host@,
            me: self.me@,
            joined_rooms: self.joined_rooms.deep_view(),
            since: self.since.deep_view(),
            last_response_time: self.last_response_time,
            starting: self.starting,
            cleanup_on_ctrlc: self.cleanup_on_ctrlc,
            prefix: self.prefix@,
            owner: self.owner@,
        }
    }
}

/// The user ID `@username:server_name`.
pub open spec fn user_id_text(username: Seq<char>, server_name: Seq<char>) -> Seq<char> {
    "@"@ + username + ":"@ + server_name
}

/// The localpart of a user ID: what stands between the `@` and the first `:`.
pub open spec fn localpart(id: Seq<char>) -> Seq<char> {
    let colon = choose|k: int| 1 <= k < id.len() && id[k] == ':' && forall|m: int| 1 <= m < k ==> id[m] != ':';
    id.subrange(1, colon)
}

// ---------------------------------------------------------------------------
// What the instructions do
// ---------------------------------------------------------------------------

/// The joined rooms after a `DelRoom(x)`: only those equal to `x` stay.
pub open spec fn keep_only(rooms: Seq<Seq<char>>, x: Seq<char>) -> Seq<Seq<char>> {
    rooms.filter(|z: Seq<char>| z == x)
}

/// One instruction carried out: the new state, the actions it asks for, and
/// whether it stops the processing.
pub open spec fn apply(s: BotView, i: InstructionView) -> (BotView, Seq<ActionView>, bool) {
    match i {
        InstructionView::Quit(_) => (s, seq![], true),
        InstructionView::DelRoom(x) => (BotView { joined_rooms: keep_only(s.joined_rooms, x), ..s }, seq![], false),
        InstructionView::AddRoom(x) => if s.joined_rooms.contains(x) {
            (s, seq![], false)
        } else {
            (BotView { joined_rooms: s.joined_rooms.push(x), ..s }, seq![ActionView::JoinRoom(x)], false)
        },
        InstructionView::UpdateLastResponseTime(t) => (BotView { last_response_time: t, ..s }, seq![], false),
        InstructionView::SetSince(x) => (BotView { since: Some(x), ..s }, seq![], false),
        InstructionView::SendMessage(r, m) => (s, seq![ActionView::SendMessage(r, m)], false),
    }
}

/// The instructions from position `i` on, carried out in order until a
/// `Quit`, which ends the processing with `"QUIT"`.
pub open spec fn run_from(s: BotView, instrs: Seq<InstructionView>, i: int) -> (BotView, Seq<ActionView>, Option<Seq<char>>)
    decreases instrs.len() - i,
{
    if i < 0 || i >= instrs.len() {
        (s, seq![], None)
    } else {
        let (s1, a1, stop) = apply(s, instrs[i]);
        if stop {
            (s1, a1, Some("QUIT"@))
        } else {
            let (s2, a2, q) = run_from(s1, instrs, i + 1);
            (s2, a1 + a2, q)
        }
    }
}

/// Processing a batch of instructions: a `Quit(false)` anywhere in it ends the
/// program before anything else is done; otherwise the instructions are
/// carried out in order.
pub open spec fn process(s: BotView, instrs: Seq<InstructionView>) -> (BotView, Seq<ActionView>, Option<Seq<char>>) {
    if instrs.contains(InstructionView::Quit(false)) {
        (s, seq![ActionView::Exit], None)
    } else {
        run_from(s, instrs, 0)
    }
}

pub proof fn lemma_filter_push(s: Seq<Seq<char>>, e: Seq<char>, x: Seq<char>)
    ensures
        keep_only(s.push(e), x) == if e == x { keep_only(s, x).push(e) } else { keep_only(s, x) },
{
    reveal(Seq::filter);
    assert(s.push(e).drop_last() == s);
}

/// Whether `x` is one of `v`.
fn contains_text(v: &Vec<String>, x: &String) -> (r: bool)
    ensures
        r == v.deep_view().contains(x@),
{
    let mut i: usize = 0;
    while i < v.len()
        invariant
            i <= v.len(),
            forall|k: int| 0 <= k < i ==> v.deep_view()[k] != x@,
        decreases v.len() - i,
    {
        if same_text(&v[i], x) {
            assert(v.deep_view()[i as int] == x@);
            return true;
        }
        i = i + 1;
    }
    false
}

/// The strings of `v` equal to `x`.
fn keep_equal(v: &Vec<String>, x: &String) -> (r: Vec<String>)
    ensures
        r.deep_view() == keep_only(v.deep_view(), x@),
{
    let mut r: Vec<String> = Vec::new();
    let mut i: usize = 0;
    let ghost all = v.deep_view();
    proof {
        reveal(Seq::filter);
        assert(all.take(0) =~= Seq::<Seq<char>>::empty());
    }
    while i < v.len()
        invariant
            i <= v.len(),
            all == v.deep_view(),
            r.deep_view() == keep_only(all.take(i as int), x@),
        decreases v.len() - i,
    {
        proof {
            lemma_filter_push(all.take(i as int), all[i as int], x@);
            assert(all.take(i + 1) == all.take(i as int).push(all[i as int]));
        }
        if same_text(&v[i], x) {
            let ghost before = r.deep_view();
            r.push(v[i].clone());
            assert(r.deep_view() =~= before.push(all[i as int]));
        }
        i = i + 1;
    }
    assert(all.take(v.len() as int) == all);
    r
}

/// Whether the instructions hold a `Quit(false)`.
fn has_quit_without_cleanup(instructions: &Vec<Instructions>) -> (r: bool)
    ensures
        r == instructions.deep_view().contains(InstructionView::Quit(false)),
{
    let mut i: usize = 0;
    while i < instructions.len()
        invariant
            i <= instructions.len(),
            forall|k: int| 0 <= k < i ==> instructions.deep_view()[k] != InstructionView::Quit(false),
        decreases instructions.len() - i,
    {
        if let Instructions::Quit(b) = &instructions[i] {
            if !*b {
                assert(instructions.deep_view()[i as int] == InstructionView::Quit(false));
                return true;
            }
        }
        i = i + 1;
    }
    false
}

fn push_action(actions: &mut Vec<Action>, a: Action)
    ensures
        final(actions).deep_view() == old(actions).deep_view().push(a.deep_view()),
{
    let ghost av = a.deep_view();
    let ghost before = actions.deep_view();
    actions.push(a);
    assert(actions.deep_view() =~= before.push(av));
}

/// The query of a `/sync`: from the last batch token when there is one (then
/// not the full state), announcing the presence, waiting three seconds.
pub open spec fn sync_params(since: Option<Seq<char>>, presence: Seq<char>) -> Seq<(Seq<char>, Seq<char>)> {
    let tail = seq![("set_presence"@, presence), ("timeout"@, "3000"@)];
    match since {
        Some(start) => seq![("since"@, start), ("full_state"@, "false"@)] + tail,
        None => seq![("full_state"@, "true"@)] + tail,
    }
}

/// Law: the `/sync` query announces the bot as `unavailable` once more than
/// three minutes (in nanoseconds) have passed since it last answered, and as `online`
/// otherwise; it asks from the last batch token when there is one.
pub proof fn lemma_sync_query_presence(since: Option<Seq<char>>, last: u64, now: u64)
    ensures
        ({
            let q = sync_params(since, presence_word(presence_at(last, now)));
            &&& now > last && now - last > 180_000_000_000 ==> q.contains(("set_presence"@, "unavailable"@))
            &&& !(now > last && now - last > 180_000_000_000) ==> q.contains(("set_presence"@, "online"@))
            &&& !q.contains(("set_presence"@, "online"@)) || !q.contains(("set_presence"@, "unavailable"@))
            &&& since matches Some(t) ==> q[0] == ("since"@, t) && q[1] == ("full_state"@, "false"@)
            &&& since is None ==> q[0] == ("full_state"@, "true"@)
        }),
{
    let p = presence_word(presence_at(last, now));
    let q = sync_params(since, p);
    let at: int = if since is Some { 2 } else { 1 };
    assert(q[at] == ("set_presence"@, p));
    reveal_strlit("online");
    reveal_strlit("unavailable");
    reveal_strlit("set_presence");
    reveal_strlit("since");
    reveal_strlit("full_state");
    reveal_strlit("timeout");
    assert forall|k: int| 0 <= k < q.len() && #[trigger] q[k].0 == "set_presence"@ implies k == at by {
        if k != at {
            assert(q[k].0.len() != "set_presence"@.len() || q[k].0[0] != 's' || q[k].0[1] != 'e');
        }
    }
    if q.contains(("set_presence"@, "online"@)) && q.contains(("set_presence"@, "unavailable"@)) {
        let i = choose|i: int| 0 <= i < q.len() && q[i] == ("set_presence"@, "online"@);
        let j = choose|j: int| 0 <= j < q.len() && q[j] == ("set_presence"@, "unavailable"@);
        assert(q[i].0 == "set_presence"@);
        assert(q[j].0 == "set_presence"@);
        assert("online"@.len() != "unavailable"@.len());
    }
}

/// The arguments the handlers get from a bot in state `s`.
pub open spec fn event_args_view(s: BotView, data: RoomTypeDataView, now: u64) -> EventArgsView {
    EventArgsView {
        room_data: data,
        starting: s.starting,
        cleanup_on_ctrlc: s.cleanup_on_ctrlc,
        owner: s.owner,
        prefix: s.prefix,
        me: s.me,
        now,
    }
}

/// What the handlers need of a sync's room updates (see `handlers_ready`).
pub open spec fn sync_ready(
    s: BotView,
    join: Seq<(Seq<char>, Seq<crate::TimelineEventView>)>,
    leave: Seq<(Seq<char>, ())>,
    invite: Seq<(Seq<char>, Seq<Option<crate::StrippedStateEventView>>)>,
    now: u64,
) -> bool {
    &&& handlers_ready(event_args_view(s, RoomTypeDataView::Joined(join), now))
    &&& handlers_ready(event_args_view(s, RoomTypeDataView::Left(leave), now))
    &&& handlers_ready(event_args_view(s, RoomTypeDataView::Invited(invite), now))
}

/// What the bot may answer to a sync: `SetSince` of its batch token, then the
/// handlers' answers to the joined, the left and the invited rooms.
pub open spec fn sync_outcome(
    r: Seq<StepView>,
    s: BotView,
    next_batch: Seq<char>,
    join: Seq<(Seq<char>, Seq<crate::TimelineEventView>)>,
    leave: Seq<(Seq<char>, ())>,
    invite: Seq<(Seq<char>, Seq<Option<crate::StrippedStateEventView>>)>,
    now: u64,
) -> bool {
    exists|r1: Seq<StepView>, r2: Seq<StepView>, r3: Seq<StepView>|
        r == seq![StepView::Do(InstructionView::SetSince(next_batch))] + r1 + r2 + r3
            && rooms_outcome(r1, event_args_view(s, RoomTypeDataView::Joined(join), now))
            && rooms_outcome(r2, event_args_view(s, RoomTypeDataView::Left(leave), now))
            && rooms_outcome(r3, event_args_view(s, RoomTypeDataView::Invited(invite), now))
}

/// Law: the handlers answer a sync with the bot's own settings. A `Quit` in
/// the answer carries the bot's Ctrl-C setting, and every command the answer
/// runs gets the bot's owner, prefix and Ctrl-C setting, comes from a message
/// that someone other than the bot sent, and comes only once the bot has
/// started.
#[verifier::spinoff_prover]
#[verifier::rlimit(40)]
pub proof fn lemma_sync_answer_uses_bot_settings(
    r: Seq<StepView>,
    s: BotView,
    next_batch: Seq<char>,
    join: Seq<(Seq<char>, Seq<crate::TimelineEventView>)>,
    leave: Seq<(Seq<char>, ())>,
    invite: Seq<(Seq<char>, Seq<Option<crate::StrippedStateEventView>>)>,
    now: u64,
)
    requires
        sync_outcome(r, s, next_batch, join, leave, invite, now),
    ensures
        forall|k: int|
            0 <= k < r.len() ==> (#[trigger] r[k] matches StepView::Do(InstructionView::Quit(b)) ==> b
                == s.cleanup_on_ctrlc),
        forall|k: int|
            0 <= k < r.len() ==> (#[trigger] r[k] matches StepView::Run(_, ma) ==> {
                &&& !s.starting
                &&& ma.owner == s.owner
                &&& ma.prefix == s.prefix
                &&& ma.cleanup_on_ctrlc == s.cleanup_on_ctrlc
                &&& ma.message_info.sender != s.me
            }),
{
    let (r1, r2, r3) = choose|r1: Seq<StepView>, r2: Seq<StepView>, r3: Seq<StepView>|
        r == seq![StepView::Do(InstructionView::SetSince(next_batch))] + r1 + r2 + r3
            && rooms_outcome(r1, event_args_view(s, RoomTypeDataView::Joined(join), now))
            && rooms_outcome(r2, event_args_view(s, RoomTypeDataView::Left(leave), now))
            && rooms_outcome(r3, event_args_view(s, RoomTypeDataView::Invited(invite), now));
    let a1 = event_args_view(s, RoomTypeDataView::Joined(join), now);
    let a2 = event_args_view(s, RoomTypeDataView::Left(leave), now);
    let a3 = event_args_view(s, RoomTypeDataView::Invited(invite), now);
    lemma_rooms_outcome_fits(r1, a1);
    lemma_rooms_outcome_fits(r2, a2);
    lemma_rooms_outcome_fits(r3, a3);
    assert forall|k: int| 0 <= k < r.len() implies {
        &&& (#[trigger] r[k] matches StepView::Do(InstructionView::Quit(b)) ==> b == s.cleanup_on_ctrlc)
        &&& (r[k] matches StepView::Run(_, ma) ==> {
            &&& !s.starting
            &&& ma.owner == s.owner
            &&& ma.prefix == s.prefix
            &&& ma.cleanup_on_ctrlc == s.cleanup_on_ctrlc
            &&& ma.message_info.sender != s.me
        })
    } by {
        if k == 0 {
        } else if k < 1 + r1.len() {
            assert(r[k] == r1[k - 1]);
            assert(step_fits(r1[k - 1], a1));
        } else if k < 1 + r1.len() + r2.len() {
            assert(r[k] == r2[k - 1 - r1.len()]);
            assert(step_fits(r2[k - 1 - r1.len()], a2));
        } else {
            assert(r[k] == r3[k - 1 - r1.len() - r2.len()]);
            assert(step_fits(r3[k - 1 - r1.len() - r2.len()], a3));
        }
    }
}

/// Law: the answer to a sync joins only rooms of that sync: a joined room, or
/// an invited room whose invitation holds the bot's owner's `m.room.member`
/// invite of the bot itself.
#[verifier::spinoff_prover]
#[verifier::rlimit(40)]
pub proof fn lemma_sync_answer_joins(
    r: Seq<StepView>,
    s: BotView,
    next_batch: Seq<char>,
    join: Seq<(Seq<char>, Seq<crate::TimelineEventView>)>,
    leave: Seq<(Seq<char>, ())>,
    invite: Seq<(Seq<char>, Seq<Option<crate::StrippedStateEventView>>)>,
    now: u64,
    k: int,
    x: Seq<char>,
)
    requires
        sync_outcome(r, s, next_batch, join, leave, invite, now),
        0 <= k < r.len(),
        r[k] == StepView::Do(InstructionView::AddRoom(x)),
    ensures
        (exists|j: int| 0 <= j < join.len() && join[j].0 == x) || exists|j: int, e: int|
            0 <= j < invite.len() && invite[j].0 == x && 0 <= e < invite[j].1.len() && #[trigger] invite[j].1[e]
                == Some(
                crate::StrippedStateEventView {
                    state_key: s.me,
                    sender: s.owner,
                    membership: Some(crate::MembershipState::Invite),
                },
            ),
{
    let (r1, r2, r3) = choose|r1: Seq<StepView>, r2: Seq<StepView>, r3: Seq<StepView>|
        r == seq![StepView::Do(InstructionView::SetSince(next_batch))] + r1 + r2 + r3
            && rooms_outcome(r1, event_args_view(s, RoomTypeDataView::Joined(join), now))
            && rooms_outcome(r2, event_args_view(s, RoomTypeDataView::Left(leave), now))
            && rooms_outcome(r3, event_args_view(s, RoomTypeDataView::Invited(invite), now));
    let a1 = event_args_view(s, RoomTypeDataView::Joined(join), now);
    let a3 = event_args_view(s, RoomTypeDataView::Invited(invite), now);
    if k == 0 {
    } else if k < 1 + r1.len() {
        assert(r[k] == r1[k - 1]);
        let keep = choose|keep: Seq<bool>| keep.len() == join.len() && r1 == joined_answers(join, keep, a1);
        lemma_joined_answers_join_own(join, keep, a1);
        assert(r1[k - 1] matches StepView::Do(InstructionView::AddRoom(y)) && y == x);
    } else if k < 1 + r1.len() + r2.len() {
        assert(r[k] == r2[k - 1 - r1.len()]);
        assert(r2[k - 1 - r1.len()] == StepView::Do(left_instrs(leave)[k - 1 - r1.len()]));
    } else {
        let m = k - 1 - r1.len() - r2.len();
        assert(r[k] == r3[m]);
        let keep = choose|keep: Seq<bool>|
            keep.len() == invite.len() && r3 == do_steps(invited_instrs(invite, keep, a3.me, a3.owner));
        let v = invited_instrs(invite, keep, a3.me, a3.owner);
        assert(r3[m] == StepView::Do(v[m]));
        assert(v.contains(InstructionView::AddRoom(x)));
        lemma_only_owner_invitations(invite, keep, a3.me, a3.owner, x);
        let j = choose|j: int| 0 <= j < invite.len() && invite[j].0 == x && accepts_invite(invite[j].1, a3.me, a3.owner);
        let e = choose|e: int| 0 <= e < invite[j].1.len() && is_acceptance(#[trigger] invite[j].1[e], a3.me, a3.owner);
        assert(invite[j].1[e] == Some(
            crate::StrippedStateEventView {
                state_key: s.me,
                sender: s.owner,
                membership: Some(crate::MembershipState::Invite),
            },
        ));
    }
}

/// The path that joins a room: its ID percent-encoded.
pub open spec fn join_path_of(room_id: Seq<char>) -> Seq<char> {
    "rooms/"@ + percent_encoded(encode_utf8(room_id)) + "/join"@
}

/// The path of a room alias in the room directory.
pub open spec fn directory_path_of(alias: Seq<char>) -> Seq<char> {
    "directory/room/"@ + percent_encoded(encode_utf8(alias))
}

/// The path that sends a text message to a room with transaction ID `txid`.
pub open spec fn send_path_of(room_id: Seq<char>, txid: Seq<char>) -> Seq<char> {
    "rooms/"@ + room_id + "/send/m.room.message/"@ + txid
}

/// The path that joins `room_id`.
pub fn join_path(room_id: &str) -> (r: String)
    ensures
        r@ == join_path_of(room_id@),
{
    let encoded = url_encode(room_id);
    cat3("rooms/", encoded.as_str(), "/join")
}

/// The path that looks a room alias up in the room directory.
pub fn directory_path(alias: &str) -> (r: String)
    ensures
        r@ == directory_path_of(alias@),
{
    let encoded = url_encode(alias);
    cat("directory/room/", encoded.as_str())
}

/// The path that sends a text message.
pub fn send_path(room_id: &str, txid: &str) -> (r: String)
    ensures
        r@ == send_path_of(room_id@, txid@),
{
    let head = cat3("rooms/", room_id, "/send/m.room.message/");
    cat(head.as_str(), txid)
}

/// A transaction ID as the bot makes them: 32 lower-case hex digits.
pub open spec fn is_txid(t: Seq<char>) -> bool {
    t.len() == 32 && forall|i: int| 0 <= i < t.len() ==> is_lower_hex(#[trigger] t[i])
}

/// The path that sends a text message to `room_id`, under a new random
/// transaction ID.
pub fn fresh_send_path(room_id: &str) -> (r: String)
    ensures
        exists|t: Seq<char>| is_txid(t) && r@ == send_path_of(room_id@, t),
{
    let txid = new_txid();
    let r = send_path(room_id, txid.as_str());
    assert(is_txid(txid@) && r@ == send_path_of(room_id@, txid@));
    r
}

/// `keep_only` keeps no more than it was given.
pub proof fn lemma_keep_only_subset(s: Seq<Seq<char>>, x: Seq<char>)
    ensures
        forall|e: Seq<char>| keep_only(s, x).contains(e) ==> s.contains(e) && e == x,
    decreases s.len(),
{
    if s.len() > 0 {
        lemma_keep_only_subset(s.drop_last(), x);
        lemma_filter_push(s.drop_last(), s.last(), x);
        assert(s.drop_last().push(s.last()) == s);
        let p = s.drop_last();
        assert forall|e: Seq<char>| keep_only(s, x).contains(e) implies s.contains(e) && e == x by {
            if keep_only(p, x).contains(e) {
                assert(p.contains(e) && e == x);
                let k = choose|k: int| 0 <= k < p.len() && p[k] == e;
                assert(s[k] == e);
            } else {
                let f = keep_only(s, x);
                let k = choose|k: int| 0 <= k < f.len() && f[k] == e;
                if s.last() == x {
                    assert(f == keep_only(p, x).push(s.last()));
                    if k < keep_only(p, x).len() {
                        assert(keep_only(p, x)[k] == e);
                    }
                    assert(e == s.last());
                    assert(s[s.len() - 1] == e);
                } else {
                    assert(f == keep_only(p, x));
                }
            }
        }
    } else {
        reveal(Seq::filter);
    }
}

/// `keep_only` keeps a sequence free of duplicates.
pub proof fn lemma_keep_only_distinct(s: Seq<Seq<char>>, x: Seq<char>)
    requires
        s.no_duplicates(),
    ensures
        keep_only(s, x).no_duplicates(),
    decreases s.len(),
{
    if s.len() > 0 {
        let p = s.drop_last();
        assert(p.no_duplicates());
        lemma_keep_only_distinct(p, x);
        lemma_keep_only_subset(p, x);
        lemma_filter_push(p, s.last(), x);
        assert(p.push(s.last()) == s);
        if s.last() == x {
            assert(!p.contains(s.last())) by {
                if p.contains(s.last()) {
                    let k = choose|k: int| 0 <= k < p.len() && p[k] == s.last();
                    assert(s[k] == s[s.len() - 1]);
                }
            }
            assert(!keep_only(p, x).contains(s.last()));
        }
    } else {
        reveal(Seq::filter);
    }
}

/// One instruction keeps the joined rooms free of duplicates.
pub proof fn lemma_apply_distinct(s: BotView, i: InstructionView)
    requires
        s.joined_rooms.no_duplicates(),
    ensures
        apply(s, i).0.joined_rooms.no_duplicates(),
{
    match i {
        InstructionView::DelRoom(x) => lemma_keep_only_distinct(s.joined_rooms, x),
        _ => {},
    }
}

/// Carrying out instructions keeps the joined rooms free of duplicates.
pub proof fn lemma_run_from_distinct(s: BotView, instrs: Seq<InstructionView>, i: int)
    requires
        s.joined_rooms.no_duplicates(),
    ensures
        run_from(s, instrs, i).0.joined_rooms.no_duplicates(),
    decreases instrs.len() - i,
{
    if 0 <= i < instrs.len() {
        lemma_apply_distinct(s, instrs[i]);
        let (s1, a1, stop) = apply(s, instrs[i]);
        if !stop {
            lemma_run_from_distinct(s1, instrs, i + 1);
        }
    }
}

/// Law: the bot never records a room twice, whatever instructions it is given.
pub proof fn lemma_process_keeps_rooms_distinct(s: BotView, instrs: Seq<InstructionView>)
    requires
        s.joined_rooms.no_duplicates(),
    ensures
        process(s, instrs).0.joined_rooms.no_duplicates(),
{
    lemma_run_from_distinct(s, instrs, 0);
}

/// Law: a batch holding `Quit(false)` ends the program and changes nothing
/// else, whatever comes before or after it.
pub proof fn lemma_quit_without_cleanup_exits(s: BotView, instrs: Seq<InstructionView>)
    requires
        instrs.contains(InstructionView::Quit(false)),
    ensures
        process(s, instrs) == (s, seq![ActionView::Exit], Option::<Seq<char>>::None),
{
}

/// Law: asking twice to add a room does what asking once does.
pub proof fn lemma_add_room_idempotent(s: BotView, x: Seq<char>)
    ensures
        process(s, seq![InstructionView::AddRoom(x), InstructionView::AddRoom(x)]) == process(
            s,
            seq![InstructionView::AddRoom(x)],
        ),
{
    let two = seq![InstructionView::AddRoom(x), InstructionView::AddRoom(x)];
    let one = seq![InstructionView::AddRoom(x)];
    assert(!two.contains(InstructionView::Quit(false))) by {
        if two.contains(InstructionView::Quit(false)) {
            let k = choose|k: int| 0 <= k < two.len() && two[k] == InstructionView::Quit(false);
        }
    }
    assert(!one.contains(InstructionView::Quit(false))) by {
        if one.contains(InstructionView::Quit(false)) {
            let k = choose|k: int| 0 <= k < one.len() && one[k] == InstructionView::Quit(false);
        }
    }
    let (s1, a1, st) = apply(s, InstructionView::AddRoom(x));
    assert(s1.joined_rooms.contains(x)) by {
        if !s.joined_rooms.contains(x) {
            assert(s1.joined_rooms[s1.joined_rooms.len() - 1] == x);
        }
    }
    assert(!st);
    assert(two[0] == InstructionView::AddRoom(x));
    assert(two[1] == InstructionView::AddRoom(x));
    assert(one[0] == InstructionView::AddRoom(x));
    assert(apply(s1, InstructionView::AddRoom(x)) == (s1, Seq::<ActionView>::empty(), false));
    assert(run_from(s1, two, 2) == (s1, Seq::<ActionView>::empty(), Option::<Seq<char>>::None));
    assert(run_from(s1, one, 1) == (s1, Seq::<ActionView>::empty(), Option::<Seq<char>>::None));
    assert(run_from(s1, two, 1) == (s1, Seq::<ActionView>::empty() + Seq::<ActionView>::empty(), Option::<Seq<char>>::None));
    assert(Seq::<ActionView>::empty() + Seq::<ActionView>::empty() =~= Seq::<ActionView>::empty());
    assert(run_from(s, two, 0) == (s1, a1 + Seq::<ActionView>::empty(), Option::<Seq<char>>::None));
    assert(run_from(s, one, 0) == (s1, a1 + Seq::<ActionView>::empty(), Option::<Seq<char>>::None));
}

/// The instructions hold no `Quit`.
pub open spec fn no_quit(instrs: Seq<InstructionView>) -> bool {
    forall|k: int| 0 <= k < instrs.len() ==> !(#[trigger] instrs[k] is Quit)
}

proof fn lemma_run_to_last(s: BotView, instrs: Seq<InstructionView>, last: InstructionView, i: int)
    requires
        no_quit(instrs),
        !(last is Quit),
        0 <= i <= instrs.len(),
    ensures
        ({
            let t = run_from(s, instrs.push(last), i);
            let u = run_from(s, instrs, i);
            t.0 == apply(u.0, last).0 && t.2 is None
        }),
    decreases instrs.len() - i,
{
    let full = instrs.push(last);
    if i < instrs.len() {
        assert(full[i] == instrs[i]);
        assert(!(instrs[i] is Quit));
        let (s1, a1, stop) = apply(s, instrs[i]);
        lemma_run_to_last(s1, instrs, last, i + 1);
    } else {
        assert(full[i] == last);
        let (s1, a1, stop) = apply(s, last);
        assert(run_from(s1, full, i + 1) == (s1, Seq::<ActionView>::empty(), Option::<Seq<char>>::None));
    }
}

/// Law: after a batch that ends with `SetSince(x)` and holds no `Quit`, the
/// next sync starts from `x`.
pub proof fn lemma_since_after_set(s: BotView, instrs: Seq<InstructionView>, x: Seq<char>)
    requires
        no_quit(instrs),
    ensures
        process(s, instrs.push(InstructionView::SetSince(x))).0.since == Some(x),
{
    let full = instrs.push(InstructionView::SetSince(x));
    assert(!full.contains(InstructionView::Quit(false))) by {
        if full.contains(InstructionView::Quit(false)) {
            let k = choose|k: int| 0 <= k < full.len() && full[k] == InstructionView::Quit(false);
            if k < instrs.len() {
                assert(full[k] == instrs[k]);
            }
        }
    }
    lemma_run_to_last(s, instrs, InstructionView::SetSince(x), 0);
}

/// Law: after a batch that ends with `AddRoom(x)` and holds no `Quit`, the bot
/// counts `x` among its rooms.
pub proof fn lemma_room_joined_after_add(s: BotView, instrs: Seq<InstructionView>, x: Seq<char>)
    requires
        no_quit(instrs),
    ensures
        process(s, instrs.push(InstructionView::AddRoom(x))).0.joined_rooms.contains(x),
{
    let full = instrs.push(InstructionView::AddRoom(x));
    assert(!full.contains(InstructionView::Quit(false))) by {
        if full.contains(InstructionView::Quit(false)) {
            let k = choose|k: int| 0 <= k < full.len() && full[k] == InstructionView::Quit(false);
            if k < instrs.len() {
                assert(full[k] == instrs[k]);
            }
        }
    }
    lemma_run_to_last(s, instrs, InstructionView::AddRoom(x), 0);
    let u = run_from(s, instrs, 0).0;
    if !u.joined_rooms.contains(x) {
        assert(u.joined_rooms.push(x)[u.joined_rooms.len() as int] == x);
    }
}

/// Law: the answer to a sync starts by recording the sync's batch token, and
/// nothing after that changes the token.
#[verifier::spinoff_prover]
pub proof fn lemma_sync_answer_records_token(
    r: Seq<StepView>,
    s: BotView,
    next_batch: Seq<char>,
    join: Seq<(Seq<char>, Seq<crate::TimelineEventView>)>,
    leave: Seq<(Seq<char>, ())>,
    invite: Seq<(Seq<char>, Seq<Option<crate::StrippedStateEventView>>)>,
    now: u64,
)
    requires
        sync_outcome(r, s, next_batch, join, leave, invite, now),
    ensures
        r.len() >= 1,
        r[0] == StepView::Do(InstructionView::SetSince(next_batch)),
        sets_no_token(r.drop_first()),
{
    let (r1, r2, r3) = choose|r1: Seq<StepView>, r2: Seq<StepView>, r3: Seq<StepView>|
        r == seq![StepView::Do(InstructionView::SetSince(next_batch))] + r1 + r2 + r3
            && rooms_outcome(r1, event_args_view(s, RoomTypeDataView::Joined(join), now))
            && rooms_outcome(r2, event_args_view(s, RoomTypeDataView::Left(leave), now))
            && rooms_outcome(r3, event_args_view(s, RoomTypeDataView::Invited(invite), now));
    lemma_handlers_keep_batch_token(r1, event_args_view(s, RoomTypeDataView::Joined(join), now));
    lemma_handlers_keep_batch_token(r2, event_args_view(s, RoomTypeDataView::Left(leave), now));
    lemma_handlers_keep_batch_token(r3, event_args_view(s, RoomTypeDataView::Invited(invite), now));
    assert(r.drop_first() =~= r1 + r2 + r3);
    assert forall|k: int| 0 <= k < r.drop_first().len() implies !(#[trigger] r.drop_first()[k] matches StepView::Do(InstructionView::SetSince(_))) by {
        if k < r1.len() {
            assert(r.drop_first()[k] == r1[k]);
        } else if k < r1.len() + r2.len() {
            assert(r.drop_first()[k] == r2[k - r1.len()]);
        } else {
            assert(r.drop_first()[k] == r3[k - r1.len() - r2.len()]);
        }
    }
}

proof fn lemma_since_kept(s: BotView, instrs: Seq<InstructionView>, i: int, x: Seq<char>)
    requires
        0 <= i,
        no_quit(instrs),
        s.since == Some(x),
        forall|k: int| i <= k < instrs.len() ==> !(#[trigger] instrs[k] is SetSince),
    ensures
        run_from(s, instrs, i).0.since == Some(x),
    decreases instrs.len() - i,
{
    if i < instrs.len() {
        assert(!(instrs[i] is Quit));
        assert(!(instrs[i] is SetSince));
        let (s1, a1, stop) = apply(s, instrs[i]);
        lemma_since_kept(s1, instrs, i + 1, x);
    }
}

/// Law: once a batch that starts with `SetSince(x)`, sets no other token and
/// holds no `Quit` is carried out, the next sync starts from `x`.
pub proof fn lemma_since_after_batch(s: BotView, instrs: Seq<InstructionView>, x: Seq<char>)
    requires
        no_quit(instrs),
        instrs.len() >= 1,
        instrs[0] == InstructionView::SetSince(x),
        forall|k: int| 1 <= k < instrs.len() ==> !(#[trigger] instrs[k] is SetSince),
    ensures
        process(s, instrs).0.since == Some(x),
{
    assert(!instrs.contains(InstructionView::Quit(false))) by {
        if instrs.contains(InstructionView::Quit(false)) {
            let k = choose|k: int| 0 <= k < instrs.len() && instrs[k] == InstructionView::Quit(false);
            assert(instrs[k] is Quit);
        }
    }
    let (s1, a1, stop) = apply(s, instrs[0]);
    lemma_since_kept(s1, instrs, 1, x);
}

/// From position `i` on, a room the bot is in stays, as long as every
/// `DelRoom` still to come names that room.
proof fn lemma_room_stays(s: BotView, instrs: Seq<InstructionView>, i: int, x: Seq<char>)
    requires
        0 <= i,
        s.joined_rooms.contains(x),
        forall|j: int| i <= j < instrs.len() ==> (#[trigger] instrs[j] matches InstructionView::DelRoom(y) ==> y == x),
    ensures
        run_from(s, instrs, i).0.joined_rooms.contains(x),
    decreases instrs.len() - i,
{
    if i < instrs.len() {
        let (s1, a1, stop) = apply(s, instrs[i]);
        match instrs[i] {
            InstructionView::DelRoom(y) => {
                let k = choose|k: int| 0 <= k < s.joined_rooms.len() && s.joined_rooms[k] == x;
                s.joined_rooms.lemma_filter_contains(|z: Seq<char>| z == x, k);
            },
            InstructionView::AddRoom(y) => {
                if !s.joined_rooms.contains(y) {
                    let k = choose|k: int| 0 <= k < s.joined_rooms.len() && s.joined_rooms[k] == x;
                    assert(s.joined_rooms.push(y)[k] == x);
                }
            },
            _ => {},
        }
        if !stop {
            lemma_room_stays(s1, instrs, i + 1, x);
        }
    }
}

/// From position `k` on, up to an `AddRoom(x)` at `i` with no `Quit` before
/// it, the room `x` ends up joined when no later `DelRoom` names another room.
proof fn lemma_room_added(s: BotView, instrs: Seq<InstructionView>, k: int, i: int, x: Seq<char>)
    requires
        0 <= k <= i < instrs.len(),
        instrs[i] == InstructionView::AddRoom(x),
        forall|j: int| k <= j < i ==> !(#[trigger] instrs[j] is Quit),
        forall|j: int| i < j < instrs.len() ==> (#[trigger] instrs[j] matches InstructionView::DelRoom(y) ==> y == x),
    ensures
        run_from(s, instrs, k).0.joined_rooms.contains(x),
    decreases i - k,
{
    let (s1, a1, stop) = apply(s, instrs[k]);
    if k == i {
        if !s.joined_rooms.contains(x) {
            assert(s.joined_rooms.push(x)[s.joined_rooms.len() as int] == x);
        }
        lemma_room_stays(s1, instrs, i + 1, x);
    } else {
        assert(!(instrs[k] is Quit));
        lemma_room_added(s1, instrs, k + 1, i, x);
    }
}

/// Law: a room added before the first `Quit` of a batch that does not end
/// the program stays among the bot's rooms, unless a later `DelRoom` names
/// another room.
pub proof fn lemma_added_room_stays(s: BotView, instrs: Seq<InstructionView>, i: int, x: Seq<char>)
    requires
        !instrs.contains(InstructionView::Quit(false)),
        0 <= i < instrs.len(),
        instrs[i] == InstructionView::AddRoom(x),
        forall|j: int| 0 <= j < i ==> !(#[trigger] instrs[j] is Quit),
        forall|j: int| i < j < instrs.len() ==> (#[trigger] instrs[j] matches InstructionView::DelRoom(y) ==> y == x),
    ensures
        process(s, instrs).0.joined_rooms.contains(x),
{
    lemma_room_added(s, instrs, 0, i, x);
}

/// The bot's state after carrying out the batches one after the other.
pub open spec fn after_batches(s: BotView, batches: Seq<Seq<InstructionView>>) -> BotView
    decreases batches.len(),
{
    if batches.len() == 0 {
        s
    } else {
        process(after_batches(s, batches.drop_last()), batches.last()).0
    }
}

/// The batch of a sync answered with token `token` that does not stop the
/// bot: it starts by recording the token, records no other, and holds no
/// `Quit`.
pub open spec fn sync_batch(b: Seq<InstructionView>, token: Seq<char>) -> bool {
    &&& no_quit(b)
    &&& b.len() >= 1
    &&& b[0] == InstructionView::SetSince(token)
    &&& forall|k: int| 1 <= k < b.len() ==> !(#[trigger] b[k] is SetSince)
}

/// Law: the batch tokens chain from sync to sync. A bot that starts without a
/// token asks its first sync for the full state and no token; after the
/// batches of `k` syncs that did not stop it, its next sync starts from the
/// token of the `k`-th, and no longer asks for the full state.
pub proof fn lemma_sync_tokens_chain(
    s: BotView,
    batches: Seq<Seq<InstructionView>>,
    tokens: Seq<Seq<char>>,
    k: int,
    presence: Seq<char>,
)
    requires
        s.since is None,
        batches.len() == tokens.len(),
        forall|j: int| 0 <= j < batches.len() ==> sync_batch(#[trigger] batches[j], tokens[j]),
        0 <= k <= batches.len(),
    ensures
        k == 0 ==> after_batches(s, batches.take(k)).since is None && sync_params(
            after_batches(s, batches.take(k)).since,
            presence,
        )[0] == ("full_state"@, "true"@),
        k > 0 ==> after_batches(s, batches.take(k)).since == Some(tokens[k - 1]) && sync_params(
            after_batches(s, batches.take(k)).since,
            presence,
        ).take(2) == seq![("since"@, tokens[k - 1]), ("full_state"@, "false"@)],
{
    let t = batches.take(k);
    if k == 0 {
        assert(t.len() == 0);
    } else {
        assert(t.drop_last() == batches.take(k - 1));
        assert(t.last() == batches[k - 1]);
        assert(sync_batch(batches[k - 1], tokens[k - 1]));
        lemma_since_after_batch(after_batches(s, batches.take(k - 1)), batches[k - 1], tokens[k - 1]);
        assert(sync_params(Some(tokens[k - 1]), presence).take(2) =~= seq![
            ("since"@, tokens[k - 1]),
            ("full_state"@, "false"@),
        ]);
    }
}

/// The first `n` steps of a sync answer, once their commands are run, start
/// with the sync's token and record no other.
proof fn lemma_splice_prefix(
    steps: Seq<StepView>,
    pages: Seq<Option<Seq<char>>>,
    answers: Seq<Seq<InstructionView>>,
    token: Seq<char>,
    n: int,
)
    requires
        1 <= n <= steps.len(),
        steps[0] == StepView::Do(InstructionView::SetSince(token)),
        sets_no_token(steps.drop_first()),
        answers_for(steps, pages, answers),
    ensures
        ({
            let b = splice(steps.take(n), answers.take(n));
            &&& b.len() >= 1
            &&& b[0] == InstructionView::SetSince(token)
            &&& forall|k: int| 1 <= k < b.len() ==> !(#[trigger] b[k] is SetSince)
        }),
    decreases n,
{
    let t = steps.take(n);
    let at = answers.take(n);
    assert(t.drop_last() == steps.take(n - 1));
    assert(at.drop_last() == answers.take(n - 1));
    assert(t.last() == steps[n - 1]);
    assert(at.last() == answers[n - 1]);
    let b = splice(t, at);
    if n == 1 {
        assert(steps.take(0).len() == 0);
        assert(b =~= seq![InstructionView::SetSince(token)]);
    } else {
        lemma_splice_prefix(steps, pages, answers, token, n - 1);
        let p = splice(steps.take(n - 1), answers.take(n - 1));
        let tail = match steps[n - 1] {
            StepView::Do(i) => seq![i],
            StepView::Run(_, _) => answers[n - 1],
        };
        assert(b == p + tail);
        assert(steps.drop_first()[n - 2] == steps[n - 1]);
        match steps[n - 1] {
            StepView::Run(m, a) => {
                lemma_commands_answer_in_room(m, a, pages[n - 1], Some(answers[n - 1]));
            },
            StepView::Do(i) => {},
        }
        assert forall|k: int| 1 <= k < b.len() implies !(#[trigger] b[k] is SetSince) by {
            if k < p.len() {
                assert(b[k] == p[k]);
            } else {
                assert(b[k] == tail[k - p.len()]);
            }
        }
    }
}

/// Law: once its commands are run, the answer to a sync is a batch that
/// starts by recording the sync's batch token and records no other; so the
/// token chain above goes on from it.
pub proof fn lemma_sync_answer_is_batch(
    steps: Seq<StepView>,
    pages: Seq<Option<Seq<char>>>,
    answers: Seq<Seq<InstructionView>>,
    token: Seq<char>,
)
    requires
        steps.len() >= 1,
        steps[0] == StepView::Do(InstructionView::SetSince(token)),
        sets_no_token(steps.drop_first()),
        answers_for(steps, pages, answers),
    ensures
        ({
            let b = splice(steps, answers);
            &&& b.len() >= 1
            &&& b[0] == InstructionView::SetSince(token)
            &&& forall|k: int| 1 <= k < b.len() ==> !(#[trigger] b[k] is SetSince)
            &&& no_quit(b) ==> sync_batch(b, token)
        }),
{
    lemma_splice_prefix(steps, pages, answers, token, steps.len() as int);
    assert(steps.take(steps.len() as int) == steps);
    assert(answers.take(answers.len() as int) == answers);
}

impl SonicBot {
    /// What a new bot is made of.
    pub open spec fn initial(
        host: Seq<char>,
        username: Seq<char>,
        server_name: Seq<char>,
        cleanup_on_ctrlc: bool,
        prefix: Seq<char>,
        owner: Seq<char>,
        now: u64,
    ) -> BotView {
        BotView {
            auth_token: seq![],
            host: trim_end(host, '/'),
            me: user_id_text(username, server_name),
            joined_rooms: seq![],
            since: None,
            last_response_time: now,
            starting: true,
            cleanup_on_ctrlc,
            prefix,
            owner,
        }
    }

    /// A bot for the user `@username:server_name` on the server at `host`
    /// (without its trailing slashes), answering to commands that start with
    /// `prefix`, and taking invitations from `owner`; `now` is the time it
    /// starts at. Both user IDs must be valid.
    pub fn new(
        host: String,
        username: String,
        server_name: String,
        cleanup_on_ctrlc: bool,
        prefix: String,
        owner: String,
        ctrlc_handler: CtrlCHandler,
        now: u64,
    ) -> (b: Self)
        requires
            user_id_valid(user_id_text(username@, server_name@)),
            user_id_valid(owner@),
        ensures
            b.deep_view() == Self::initial(host@, username@, server_name@, cleanup_on_ctrlc, prefix@, owner@, now),
            b.wf(),
            b.watcher() == ctrlc_handler,
    {
        let id = cat3("@", username.as_str(), ":");
        let id = cat(id.as_str(), server_name.as_str());
        let me = match parse_user_id(id.as_str()) {
            Some(me) => me,
            None => unreached(),
        };
        let owner = match parse_user_id(owner.as_str()) {
            Some(o) => o,
            None => unreached(),
        };
        let bot = SonicBot {
            data: StorageData { auth_token: String::new() },
            host: trim_end_char(host.as_str(), '/'),
            me,
            joined_rooms: Vec::new(),
            since: None,
            last_response_time: now,
            starting: true,
            ctrlc_handler,
            cleanup_on_ctrlc,
            prefix,
            owner,
        };
        proof {
            assert(bot.joined_rooms.deep_view() =~= Seq::<Seq<char>>::empty());
        }
        bot
    }

    /// Makes the bot as `new` does when both user IDs are valid; `None`
    /// (where a bot cannot be made) otherwise.
    pub fn try_new(
        host: String,
        username: String,
        server_name: String,
        cleanup_on_ctrlc: bool,
        prefix: String,
        owner: String,
        ctrlc_handler: CtrlCHandler,
        now: u64,
    ) -> (r: Option<Self>)
        ensures
            r is Some <==> user_id_valid(user_id_text(username@, server_name@)) && user_id_valid(owner@),
            r matches Some(b) ==> b.deep_view() == Self::initial(
                host@,
                username@,
                server_name@,
                cleanup_on_ctrlc,
                prefix@,
                owner@,
                now,
            ) && b.wf() && b.watcher() == ctrlc_handler,
    {
        let id = cat3("@", username.as_str(), ":");
        let id = cat(id.as_str(), server_name.as_str());
        if parse_user_id(id.as_str()).is_none() || parse_user_id(owner.as_str()).is_none() {
            return None;
        }
        Some(Self::new(host, username, server_name, cleanup_on_ctrlc, prefix, owner, ctrlc_handler, now))
    }

    /// The bot's own invariant: its joined rooms are distinct, and its user
    /// IDs are valid.
    pub closed spec fn wf(&self) -> bool {
        &&& self.joined_rooms.deep_view().no_duplicates()
        &&& user_id_valid(self.me@)
        &&& user_id_valid(self.owner@)
        &&& self.me@.len() >= 2
        &&& self.me@[0] == '@'
        &&& self.me@.contains(':')
    }

    /// Law: every bot holds distinct joined rooms and valid user IDs.
    pub proof fn lemma_bot_invariant(&self)
        requires
            self.wf(),
        ensures
            self.deep_view().joined_rooms.no_duplicates(),
            user_id_valid(self.deep_view().me),
            user_id_valid(self.deep_view().owner),
    {
    }

    /// The server's address.
    pub fn host(&self) -> (r: String)
        ensures
            r@ == self.deep_view().host,
    {
        self.host.clone()
    }

    /// The bot's own user ID.
    pub fn me(&self) -> (r: String)
        ensures
            r@ == self.deep_view().me,
    {
        self.me.clone()
    }

    /// The user whose invitations the bot takes.
    pub fn owner(&self) -> (r: String)
        ensures
            r@ == self.deep_view().owner,
    {
        self.owner.clone()
    }

    /// The prefix of commands.
    pub fn prefix(&self) -> (r: String)
        ensures
            r@ == self.deep_view().prefix,
    {
        self.prefix.clone()
    }

    /// The rooms the bot is in, as far as it knows.
    pub fn joined_rooms(&self) -> (r: Vec<String>)
        ensures
            r.deep_view() == self.deep_view().joined_rooms,
    {
        crate::text::copy_strings(&self.joined_rooms)
    }

    /// The batch token of the last sync.
    pub fn since(&self) -> (r: Option<String>)
        ensures
            r.deep_view() == self.deep_view().since,
    {
        match &self.since {
            Some(s) => Some(s.clone()),
            None => None,
        }
    }

    /// When the bot last answered a command.
    pub fn last_response_time(&self) -> (r: u64)
        ensures
            r == self.deep_view().last_response_time,
    {
        self.last_response_time
    }

    /// Whether the bot is still reading its first sync.
    pub fn starting(&self) -> (r: bool)
        ensures
            r == self.deep_view().starting,
    {
        self.starting
    }

    /// Whether a Ctrl-C asks the bot to clean up.
    pub fn cleanup_on_ctrlc(&self) -> (r: bool)
        ensures
            r == self.deep_view().cleanup_on_ctrlc,
    {
        self.cleanup_on_ctrlc
    }

    /// The access token the bot sends.
    pub fn auth_token(&self) -> (r: String)
        ensures
            r@ == self.deep_view().auth_token,
    {
        self.data.auth_token.clone()
    }

    /// The Ctrl-C watcher that the bot was made with.
    pub closed spec fn watcher(&self) -> CtrlCHandler {
        self.ctrlc_handler
    }

    /// The Ctrl-C watcher of the bot.
    pub fn ctrlc_handler(&self) -> (r: &CtrlCHandler)
        ensures
            *r == self.watcher(),
    {
        &self.ctrlc_handler
    }

    /// Keeps the access token that the login gave.
    pub fn set_auth_token(&mut self, token: String)
        requires
            old(self).wf(),
        ensures
            final(self).wf(),
            final(self).deep_view() == (BotView { auth_token: token@, ..old(self).deep_view() }),
            final(self).watcher() == old(self).watcher(),
    {
        self.data.auth_token = token;
    }

    /// Marks the end of the first sync: from now on commands are answered.
    pub fn finish_startup(&mut self)
        requires
            old(self).wf(),
        ensures
            final(self).wf(),
            final(self).deep_view() == (BotView { starting: false, ..old(self).deep_view() }),
            final(self).watcher() == old(self).watcher(),
    {
        self.starting = false;
    }

    /// The full address of an API endpoint.
    pub fn endpoint(&self, url_ext: &str) -> (r: String)
        ensures
            r@ == self.deep_view().host + BASE@ + url_ext@,
    {
        cat3(self.host.as_str(), BASE, url_ext)
    }

    /// The value of the `Authorization` header.
    pub fn authorization(&self) -> (r: String)
        ensures
            r@ == "Bearer "@ + self.deep_view().auth_token,
    {
        cat("Bearer ", self.data.auth_token.as_str())
    }

    /// The localpart of the bot's user ID, which the login names.
    pub fn localpart(&self) -> (r: String)
        requires
            self.wf(),
        ensures
            r@ == localpart(self.deep_view().me),
    {
        proof {
            self.lemma_me_form();
        }
        let cs = chars_of(self.me.as_str());
        let mut k: usize = 1;
        while k < cs.len() && cs[k] != ':'
            invariant
                1 <= k <= cs.len(),
                cs@ == self.me@,
                exists|c: int| k <= c < cs@.len() && cs@[c] == ':',
                forall|m: int| 1 <= m < k ==> cs@[m] != ':',
            decreases cs.len() - k,
        {
            k = k + 1;
        }
        proof {
            let colon = choose|c: int|
                1 <= c < self.me@.len() && self.me@[c] == ':' && forall|m: int| 1 <= m < c ==> self.me@[m] != ':';
            assert(colon == k) by {
                if colon < k {
                    assert(cs@[colon] != ':');
                }
                if colon > k {
                    assert(self.me@[k as int] != ':');
                }
            }
        }
        string_of_range(&cs, 1, k)
    }

    proof fn lemma_me_form(&self)
        requires
            self.wf(),
        ensures
            self.me@.len() >= 2,
            self.me@[0] == '@',
            exists|c: int| 1 <= c < self.me@.len() && self.me@[c] == ':',
    {
        let c = choose|c: int| 0 <= c < self.me@.len() && self.me@[c] == ':';
        assert(1 <= c);
    }

    /// The bot's presence at time `now`.
    pub fn calculate_presence(&self, now: u64) -> (r: PresenceState)
        ensures
            r == presence_at(self.deep_view().last_response_time, now),
    {
        if now > self.last_response_time && now - self.last_response_time > TIME_TO_IDLE {
            PresenceState::Unavailable
        } else {
            PresenceState::Online
        }
    }

    /// Whether the bot can answer these joined rooms: once it has started,
    /// every timeline event must be readable and every command must hold a
    /// word.
    fn rooms_can_be_answered(&self, join: &Vec<(String, JoinedRoom)>, now: u64) -> (r: bool)
        ensures
            r == (!self.deep_view().starting ==> rooms_answerable(
                join.deep_view(),
                event_args_view(self.deep_view(), RoomTypeDataView::Joined(join.deep_view()), now),
            )),
    {
        if self.starting {
            return true;
        }
        let ghost rooms = join.deep_view();
        let ghost a = event_args_view(self.deep_view(), RoomTypeDataView::Joined(rooms), now);
        let mut i: usize = 0;
        while i < join.len()
            invariant
                i <= join.len(),
                !self.starting,
                rooms == join.deep_view(),
                a == event_args_view(self.deep_view(), RoomTypeDataView::Joined(rooms), now),
                forall|i2: int| 0 <= i2 < i ==> room_answerable(#[trigger] rooms[i2], a),
            decreases join.len() - i,
        {
            let timeline = &join[i].1.timeline;
            let ghost evs = rooms[i as int].1;
            assert(evs == timeline.deep_view());
            let mut j: usize = 0;
            while j < timeline.len()
                invariant
                    i < join.len(),
                    !self.starting,
                    j <= timeline.len(),
                    rooms == join.deep_view(),
                    evs == rooms[i as int].1,
                    evs == timeline.deep_view(),
                    a == event_args_view(self.deep_view(), RoomTypeDataView::Joined(rooms), now),
                    forall|j2: int|
                        0 <= j2 < j ==> !(#[trigger] evs[j2] is Unreadable) && (is_command(evs[j2], a)
                            ==> words(body_of(evs[j2])).len() > 0),
                decreases timeline.len() - j,
            {
                let ghost e = evs[j as int];
                let ok = match &timeline[j] {
                    TimelineEvent::TextMessage { sender, body } => {
                        if !same_text(sender, &self.me) && starts_with_text(body.as_str(), self.prefix.as_str()) {
                            let ws = words_of(body.as_str());
                            ws.len() > 0
                        } else {
                            true
                        }
                    },
                    TimelineEvent::Other => true,
                    TimelineEvent::Unreadable => false,
                };
                if !ok {
                    assert(!room_answerable(rooms[i as int], a)) by {
                        if room_answerable(rooms[i as int], a) {
                            assert(!(evs[j as int] is Unreadable) && (is_command(evs[j as int], a)
                                ==> words(body_of(evs[j as int])).len() > 0));
                        }
                    }
                    assert(!rooms_answerable(rooms, a));
                    return false;
                }
                j = j + 1;
            }
            assert(room_answerable(rooms[i as int], a));
            i = i + 1;
        }
        true
    }

    /// Whether the bot's handlers can answer this sync: the rooms of each kind
    /// come in strictly ascending order of their IDs, and everything the
    /// handlers read can be read (see `sync_ready`).
    pub fn can_answer(&self, event: &EventResponse, now: u64) -> (r: bool)
        ensures
            r == sync_ready(
                self.deep_view(),
                event.rooms.join.deep_view(),
                event.rooms.leave.deep_view(),
                event.rooms.invite.deep_view(),
                now,
            ),
    {
        let ordered = ids_in_order(&ids_of(&event.rooms.join)) && ids_in_order(&ids_of(&event.rooms.leave))
            && ids_in_order(&ids_of(&event.rooms.invite));
        ordered && self.rooms_can_be_answered(&event.rooms.join, now) && invitations_readable(
            &event.rooms.invite,
            &self.me,
            &self.owner,
        )
    }

    /// Whether the bot still has to join `room_id`.
    pub fn needs_join(&self, room_id: &String) -> (r: bool)
        ensures
            r == !self.deep_view().joined_rooms.contains(room_id@),
    {
        !contains_text(&self.joined_rooms, room_id)
    }

    /// What to do with the room ID that the room directory gave for a room
    /// the bot is told to be in: `Err` when it is not a valid room ID (then
    /// nothing can be joined), the ID when the bot still has to join it, and
    /// `None` when it is in the room already.
    pub fn room_to_join(&self, answer_room_id: &str) -> (r: Result<Option<String>, ()>)
        ensures
            r is Err <==> !room_id_valid(answer_room_id@),
            r matches Ok(x) ==> (x is Some <==> !self.deep_view().joined_rooms.contains(answer_room_id@)),
            r matches Ok(Some(id)) ==> id@ == answer_room_id@,
    {
        match parse_room_id(answer_room_id) {
            None => Err(()),
            Some(id) => {
                if contains_text(&self.joined_rooms, &id) {
                    Ok(None)
                } else {
                    Ok(Some(id))
                }
            },
        }
    }

    /// Whether the bot goes on to the next sync, given what processing the
    /// last one returned and whether the Ctrl-C check said to go on.
    pub fn keeps_running(result: &Option<String>, ctrl_ok: bool) -> (r: bool)
        ensures
            r == (result is None && ctrl_ok),
    {
        result.is_none() && ctrl_ok
    }

    /// Whether the bot goes on to the next sync after processing returned
    /// `result`: the Ctrl-C watcher is asked only when processing did not end
    /// the run, and the bot goes on when it says so.
    pub fn still_running(&self, result: &Option<String>) -> (r: bool)
        ensures
            result is Some ==> !r,
    {
        if result.is_some() {
            return false;
        }
        let ctrl_ok = should_continue(&self.ctrlc_handler);
        Self::keeps_running(result, ctrl_ok)
    }

    /// The query of the next `/sync` request at time `now`.
    pub fn sync_query(&self, now: u64) -> (r: Vec<(String, String)>)
        ensures
            r.deep_view() == sync_params(
                self.deep_view().since,
                presence_word(presence_at(self.deep_view().last_response_time, now)),
            ),
            r.deep_view().contains(
                (
                    "set_presence"@,
                    if now > self.deep_view().last_response_time && now - self.deep_view().last_response_time
                        > 180_000_000_000 {
                        "unavailable"@
                    } else {
                        "online"@
                    },
                ),
            ),
    {
        proof {
            lemma_sync_query_presence(self.deep_view().since, self.deep_view().last_response_time, now);
        }
        let presence = presence_text(self.calculate_presence(now));
        let mut q: Vec<(String, String)> = Vec::new();
        match &self.since {
            Some(start) => {
                q.push((String::from_str("since"), start.clone()));
                q.push((String::from_str("full_state"), String::from_str("false")));
            },
            None => {
                q.push((String::from_str("full_state"), String::from_str("true")));
            },
        }
        q.push((String::from_str("set_presence"), presence));
        q.push((String::from_str("timeout"), String::from_str("3000")));
        assert(q.deep_view() =~= sync_params(
            self.deep_view().since,
            presence_word(presence_at(self.deep_view().last_response_time, now)),
        ));
        q
    }

    /// Carries out the instructions of one sync, in order, and says what the
    /// program around the bot has to do, and `"QUIT"` when a `Quit` ended the
    /// processing.
    pub fn process_instructions(&mut self, instructions: Vec<Instructions>) -> (r: (Vec<Action>, Option<String>))
        requires
            old(self).wf(),
        ensures
            final(self).wf(),
            final(self).watcher() == old(self).watcher(),
            (final(self).deep_view(), r.0.deep_view(), r.1.deep_view()) == process(
                old(self).deep_view(),
                instructions.deep_view(),
            ),
    {
        let ghost s0 = self.deep_view();
        let ghost w0 = self.watcher();
        let ghost instrs = instructions.deep_view();
        let mut actions: Vec<Action> = Vec::new();
        if has_quit_without_cleanup(&instructions) {
            push_action(&mut actions, Action::Exit);
            assert(actions.deep_view() =~= seq![ActionView::Exit]);
            return (actions, None);
        }
        let mut i: usize = 0;
        let mut stop = false;
        assert(actions.deep_view() =~= Seq::<ActionView>::empty());
        while i < instructions.len() && !stop
            invariant
                i <= instructions.len(),
                instrs == instructions.deep_view(),
                !instrs.contains(InstructionView::Quit(false)),
                self.wf(),
                self.watcher() == w0,
                stop ==> process(s0, instrs) == (self.deep_view(), actions.deep_view(), Some("QUIT"@)),
                !stop ==> run_from(s0, instrs, 0) == ({
                    let t = run_from(self.deep_view(), instrs, i as int);
                    (t.0, actions.deep_view() + t.1, t.2)
                }),
            decreases 2 * (instructions.len() - i) + if stop { 0int } else { 1int },
        {
            let ghost cur = self.deep_view();
            let ghost acts = actions.deep_view();
            proof {
                lemma_apply_distinct(cur, instrs[i as int]);
            }
            match &instructions[i] {
                Instructions::Quit(_) => {
                    proof {
                        assert(acts + Seq::<ActionView>::empty() =~= acts);
                        assert(apply(cur, instrs[i as int]).2);
                        assert(run_from(cur, instrs, i as int) == (cur, Seq::<ActionView>::empty(), Some("QUIT"@)));
                    }
                    stop = true;
                },
                Instructions::DelRoom(x) => {
                    self.joined_rooms = keep_equal(&self.joined_rooms, x);
                    proof {
                        lemma_keep_only_distinct(cur.joined_rooms, x@);
                    }
                },
                Instructions::AddRoom(x) => {
                    if !contains_text(&self.joined_rooms, x) {
                        self.joined_rooms.push(x.clone());
                        push_action(&mut actions, Action::JoinRoom(x.clone()));
                        proof {
                            assert(self.joined_rooms.deep_view() =~= cur.joined_rooms.push(x@));
                            assert(cur.joined_rooms.push(x@).no_duplicates());
                        }
                    }
                },
                Instructions::UpdateLastResponseTime(t) => {
                    self.last_response_time = *t;
                },
                Instructions::SetSince(x) => {
                    self.since = Some(x.clone());
                },
                Instructions::SendMessage(room, msg) => {
                    push_action(&mut actions, Action::SendMessage(room.clone(), msg.clone()));
                },
            }
            if !stop {
                proof {
                    let (s1, a1, st) = apply(cur, instrs[i as int]);
                    assert(self.deep_view() == s1);
                    assert(actions.deep_view() =~= acts + a1);
                    let t = run_from(s1, instrs, i + 1);
                    assert(acts + (a1 + t.1) =~= (acts + a1) + t.1);
                }
                i = i + 1;
            }
        }
        if stop {
            let q = String::from_str("QUIT");
            return (actions, Some(q));
        }
        proof {
            assert(actions.deep_view() + Seq::<ActionView>::empty() =~= actions.deep_view());
        }
        (actions, None)
    }

    /// What the bot's handlers answer to one sync: the batch token to start
    /// the next sync from, then the answers to the joined, left and invited
    /// rooms, in that order; `now` is the time of the sync.
    pub fn generate_instructions<'a>(&'a self, event: EventResponse, now: u64) -> (r: Vec<Step<'a>>)
        requires
            sync_ready(
                self.deep_view(),
                event.rooms.join.deep_view(),
                event.rooms.leave.deep_view(),
                event.rooms.invite.deep_view(),
                now,
            ),
        ensures
            sync_outcome(
                r.deep_view(),
                self.deep_view(),
                event.next_batch@,
                event.rooms.join.deep_view(),
                event.rooms.leave.deep_view(),
                event.rooms.invite.deep_view(),
                now,
            ),
    {
        let ghost s = self.deep_view();
        let ghost join = event.rooms.join.deep_view();
        let ghost leave = event.rooms.leave.deep_view();
        let ghost invite = event.rooms.invite.deep_view();
        let ghost nb = event.next_batch@;
        let mut instructions: Vec<Step<'a>> = Vec::new();
        push_step(&mut instructions, Step::Do(Instructions::SetSince(event.next_batch)));
        assert(instructions.deep_view() =~= seq![StepView::Do(InstructionView::SetSince(nb))]);
        let ghost head = instructions.deep_view();
        let joined = EventArgs::new(
            RoomTypeData::Joined(event.rooms.join),
            self.starting,
            &self.ctrlc_handler,
            self.cleanup_on_ctrlc,
            self.owner.clone(),
            self.prefix.clone(),
            self.me.clone(),
            now,
        );
        let r1 = handle_rooms(&joined);
        let ghost v1 = r1.deep_view();
        append_steps(&mut instructions, r1);
        let left = EventArgs::new(
            RoomTypeData::Left(event.rooms.leave),
            self.starting,
            &self.ctrlc_handler,
            self.cleanup_on_ctrlc,
            self.owner.clone(),
            self.prefix.clone(),
            self.me.clone(),
            now,
        );
        let r2 = handle_rooms(&left);
        let ghost v2 = r2.deep_view();
        append_steps(&mut instructions, r2);
        let invited = EventArgs::new(
            RoomTypeData::Invited(event.rooms.invite),
            self.starting,
            &self.ctrlc_handler,
            self.cleanup_on_ctrlc,
            self.owner.clone(),
            self.prefix.clone(),
            self.me.clone(),
            now,
        );
        let r3 = handle_rooms(&invited);
        let ghost v3 = r3.deep_view();
        append_steps(&mut instructions, r3);
        proof {
            assert(instructions.deep_view() == head + v1 + v2 + v3);
            assert(rooms_outcome(v1, event_args_view(s, RoomTypeDataView::Joined(join), now)));
            assert(rooms_outcome(v2, event_args_view(s, RoomTypeDataView::Left(leave), now)));
            assert(rooms_outcome(v3, event_args_view(s, RoomTypeDataView::Invited(invite), now)));
        }
        instructions
    }
}

} // verus!
