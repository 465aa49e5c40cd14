//! A Matrix chat bot whose decisions are verified: what it answers to a
//! command, which rooms it joins and leaves, and how it keeps its own state.
//!
//! The network, the clock, the terminal and the parsing of the server's JSON
//! are left to the program around this library; what comes back from them is
//! handed in as the plain values below.
pub mod bindings;
pub mod text;
pub mod essentials;
pub mod plugins;
pub mod instruction_generators;
pub mod bot;
pub mod names;

pub use bot::SonicBot;
pub use bot::Action;
pub use bot::PresenceState;
pub use names::generate_module_names;
pub use instruction_generators::RoomTypeData;

use vstd::prelude::*;
use ctrlc_handler::CtrlCHandler;

verus! {

/// What the bot keeps between sessions.
#[derive(Clone, Debug, Default)]
pub struct StorageData {
    pub auth_token: String,
}

/// One thing the bot decided to do after reading a sync.
#[derive(PartialEq, Eq, Debug, Clone)]
pub enum Instructions {
    /// Remember that the bot answered at this time (nanoseconds on the
    /// program's monotonic clock).
    UpdateLastResponseTime(u64),
    AddRoom(String),
    Quit(bool),
    DelRoom(String),
    SetSince(String),
    /// Send the text to the room.
    SendMessage(String, String),
}

/// An instruction, with its texts as character sequences.
pub enum InstructionView {
    UpdateLastResponseTime(u64),
    AddRoom(Seq<char>),
    Quit(bool),
    DelRoom(Seq<char>),
    SetSince(Seq<char>),
    SendMessage(Seq<char>, Seq<char>),
}

impl DeepView for Instructions {
    type V = InstructionView;

    open spec fn deep_view(&self) -> InstructionView {
        match self {
            Instructions::UpdateLastResponseTime(t) => InstructionView::UpdateLastResponseTime(*t),
            Instructions::AddRoom(r) => InstructionView::AddRoom(r@),
            Instructions::Quit(b) => InstructionView::Quit(*b),
            Instructions::DelRoom(r) => InstructionView::DelRoom(r@),
            Instructions::SetSince(s) => InstructionView::SetSince(s@),
            Instructions::SendMessage(r, m) => InstructionView::SendMessage(r@, m@),
        }
    }
}

impl Instructions {
    /// A copy of this instruction.
    pub fn duplicate(&self) -> (r: Instructions)
        ensures
            r.deep_view() == self.deep_view(),
    {
        match self {
            Instructions::UpdateLastResponseTime(t) => Instructions::UpdateLastResponseTime(*t),
            Instructions::AddRoom(r) => Instructions::AddRoom(r.clone()),
            Instructions::Quit(b) => Instructions::Quit(*b),
            Instructions::DelRoom(r) => Instructions::DelRoom(r.clone()),
            Instructions::SetSince(s) => Instructions::SetSince(s.clone()),
            Instructions::SendMessage(r, m) => Instructions::SendMessage(r.clone(), m.clone()),
        }
    }
}

/// A command message that the bot read.
#[derive(PartialEq, Eq, Debug, Clone)]
pub struct MessageInfo {
    pub message: String,
    pub words: Vec<String>,
    pub args: Vec<String>,
    pub sender: String,
    pub room_id: String,
}

pub struct MessageInfoView {
    pub message: Seq<char>,
    pub words: Seq<Seq<char>>,
    pub args: Seq<Seq<char>>,
    pub sender: Seq<char>,
    pub room_id: Seq<char>,
}

impl DeepView for MessageInfo {
    type V = MessageInfoView;

    open spec fn deep_view(&self) -> MessageInfoView {
        MessageInfoView {
            message: self.message@,
            words: self.words.deep_view(),
            args: self.args.deep_view(),
            sender: self.sender@,
            room_id: self.room_id@,
        }
    }
}

impl MessageInfo {
    /// A copy of this message.
    pub fn duplicate(&self) -> (r: MessageInfo)
        ensures
            r.deep_view() == self.deep_view(),
    {
        MessageInfo {
            message: self.message.clone(),
            words: text::copy_strings(&self.words),
            args: text::copy_strings(&self.args),
            sender: self.sender.clone(),
            room_id: self.room_id.clone(),
        }
    }
}

/// What a command module gets to work with.
#[derive(Debug, Clone)]
pub struct MessageArgs<'a> {
    pub message_info: MessageInfo,
    pub owner: String,
    pub ctrlc_handler: &'a CtrlCHandler,
    pub cleanup_on_ctrlc: bool,
    pub prefix: String,
}

pub struct MessageArgsView {
    pub message_info: MessageInfoView,
    pub owner: Seq<char>,
    pub cleanup_on_ctrlc: bool,
    pub prefix: Seq<char>,
}

impl<'a> DeepView for MessageArgs<'a> {
    type V = MessageArgsView;

    open spec fn deep_view(&self) -> MessageArgsView {
        MessageArgsView {
            message_info: self.message_info.deep_view(),
            owner: self.owner@,
            cleanup_on_ctrlc: self.cleanup_on_ctrlc,
            prefix: self.prefix@,
        }
    }
}

impl<'a> MessageArgs<'a> {
    pub fn new(
        message_info: MessageInfo,
        owner: String,
        ctrlc_handler: &'a CtrlCHandler,
        cleanup_on_ctrlc: bool,
        prefix: String,
    ) -> (r: Self)
        ensures
            r.deep_view() == (MessageArgsView {
                message_info: message_info.deep_view(),
                owner: owner@,
                cleanup_on_ctrlc,
                prefix: prefix@,
            }),
            r.ctrlc_handler == ctrlc_handler,
    {
        Self { message_info, owner, ctrlc_handler, cleanup_on_ctrlc, prefix }
    }
}

/// The membership that an `m.room.member` state event announces.
#[derive(PartialEq, Eq, Structural, Debug, Clone, Copy)]
pub enum MembershipState {
    Ban,
    Invite,
    Join,
    Knock,
    Leave,
    Other,
}

/// A stripped state event of an invitation: who it is about (`state_key`),
/// who sent it, and, for an `m.room.member` event, the membership.
#[derive(PartialEq, Eq, Debug, Clone)]
pub struct StrippedStateEvent {
    pub state_key: String,
    pub sender: String,
    pub membership: Option<MembershipState>,
}

pub struct StrippedStateEventView {
    pub state_key: Seq<char>,
    pub sender: Seq<char>,
    pub membership: Option<MembershipState>,
}

impl DeepView for StrippedStateEvent {
    type V = StrippedStateEventView;

    open spec fn deep_view(&self) -> StrippedStateEventView {
        StrippedStateEventView {
            state_key: self.state_key@,
            sender: self.sender@,
            membership: self.membership,
        }
    }
}

/// A room the bot is invited to, with the events of its invitation; `None`
/// stands for an event that cannot be read as a stripped state event.
#[derive(PartialEq, Eq, Debug, Clone)]
pub struct InvitedRoom {
    pub invite_state: Vec<Option<StrippedStateEvent>>,
}

impl DeepView for InvitedRoom {
    type V = Seq<Option<StrippedStateEventView>>;

    open spec fn deep_view(&self) -> Seq<Option<StrippedStateEventView>> {
        self.invite_state.deep_view()
    }
}

/// An event of a joined room's timeline: a text message, any other event, or
/// an event that cannot be read as a room event.
#[derive(PartialEq, Eq, Debug, Clone)]
pub enum TimelineEvent {
    TextMessage { sender: String, body: String },
    Other,
    Unreadable,
}

pub enum TimelineEventView {
    TextMessage { sender: Seq<char>, body: Seq<char> },
    Other,
    Unreadable,
}

impl DeepView for TimelineEvent {
    type V = TimelineEventView;

    open spec fn deep_view(&self) -> TimelineEventView {
        match self {
            TimelineEvent::TextMessage { sender, body } => TimelineEventView::TextMessage {
                sender: sender@,
                body: body@,
            },
            TimelineEvent::Other => TimelineEventView::Other,
            TimelineEvent::Unreadable => TimelineEventView::Unreadable,
        }
    }
}

/// A room the bot is in, with the new events of its timeline.
#[derive(PartialEq, Eq, Debug, Clone)]
pub struct JoinedRoom {
    pub timeline: Vec<TimelineEvent>,
}

impl DeepView for JoinedRoom {
    type V = Seq<TimelineEventView>;

    open spec fn deep_view(&self) -> Seq<TimelineEventView> {
        self.timeline.deep_view()
    }
}

/// A room the bot has left.
#[derive(PartialEq, Eq, Debug, Clone)]
pub struct LeftRoom {}

impl DeepView for LeftRoom {
    type V = ();

    open spec fn deep_view(&self) -> () {
        ()
    }
}

/// The room updates of a sync, each list in the order of the room IDs.
#[derive(PartialEq, Eq, Debug, Clone)]
pub struct Rooms {
    pub join: Vec<(String, JoinedRoom)>,
    pub leave: Vec<(String, LeftRoom)>,
    pub invite: Vec<(String, InvitedRoom)>,
}

/// What the bot reads of the answer to a `/sync` request.
#[derive(PartialEq, Eq, Debug, Clone)]
pub struct EventResponse {
    /// The batch token to supply in the `since` param of the next `/sync` request.
    pub next_batch: String,
    /// Updates to rooms.
    pub rooms: Rooms,
}

/// Which command a message module runs.
#[derive(PartialEq, Eq, Structural, Debug, Clone, Copy)]
pub enum MessageMain {
    Help,
    List,
    Choose,
    RandFact,
}

impl MessageMain {
    /// Whether the command answers from the fact page, which the caller has
    /// to fetch from `randfact::FACT_SOURCE` first.
    pub fn needs_fact_page(&self) -> (r: bool)
        ensures
            r == (*self == MessageMain::RandFact),
    {
        match self {
            MessageMain::RandFact => true,
            _ => false,
        }
    }
}

/// A command the bot answers to.
#[derive(Debug, Clone)]
pub struct SonicBotMessageModule {
    pub name: String,
    pub essential: bool,
    pub main: MessageMain,
    pub help: String,
}

pub struct ModuleView {
    pub name: Seq<char>,
    pub essential: bool,
    pub main: MessageMain,
    pub help: Seq<char>,
}

impl DeepView for SonicBotMessageModule {
    type V = ModuleView;

    open spec fn deep_view(&self) -> ModuleView {
        ModuleView { name: self.name@, essential: self.essential, main: self.main, help: self.help@ }
    }
}

/// Which handler an event module runs.
#[derive(PartialEq, Eq, Structural, Debug, Clone, Copy)]
pub enum EventMain {
    Invited,
    Joined,
    Left,
}

/// A handler that runs on every sync.
#[derive(Debug, Clone)]
pub struct SonicBotEventModule {
    pub name: String,
    pub essential: bool,
    pub main: EventMain,
    help: String,
}

pub struct EventModuleView {
    pub name: Seq<char>,
    pub essential: bool,
    pub main: EventMain,
    pub help: Seq<char>,
}

impl DeepView for SonicBotEventModule {
    type V = EventModuleView;

    closed spec fn deep_view(&self) -> EventModuleView {
        EventModuleView {
            name: self.name@,
            essential: self.essential,
            main: self.main,
            help: self.help@,
        }
    }
}

impl SonicBotEventModule {
    pub fn new(name: String, essential: bool, main: EventMain, help: String) -> (r: Self)
        ensures
            r.deep_view() == (EventModuleView { name: name@, essential, main, help: help@ }),
    {
        SonicBotEventModule { name, essential, main, help }
    }

    /// The module's help text.
    pub fn help_text(&self) -> (r: String)
        ensures
            r@ == self.deep_view().help,
    {
        self.help.clone()
    }
}

/// What the event handlers work with.
pub struct EventArgs<'a> {
    pub room_data: RoomTypeData,
    pub starting: bool,
    pub ctrlc_handler: &'a CtrlCHandler,
    pub cleanup_on_ctrlc: bool,
    pub owner: String,
    pub prefix: String,
    pub me: String,
    /// The time of this sync (nanoseconds on the program's monotonic clock).
    pub now: u64,
}

pub struct EventArgsView {
    pub room_data: instruction_generators::RoomTypeDataView,
    pub starting: bool,
    pub cleanup_on_ctrlc: bool,
    pub owner: Seq<char>,
    pub prefix: Seq<char>,
    pub me: Seq<char>,
    pub now: u64,
}

impl<'a> DeepView for EventArgs<'a> {
    type V = EventArgsView;

    open spec fn deep_view(&self) -> EventArgsView {
        EventArgsView {
            room_data: self.room_data.deep_view(),
            starting: self.starting,
            cleanup_on_ctrlc: self.cleanup_on_ctrlc,
            owner: self.owner@,
            prefix: self.prefix@,
            me: self.me@,
            now: self.now,
        }
    }
}

impl<'a> EventArgs<'a> {
    pub fn new(
        room_data: RoomTypeData,
        starting: bool,
        ctrlc_handler: &'a CtrlCHandler,
        cleanup_on_ctrlc: bool,
        owner: String,
        prefix: String,
        me: String,
        now: u64,
    ) -> (r: Self)
        ensures
            r.deep_view() == (EventArgsView {
                room_data: room_data.deep_view(),
                starting,
                cleanup_on_ctrlc,
                owner: owner@,
                prefix: prefix@,
                me: me@,
                now,
            }),
            r.ctrlc_handler == ctrlc_handler,
    {
        Self { room_data, starting, ctrlc_handler, cleanup_on_ctrlc, owner, prefix, me, now }
    }
}

/// One step of the answer to a sync: an instruction, or a command to run
/// (some commands need the network before they can answer).
#[derive(Debug)]
pub enum Step<'a> {
    Do(Instructions),
    Run(MessageMain, MessageArgs<'a>),
}

pub enum StepView {
    Do(InstructionView),
    Run(MessageMain, MessageArgsView),
}

impl<'a> DeepView for Step<'a> {
    type V = StepView;

    open spec fn deep_view(&self) -> StepView {
        match self {
            Step::Do(i) => StepView::Do(i.deep_view()),
            Step::Run(m, a) => StepView::Run(*m, a.deep_view()),
        }
    }
}

/// The instructions as steps, in order.
pub open spec fn do_steps(instrs: Seq<InstructionView>) -> Seq<StepView> {
    instrs.map_values(|i: InstructionView| StepView::Do(i))
}

/// Appends one step.
pub fn push_step<'a>(steps: &mut Vec<Step<'a>>, s: Step<'a>)
    ensures
        final(steps).deep_view() == old(steps).deep_view().push(s.deep_view()),
{
    let ghost sv = s.deep_view();
    let ghost before = steps.deep_view();
    steps.push(s);
    assert(steps.deep_view() =~= before.push(sv));
}

/// Appends the steps of `more`, in order.
pub fn append_steps<'a>(steps: &mut Vec<Step<'a>>, more: Vec<Step<'a>>)
    ensures
        final(steps).deep_view() == old(steps).deep_view() + more.deep_view(),
{
    let ghost b = steps.deep_view();
    let ghost m = more.deep_view();
    let mut more = more;
    steps.append(&mut more);
    assert(steps.deep_view() =~= b + m);
}

/// Appends each instruction as a step.
pub fn append_as_steps<'a>(steps: &mut Vec<Step<'a>>, instrs: Vec<Instructions>)
    ensures
        final(steps).deep_view() == old(steps).deep_view() + do_steps(instrs.deep_view()),
{
    let ghost start = steps.deep_view();
    let ghost all = instrs.deep_view();
    let mut instrs = instrs;
    let ghost mut k: int = 0;
    while instrs.len() > 0
        invariant
            0 <= k,
            k + instrs.len() == all.len(),
            instrs.deep_view() == all.skip(k),
            steps.deep_view() == start + do_steps(all.take(k)),
        decreases instrs.len(),
    {
        let ghost before = instrs.deep_view();
        let i = instrs.remove(0);
        let ghost iv = i.deep_view();
        let ghost sbefore = steps.deep_view();
        steps.push(Step::Do(i));
        proof {
            assert(steps.deep_view() =~= sbefore.push(StepView::Do(iv)));
            assert(instrs.deep_view() =~= before.drop_first());
            assert(before.drop_first() =~= all.skip(k + 1));
            assert(i.deep_view() == before[0]);
            assert(all.take(k + 1) == all.take(k).push(all[k]));
            assert(do_steps(all.take(k + 1)) =~= do_steps(all.take(k)).push(StepView::Do(all[k])));
            k = k + 1;
        }
    }
    assert(all.take(k) == all);
}

} // verus!
