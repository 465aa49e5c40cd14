//! The basic commands: `help` and `list`.
pub mod help;
pub mod list;

use vstd::prelude::*;
use vstd::string::*;
use crate::{
    Instructions, InstructionView, MessageArgs, MessageArgsView, ModuleView, MessageMain, SonicBotMessageModule, Step,
    StepView,
};
use crate::bindings::first_group_of;
use crate::plugins::on_message::{plugin_message_modules, choose_command, randfact};

verus! {

/// The basic commands, sorted by name.
pub open spec fn essential_message_modules() -> Seq<ModuleView> {
    seq![
        ModuleView { name: "help"@, essential: true, main: MessageMain::Help, help: help::HELP_TEXT@ },
        ModuleView { name: "list"@, essential: true, main: MessageMain::List, help: list::HELP_TEXT@ },
    ]
}

/// Every command the bot answers to: the basic ones, then the plugins.
pub open spec fn all_message_modules() -> Seq<ModuleView> {
    essential_message_modules() + plugin_message_modules()
}

/// The names of all commands, in the order of `all_message_modules`.
pub open spec fn command_names() -> Seq<Seq<char>> {
    all_message_modules().map_values(|m: ModuleView| m.name)
}

/// The basic commands.
pub fn get_essentials_on_message() -> (r: Vec<SonicBotMessageModule>)
    ensures
        r.deep_view() == essential_message_modules(),
{
    let mut r: Vec<SonicBotMessageModule> = Vec::new();
    r.push(SonicBotMessageModule {
        name: String::from_str("help"),
        essential: true,
        main: MessageMain::Help,
        help: help::help(),
    });
    r.push(SonicBotMessageModule {
        name: String::from_str("list"),
        essential: true,
        main: MessageMain::List,
        help: list::help(),
    });
    assert(r.deep_view() =~= essential_message_modules());
    r
}

/// What running the command `main` may answer, given the fact page when the
/// command needs one: `None` exactly when `randfact` has no page or finds no
/// fact in it (where nothing can be answered).
pub open spec fn command_outcome(
    main: MessageMain,
    a: MessageArgsView,
    page: Option<Seq<char>>,
    r: Option<Seq<InstructionView>>,
) -> bool {
    match main {
        MessageMain::Help => r == Some(help::help_reply(a)),
        MessageMain::List => r == Some(list::list_reply(a)),
        MessageMain::Choose => exists|c: Seq<char>|
            choose_command::choices_of(a.message_info).contains(c) && r == Some(
                choose_command::choose_reply(a, c),
            ),
        MessageMain::RandFact => match page {
            None => r is None,
            Some(p) => match first_group_of(randfact::FACT_PATTERN@, p) {
                Some(f) => r == Some(randfact::fact_reply(a, f)),
                None => r is None,
            },
        },
    }
}

/// Law: a command answers with text messages to the room the command came
/// from, and with nothing else.
pub proof fn lemma_commands_answer_in_room(
    main: MessageMain,
    a: MessageArgsView,
    page: Option<Seq<char>>,
    r: Option<Seq<InstructionView>>,
)
    requires
        command_outcome(main, a, page, r),
    ensures
        r matches Some(v) ==> forall|k: int|
            0 <= k < v.len() ==> (#[trigger] v[k] matches InstructionView::SendMessage(room, _)
                && room == a.message_info.room_id),
{
    match main {
        MessageMain::Help => {
            let ws = crate::text::words(a.message_info.message);
            if ws.len() >= 2 {
                match help::help_lookup(all_message_modules(), ws[1]) {
                    Some(h) => {},
                    None => {},
                }
            }
        },
        MessageMain::Choose => {
            let c = choose|c: Seq<char>|
                choose_command::choices_of(a.message_info).contains(c) && r == Some(
                    choose_command::choose_reply(a, c),
                );
        },
        _ => {},
    }
}

/// Runs the command `main`; `randfact` answers from `page`, the fact page that
/// the caller fetched.
pub fn run_command(main: MessageMain, message_args: MessageArgs, page: Option<String>) -> (r: Option<Vec<Instructions>>)
    requires
        main == MessageMain::Choose ==> message_args.message_info.words.len() >= 1,
    ensures
        command_outcome(main, message_args.deep_view(), page.deep_view(), r.deep_view()),
{
    let ghost a = message_args.deep_view();
    match main {
        MessageMain::Help => Some(help::main(message_args)),
        MessageMain::List => Some(list::main(message_args)),
        MessageMain::Choose => {
            let v = choose_command::main(message_args);
            let ghost c = choose|c: Seq<char>|
                choose_command::choices_of(a.message_info).contains(c) && v.deep_view()
                    == choose_command::choose_reply(a, c);
            Some(v)
        },
        MessageMain::RandFact => match page {
            Some(p) => randfact::main(message_args, p.as_str()),
            None => None,
        },
    }
}

/// Whether running `main` finds nothing to answer: only `randfact` can, when
/// it has no fact page or finds no fact in it.
pub open spec fn command_fails(main: MessageMain, a: MessageArgsView, page: Option<Seq<char>>) -> bool {
    main == MessageMain::RandFact && match page {
        None => true,
        Some(p) => first_group_of(randfact::FACT_PATTERN@, p) is None,
    }
}

/// A step that can be run: `choose` needs at least one word in its message.
pub open spec fn runnable(step: StepView) -> bool {
    match step {
        StepView::Run(m, a) => m == MessageMain::Choose ==> a.message_info.words.len() >= 1,
        StepView::Do(_) => true,
    }
}

/// A step is a run of a command that finds nothing to answer.
pub open spec fn step_fails(step: StepView, page: Option<Seq<char>>) -> bool {
    step matches StepView::Run(m, a) && command_fails(m, a, page)
}

/// The instructions of the steps, in order: each instruction as it is, and in
/// place of each run of a command the answer it gave (`answers` holds one
/// entry a step).
pub open spec fn splice(steps: Seq<StepView>, answers: Seq<Seq<InstructionView>>) -> Seq<InstructionView>
    decreases steps.len(),
{
    if steps.len() == 0 {
        seq![]
    } else {
        splice(steps.drop_last(), answers.drop_last()) + match steps.last() {
            StepView::Do(i) => seq![i],
            StepView::Run(_, _) => answers.last(),
        }
    }
}

/// `answers` holds, for each run of a command among the steps, an answer the
/// command may give with the page handed to it.
pub open spec fn answers_for(
    steps: Seq<StepView>,
    pages: Seq<Option<Seq<char>>>,
    answers: Seq<Seq<InstructionView>>,
) -> bool {
    &&& answers.len() == steps.len()
    &&& forall|k: int|
        0 <= k < steps.len() ==> (#[trigger] steps[k] matches StepView::Run(m, a) ==> command_outcome(
            m,
            a,
            pages[k],
            Some(answers[k]),
        ))
}

/// A command that answers at all gives one of the answers `command_outcome`
/// allows, and it fails exactly as `command_fails` says.
proof fn lemma_outcome_fails(main: MessageMain, a: MessageArgsView, page: Option<Seq<char>>, r: Option<Seq<InstructionView>>)
    requires
        command_outcome(main, a, page, r),
    ensures
        r is None <==> command_fails(main, a, page),
{
}

/// Runs the commands of the steps that the handlers gave, `pages[k]` being
/// the fact page fetched for the step at `k` when its command needs one, and
/// gives the instructions of all the steps in order: `None` exactly when a
/// command finds nothing to answer.
pub fn run_steps(steps: &Vec<Step>, pages: &Vec<Option<String>>) -> (r: Option<Vec<Instructions>>)
    requires
        pages.len() == steps.len(),
        forall|k: int| 0 <= k < steps.len() ==> runnable(#[trigger] steps.deep_view()[k]),
    ensures
        r is None <==> exists|k: int|
            0 <= k < steps.len() && step_fails(#[trigger] steps.deep_view()[k], pages.deep_view()[k]),
        r matches Some(v) ==> exists|answers: Seq<Seq<InstructionView>>|
            answers_for(steps.deep_view(), pages.deep_view(), answers) && v.deep_view() == splice(
                steps.deep_view(),
                answers,
            ),
{
    let ghost sv = steps.deep_view();
    let ghost pv = pages.deep_view();
    let ghost mut answers: Seq<Seq<InstructionView>> = seq![];
    let mut out: Vec<Instructions> = Vec::new();
    let mut i: usize = 0;
    while i < steps.len()
        invariant
            i <= steps.len(),
            pages.len() == steps.len(),
            sv == steps.deep_view(),
            pv == pages.deep_view(),
            forall|k: int| 0 <= k < steps.len() ==> runnable(#[trigger] sv[k]),
            forall|k: int| 0 <= k < i ==> !step_fails(#[trigger] sv[k], pv[k]),
            answers_for(sv.take(i as int), pv, answers),
            out.deep_view() == splice(sv.take(i as int), answers),
        decreases steps.len() - i,
    {
        let ghost before = out.deep_view();
        let ghost answer: Seq<InstructionView> = seq![];
        assert(sv[i as int] == steps[i as int].deep_view());
        match &steps[i] {
            Step::Do(instr) => {
                out.push(instr.duplicate());
                assert(out.deep_view() =~= before + seq![sv[i as int]->Do_0]);
            },
            Step::Run(m, a) => {
                let args = MessageArgs::new(
                    a.message_info.duplicate(),
                    a.owner.clone(),
                    a.ctrlc_handler,
                    a.cleanup_on_ctrlc,
                    a.prefix.clone(),
                );
                let page = match &pages[i] {
                    Some(p) => Some(p.clone()),
                    None => None,
                };
                assert(page.deep_view() == pv[i as int]);
                let answered = run_command(*m, args, page);
                proof {
                    lemma_outcome_fails(*m, a.deep_view(), pv[i as int], answered.deep_view());
                }
                match answered {
                    None => {
                        assert(step_fails(sv[i as int], pv[i as int]));
                        return None;
                    },
                    Some(v) => {
                        proof {
                            answer = v.deep_view();
                        }
                        let mut j: usize = 0;
                        while j < v.len()
                            invariant
                                j <= v.len(),
                                answer == v.deep_view(),
                                out.deep_view() == before + answer.take(j as int),
                            decreases v.len() - j,
                        {
                            let ghost mid = out.deep_view();
                            out.push(v[j].duplicate());
                            assert(answer[j as int] == v[j as int].deep_view());
                            assert(answer.take(j + 1) =~= answer.take(j as int).push(answer[j as int]));
                            assert(out.deep_view() =~= mid.push(answer[j as int]));
                            assert(out.deep_view() =~= before + answer.take(j + 1));
                            j = j + 1;
                        }
                        assert(answer.take(v.len() as int) == answer);
                    },
                }
            },
        }
        proof {
            let t = sv.take(i + 1);
            let new_answers = answers.push(answer);
            assert(t.drop_last() == sv.take(i as int));
            assert(t.last() == sv[i as int]);
            assert(new_answers.drop_last() == answers);
            assert forall|k: int|
                0 <= k < t.len() implies (#[trigger] t[k] matches StepView::Run(m, a) ==> command_outcome(
                    m,
                    a,
                    pv[k],
                    Some(new_answers[k]),
                )) by {
                if k < i {
                    assert(t[k] == sv.take(i as int)[k]);
                }
            }
            answers = new_answers;
            assert(out.deep_view() =~= splice(t, answers));
        }
        i = i + 1;
    }
    assert(sv.take(steps.len() as int) == sv);
    Some(out)
}

} // verus!
