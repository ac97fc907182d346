//! Programs that the host runs for the agent.

use vstd::prelude::*;
use crate::outside::{lossy_text, text_of_bytes};

verus! {

/// The kind of machine that the agent runs on.
#[derive(Debug, Clone, Copy, PartialEq, Eq, Structural)]
pub enum Platform {
    Windows,
    Other,
}

/// One thing that the host does for the agent.
#[derive(Debug, PartialEq)]
pub enum Step {
    /// Run the program and wait until it ends.
    Run { program: String, args: Vec<String> },
    /// Start the program and go on at once.
    Spawn { program: String, args: Vec<String> },
    /// Wait.
    Pause { secs: u64 },
}

/// The mathematical value of a `Step`.
#[verifier::ext_equal]
pub enum StepView {
    Run { program: Seq<char>, args: Seq<Seq<char>> },
    Spawn { program: Seq<char>, args: Seq<Seq<char>> },
    Pause { secs: u64 },
}

impl DeepView for Step {
    type V = StepView;

    open spec fn deep_view(&self) -> StepView {
        match *self {
            Step::Run { program, args } => StepView::Run {
                program: program@,
                args: args.deep_view(),
            },
            Step::Spawn { program, args } => StepView::Spawn {
                program: program@,
                args: args.deep_view(),
            },
            Step::Pause { secs } => StepView::Pause { secs },
        }
    }
}

impl StepView {
    /// The program that the step starts, if it starts one.
    pub open spec fn program(self) -> Option<Seq<char>> {
        match self {
            StepView::Run { program, .. } => Some(program),
            StepView::Spawn { program, .. } => Some(program),
            StepView::Pause { .. } => None,
        }
    }
}

/// The texts of a list of string slices.
pub open spec fn texts_of(args: Seq<&str>) -> Seq<Seq<char>> {
    args.map_values(|arg: &str| arg@)
}

/// The same list, with strings of its own.
pub fn owned(args: &[&str]) -> (list: Vec<String>)
    ensures
        list.deep_view() == texts_of(args@),
{
    let mut list: Vec<String> = Vec::new();
    for i in 0..args.len()
        invariant
            list@.len() == i,
            forall|j: int| 0 <= j < i ==> (#[trigger] list@[j])@ == args@[j]@,
    {
        list.push(args[i].to_owned());
    }
    assert(list.deep_view() =~= texts_of(args@));
    list
}

/// Run the program and wait until it ends.
pub fn run(program: &str, args: &[&str]) -> (step: Step)
    ensures
        step.deep_view() == (StepView::Run { program: program@, args: texts_of(args@) }),
{
    Step::Run { program: program.to_owned(), args: owned(args) }
}

/// Start the program and go on at once.
pub fn spawn(program: &str, args: &[&str]) -> (step: Step)
    ensures
        step.deep_view() == (StepView::Spawn { program: program@, args: texts_of(args@) }),
{
    Step::Spawn { program: program.to_owned(), args: owned(args) }
}

/// Adds a step at the end.
pub fn push_step(steps: &mut Vec<Step>, step: Step)
    ensures
        final(steps).deep_view() == old(steps).deep_view().push(step.deep_view()),
{
    let ghost before = steps.deep_view();
    steps.push(step);
    assert(steps.deep_view() =~= before.push(step.deep_view()));
}

/// The text that a program wrote, if it could be run.
pub open spec fn output_view(output: Option<&[u8]>) -> Option<Seq<char>> {
    match output {
        Some(bytes) => Some(lossy_text(bytes@)),
        None => None,
    }
}

/// The text that a program wrote, where what it wrote is kept.
pub open spec fn kept_text(output: Option<Vec<u8>>) -> Option<Seq<char>> {
    match output {
        Some(bytes) => Some(lossy_text(bytes@)),
        None => None,
    }
}

/// What a program wrote, without taking it over.
pub fn borrowed(output: &Option<Vec<u8>>) -> (bytes: Option<&[u8]>)
    ensures
        output_view(bytes) == kept_text(*output),
        bytes is Some <==> output is Some,
{
    match output {
        Some(bytes) => Some(bytes.as_slice()),
        None => None,
    }
}

/// The text that a program wrote, if it could be run.
pub fn output_text(output: Option<&[u8]>) -> (text: Option<String>)
    ensures
        text.deep_view() == output_view(output),
{
    match output {
        Some(bytes) => Some(text_of_bytes(bytes)),
        None => None,
    }
}

/// A script that PowerShell runs.
pub open spec fn script_view(script: Seq<char>) -> StepView {
    StepView::Run { program: "powershell.exe"@, args: seq!["-NoProfile"@, "-Command"@, script] }
}

/// A script that PowerShell runs.
pub fn script_step(script: &str) -> (step: Step)
    ensures
        step.deep_view() == script_view(script@),
{
    let step = run("powershell.exe", &["-NoProfile", "-Command", script]);
    assert(step.deep_view() =~~= script_view(script@));
    step
}

/// The service manager asked about one service.
pub open spec fn service_query_view(name: Seq<char>) -> StepView {
    StepView::Run { program: "sc.exe"@, args: seq!["query"@, name] }
}

/// Asks the service manager about one service.
pub fn service_query(name: &str) -> (step: Step)
    ensures
        step.deep_view() == service_query_view(name@),
{
    let step = run("sc.exe", &["query", name]);
    assert(step.deep_view() =~= service_query_view(name@));
    step
}

/// What becomes of the service of the unbranded program: where it stands beside the agent's own
/// service it is stopped and, two seconds later, deleted.
pub open spec fn migration(platform: Platform, own: bool, stock: bool) -> Seq<StepView> {
    if platform == Platform::Windows && own && stock {
        seq![
            StepView::Run { program: "sc.exe"@, args: seq!["stop"@, "RustDesk"@] },
            StepView::Pause { secs: 2 },
            StepView::Run { program: "sc.exe"@, args: seq!["delete"@, "RustDesk"@] },
        ]
    } else {
        Seq::empty()
    }
}

/// Decides what becomes of the service of the unbranded program. `own` and `stock` say whether the
/// service manager knows the services "ConectDesk" and "RustDesk".
pub fn migrate_stock_service(platform: Platform, own: bool, stock: bool) -> (steps: Vec<Step>)
    ensures
        steps.deep_view() == migration(platform, own, stock),
{
    let mut steps: Vec<Step> = Vec::new();
    if platform == Platform::Windows && own && stock {
        push_step(&mut steps, run("sc.exe", &["stop", "RustDesk"]));
        push_step(&mut steps, Step::Pause { secs: 2 });
        push_step(&mut steps, run("sc.exe", &["delete", "RustDesk"]));
    }
    assert(steps.deep_view() =~~= migration(platform, own, stock));
    steps
}

/// The service of the unbranded program is stopped and two seconds later deleted exactly where both
/// services are there on Windows.
pub proof fn law_stock_service_goes_beside_the_own_one(platform: Platform, own: bool, stock: bool)
    ensures
        platform == Platform::Windows && own && stock ==> migration(platform, own, stock) == seq![
            StepView::Run { program: "sc.exe"@, args: seq!["stop"@, "RustDesk"@] },
            StepView::Pause { secs: 2 },
            StepView::Run { program: "sc.exe"@, args: seq!["delete"@, "RustDesk"@] },
        ],
        !(platform == Platform::Windows && own && stock) ==> migration(platform, own, stock).len()
            == 0,
{
}

/// What a program wrote is read as text, whatever it is, and a program that could not be run wrote
/// none. Scripts and questions name their program and hand over what they are given.
pub proof fn law_programs_get_what_they_are_given(
    bytes: Vec<u8>,
    name: Seq<char>,
    script: Seq<char>,
)
    ensures
        kept_text(Some(bytes)) == Some(lossy_text(bytes@)),
        kept_text(None) is None,
        service_query_view(name) == (StepView::Run {
            program: "sc.exe"@,
            args: seq!["query"@, name],
        }),
        script_view(script) == (StepView::Run {
            program: "powershell.exe"@,
            args: seq!["-NoProfile"@, "-Command"@, script],
        }),
{
}

} // verus!
