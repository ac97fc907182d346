//! Commands that the panel sends to the machine.
//!
//! The list of actions is closed, and what an action puts on a command line is checked first.

use vstd::prelude::*;
use vstd::slice::slice_subrange;
use crate::command::{
    push_step, run, script_step, script_view, spawn, Platform, Step, StepView,
};
use crate::json::{push_field, Json, JsonView};
use crate::text::{
    ascii_alphanumeric, ascii_lower, chars_of, decimal, decimal_text, digit, digit_value, ends_in,
    ends_with, glue, glue3, is_ascii_alphanumeric, is_digit, is_white_space,
    law_white_space_around_is_trimmed, lemma_trim_back, lemma_trim_front, lemma_trimmed_already,
    lower, same_text, string_of, trim, trim_front, trimmed, white,
};

verus! {

/// Empties the print queue and restarts the spooler.
pub const PRINT_CLEAR_SCRIPT: &'static str =
    "Stop-Service Spooler -Force -ErrorAction SilentlyContinue; Remove-Item \"$env:SystemRoot\\System32\\spool\\PRINTERS\\*\" -Force -ErrorAction SilentlyContinue; Start-Service Spooler -ErrorAction SilentlyContinue";

/// Restarts the agent's own service from a process that outlives it.
pub const RESTART_AGENT_SCRIPT: &'static str =
    "Start-Process powershell -WindowStyle Hidden -ArgumentList '-NoProfile','-Command',\"Stop-Service ConectDesk -Force -ErrorAction SilentlyContinue; Start-Sleep -Seconds 3; Start-Service ConectDesk -ErrorAction SilentlyContinue\"";

/// Empties the temporary directories, the recycle bin, the update cache and the prefetch cache.
pub const DEEP_CLEAN_SCRIPT: &'static str =
    "Get-ChildItem \"$env:TEMP\",\"$env:SystemRoot\\Temp\",\"$env:SystemRoot\\Prefetch\" -Force -ErrorAction SilentlyContinue | Remove-Item -Recurse -Force -ErrorAction SilentlyContinue; Clear-RecycleBin -Force -ErrorAction SilentlyContinue; Stop-Service wuauserv -Force -ErrorAction SilentlyContinue; Remove-Item \"$env:SystemRoot\\SoftwareDistribution\\Download\\*\" -Recurse -Force -ErrorAction SilentlyContinue; Start-Service wuauserv -ErrorAction SilentlyContinue";

/// The start of the script that schedules a restart, up to the hour.
pub const SCHEDULE_HEAD: &'static str = "$t=[datetime]::Today.AddHours(";

/// The script that schedules a restart, between the hour and the minute.
pub const SCHEDULE_MIDDLE: &'static str = ").AddMinutes(";

/// The end of the script that schedules a restart, from the minute on.
pub const SCHEDULE_TAIL: &'static str =
    "); if($t -lt (Get-Date)){$t=$t.AddDays(1)}; $s=[int]($t-(Get-Date)).TotalSeconds; shutdown /r /t $s /c 'ConectDesk: reinicio agendado pelo suporte'";

/// The most characters that a message for the screen has.
pub const MESSAGE_LIMIT: usize = 220;

/// What is done for an action.
#[derive(Debug, PartialEq)]
pub enum ActionPlan {
    /// Nothing is done.
    Refuse { message: String },
    /// All steps are taken, whatever comes of them.
    Do { steps: Vec<Step>, message: String },
    /// One step is taken, and its exit status decides.
    Try { step: Step, done: String, failed: String },
    /// The temporary directories are emptied.
    CleanTemp,
}

/// The mathematical value of an `ActionPlan`.
#[verifier::ext_equal]
pub enum PlanView {
    Refuse { message: Seq<char> },
    Do { steps: Seq<StepView>, message: Seq<char> },
    Try { step: StepView, done: Seq<char>, failed: Seq<char> },
    CleanTemp,
}

impl DeepView for ActionPlan {
    type V = PlanView;

    open spec fn deep_view(&self) -> PlanView {
        match *self {
            ActionPlan::Refuse { message } => PlanView::Refuse { message: message@ },
            ActionPlan::Do { steps, message } => PlanView::Do {
                steps: steps.deep_view(),
                message: message@,
            },
            ActionPlan::Try { step, done, failed } => PlanView::Try {
                step: step.deep_view(),
                done: done@,
                failed: failed@,
            },
            ActionPlan::CleanTemp => PlanView::CleanTemp,
        }
    }
}

impl PlanView {
    /// The steps that the plan takes.
    pub open spec fn steps(self) -> Seq<StepView> {
        match self {
            PlanView::Do { steps, .. } => steps,
            PlanView::Try { step, .. } => seq![step],
            _ => Seq::empty(),
        }
    }
}

// ---------------------------------------------------------------------------------------------
// What an argument must be
// ---------------------------------------------------------------------------------------------

/// The characters that the name of a program or of a service may have.
pub open spec fn is_name_char(c: char) -> bool {
    is_ascii_alphanumeric(c) || c == '.' || c == '_' || c == '-'
}

/// Every character may stand in a name.
pub open spec fn is_name(s: Seq<char>) -> bool {
    forall|i: int| 0 <= i < s.len() ==> is_name_char(#[trigger] s[i])
}

/// The name of a service.
pub open spec fn is_service_name(s: Seq<char>) -> bool {
    s.len() > 0 && is_name(s)
}

/// The name of a program file: a name that ends in ".exe" in any case of letters.
pub open spec fn is_image_name(s: Seq<char>) -> bool {
    s.len() > 0 && is_name(s) && ends_in(s.map_values(|c: char| ascii_lower(c)), ".exe"@)
}

/// The number that two digits stand for.
pub open spec fn two_digits(tens: char, ones: char) -> int {
    digit_value(tens) * 10 + digit_value(ones)
}

/// A time of day written HH:MM, with two digits for the hour and two for the minute.
pub open spec fn is_clock_time(s: Seq<char>) -> bool {
    &&& s.len() == 5
    &&& is_digit(s[0])
    &&& is_digit(s[1])
    &&& s[2] == ':'
    &&& is_digit(s[3])
    &&& is_digit(s[4])
    &&& two_digits(s[0], s[1]) < 24
    &&& two_digits(s[3], s[4]) < 60
}

/// Neither a carriage return nor a line feed.
pub open spec fn in_line() -> spec_fn(char) -> bool {
    |c: char| c != '\r' && c != '\n'
}

/// The first characters of a text, as many as a message may have, on one line.
pub open spec fn message_text(s: Seq<char>) -> Seq<char> {
    let line = s.filter(in_line());
    if line.len() <= MESSAGE_LIMIT {
        line
    } else {
        line.take(MESSAGE_LIMIT as int)
    }
}

/// Whether every character may stand in a name.
fn name_ok(s: &[char]) -> (ok: bool)
    ensures
        ok == is_name(s@),
{
    for i in 0..s.len()
        invariant
            forall|j: int| 0 <= j < i ==> is_name_char(#[trigger] s@[j]),
    {
        let c = s[i];
        if !(ascii_alphanumeric(c) || c == '.' || c == '_' || c == '-') {
            assert(!is_name_char(s@[i as int]));
            return false;
        }
    }
    true
}

/// Whether it is the name of a program file.
fn image_name_ok(s: &[char]) -> (ok: bool)
    ensures
        ok == is_image_name(s@),
{
    let mut small: Vec<char> = Vec::new();
    for i in 0..s.len()
        invariant
            small@.len() == i,
            forall|j: int| 0 <= j < i ==> #[trigger] small@[j] == ascii_lower(s@[j]),
    {
        small.push(lower(s[i]));
    }
    assert(small@ =~= s@.map_values(|c: char| ascii_lower(c)));
    let ending = chars_of(".exe");
    s.len() > 0 && name_ok(s) && ends_with(small.as_slice(), ending.as_slice())
}

/// The number that two digits stand for.
fn read_two(tens: char, ones: char) -> (number: u32)
    requires
        is_digit(tens),
        is_digit(ones),
    ensures
        number == two_digits(tens, ones),
{
    (tens as u32 - 48) * 10 + (ones as u32 - 48)
}

/// Whether it is a time of day.
fn clock_time_ok(s: &[char]) -> (ok: bool)
    ensures
        ok == is_clock_time(s@),
{
    if s.len() != 5 || s[2] != ':' {
        return false;
    }
    if !digit(s[0]) || !digit(s[1]) || !digit(s[3]) || !digit(s[4]) {
        return false;
    }
    read_two(s[0], s[1]) < 24 && read_two(s[3], s[4]) < 60
}

/// The text of a message.
fn message_chars(s: &[char]) -> (line: Vec<char>)
    ensures
        line@ == message_text(s@),
{
    let mut line: Vec<char> = Vec::new();
    assert(s@.take(0).filter(in_line()) =~= Seq::<char>::empty()) by {
        reveal(Seq::filter);
    }
    for i in 0..s.len()
        invariant
            line@ == message_text(s@.take(i as int)),
    {
        let ghost before = s@.take(i as int).filter(in_line());
        let ghost after = s@.take(i as int + 1).filter(in_line());
        proof {
            reveal(Seq::filter);
            assert(s@.take(i as int + 1).drop_last() =~= s@.take(i as int));
            assert(after == (if in_line()(s@[i as int]) {
                before.push(s@[i as int])
            } else {
                before
            }));
        }
        if s[i] != '\r' && s[i] != '\n' && line.len() < MESSAGE_LIMIT {
            line.push(s[i]);
        }
        assert(line@ =~= message_text(s@.take(i as int + 1)));
    }
    assert(s@.take(s@.len() as int) =~= s@);
    line
}

// ---------------------------------------------------------------------------------------------
// The actions
// ---------------------------------------------------------------------------------------------

/// One program that is run.
pub open spec fn run_view(program: Seq<char>, args: Seq<Seq<char>>) -> StepView {
    StepView::Run { program, args }
}

/// The steps and the message of the actions that take no argument and cannot fail.
pub open spec fn fixed_action(action: Seq<char>) -> Option<(Seq<StepView>, Seq<char>)> {
    if action == "cancel_reboot"@ {
        Some((seq![run_view("shutdown.exe"@, seq!["/a"@])], "reboot cancelado"@))
    } else if action == "print_clear"@ {
        Some(
            (
                seq![script_view(PRINT_CLEAR_SCRIPT@)],
                "fila de impressão limpa + spooler reiniciado"@,
            ),
        )
    } else if action == "windows_update"@ {
        Some((seq![run_view("UsoClient.exe"@, seq!["StartInstall"@])], "Windows Update disparado"@))
    } else if action == "logoff"@ {
        Some((seq![run_view("shutdown.exe"@, seq!["/l"@])], "logoff solicitado"@))
    } else if action == "lock"@ {
        Some(
            (
                seq![run_view("rundll32.exe"@, seq!["user32.dll,LockWorkStation"@])],
                "bloqueio de tela solicitado"@,
            ),
        )
    } else if action == "restart_agent"@ {
        Some(
            (
                seq![
                    StepView::Spawn {
                        program: "powershell.exe"@,
                        args: seq!["-NoProfile"@, "-Command"@, RESTART_AGENT_SCRIPT@],
                    },
                ],
                "agente ConectDesk reiniciando"@,
            ),
        )
    } else if action == "flush_dns"@ {
        Some(
            (
                seq![
                    run_view("ipconfig.exe"@, seq!["/flushdns"@]),
                    run_view("ipconfig.exe"@, seq!["/registerdns"@]),
                ],
                "DNS limpo + registrado"@,
            ),
        )
    } else if action == "deep_clean"@ {
        Some(
            (
                seq![script_view(DEEP_CLEAN_SCRIPT@)],
                "limpeza profunda concluída (temp, lixeira, cache de update, prefetch)"@,
            ),
        )
    } else if action == "chkdsk"@ {
        Some(
            (
                seq![run_view("chkdsk.exe"@, seq!["C:"@, "/scan"@])],
                "chkdsk (scan online) executado"@,
            ),
        )
    } else if action == "sfc"@ {
        Some((seq![run_view("sfc.exe"@, seq!["/scannow"@])], "sfc /scannow executado"@))
    } else {
        None
    }
}

/// The script that restarts the machine at the next `time`.
pub open spec fn schedule_script(time: Seq<char>) -> Seq<char> {
    SCHEDULE_HEAD@ + time.take(2) + SCHEDULE_MIDDLE@ + time.skip(3) + SCHEDULE_TAIL@
}

/// One request to the service manager.
pub open spec fn service_step(verb: Seq<char>, name: Seq<char>) -> StepView {
    StepView::Run { program: "sc.exe"@, args: seq![verb, name] }
}

/// What is done on Windows for an action with its argument.
pub open spec fn windows_plan(action: Seq<char>, arg: Seq<char>) -> PlanView {
    let word = trimmed(arg);
    if action == "reboot"@ {
        PlanView::Try {
            step: StepView::Run {
                program: "shutdown.exe"@,
                args: seq![
                    "/r"@,
                    "/t"@,
                    "30"@,
                    "/c"@,
                    "ConectDesk: reinicio remoto solicitado pelo suporte"@,
                ],
            },
            done: "reboot agendado (30s)"@,
            failed: "falha ao agendar reboot"@,
        }
    } else if action == "shutdown"@ {
        PlanView::Try {
            step: StepView::Run {
                program: "shutdown.exe"@,
                args: seq![
                    "/s"@,
                    "/t"@,
                    "30"@,
                    "/c"@,
                    "ConectDesk: desligamento solicitado pelo suporte"@,
                ],
            },
            done: "desligamento agendado (30s)"@,
            failed: "falha ao desligar"@,
        }
    } else if action == "cleanup_temp"@ {
        PlanView::CleanTemp
    } else if action == "kill_process"@ {
        if is_image_name(word) {
            PlanView::Try {
                step: StepView::Run {
                    program: "taskkill.exe"@,
                    args: seq!["/F"@, "/IM"@, word],
                },
                done: word + " encerrado"@,
                failed: "falha ao encerrar "@ + word,
            }
        } else {
            PlanView::Refuse { message: "nome de processo inválido"@ }
        }
    } else if action == "service_start"@ || action == "service_stop"@ || action
        == "service_restart"@ {
        if !is_service_name(word) {
            PlanView::Refuse { message: "nome de serviço inválido"@ }
        } else if action == "service_start"@ {
            PlanView::Do {
                steps: seq![service_step("start"@, word)],
                message: "serviço "@ + word + " iniciado"@,
            }
        } else if action == "service_stop"@ {
            PlanView::Do {
                steps: seq![service_step("stop"@, word)],
                message: "serviço "@ + word + " parado"@,
            }
        } else {
            PlanView::Do {
                steps: seq![
                    service_step("stop"@, word),
                    StepView::Pause { secs: 3 },
                    service_step("start"@, word),
                ],
                message: "serviço "@ + word + " reiniciado"@,
            }
        }
    } else if action == "schedule_reboot"@ {
        if is_clock_time(word) {
            PlanView::Do {
                steps: seq![script_view(schedule_script(word))],
                message: "reinício agendado para "@ + word,
            }
        } else {
            PlanView::Refuse { message: "horário inválido (use HH:MM)"@ }
        }
    } else if action == "message"@ {
        if trimmed(message_text(arg)).len() > 0 {
            PlanView::Do {
                steps: seq![
                    StepView::Run {
                        program: "msg.exe"@,
                        args: seq!["*"@, "/TIME:60"@, message_text(arg)],
                    },
                ],
                message: "mensagem enviada ao cliente"@,
            }
        } else {
            PlanView::Refuse { message: "mensagem vazia"@ }
        }
    } else {
        match fixed_action(action) {
            Some((steps, message)) => PlanView::Do { steps, message },
            None => PlanView::Refuse { message: "ação desconhecida: "@ + action },
        }
    }
}

/// What is done for an action with its argument. Only Windows has actions.
pub open spec fn action_plan(platform: Platform, action: Seq<char>, arg: Seq<char>) -> PlanView {
    match platform {
        Platform::Windows => windows_plan(action, arg),
        Platform::Other => PlanView::Refuse { message: "não suportado"@ },
    }
}

/// The actions that take no argument and cannot fail.
fn fixed_plan(action: &str) -> (plan: Option<ActionPlan>)
    ensures
        plan.deep_view() == (match fixed_action(action@) {
            Some((steps, message)) => Some(PlanView::Do { steps, message }),
            None => None,
        }),
{
    let mut steps: Vec<Step> = Vec::new();
    let message: &str;
    if same_text(action, "cancel_reboot") {
        push_step(&mut steps, run("shutdown.exe", &["/a"]));
        message = "reboot cancelado";
    } else if same_text(action, "print_clear") {
        push_step(&mut steps, script_step(PRINT_CLEAR_SCRIPT));
        message = "fila de impressão limpa + spooler reiniciado";
    } else if same_text(action, "windows_update") {
        push_step(&mut steps, run("UsoClient.exe", &["StartInstall"]));
        message = "Windows Update disparado";
    } else if same_text(action, "logoff") {
        push_step(&mut steps, run("shutdown.exe", &["/l"]));
        message = "logoff solicitado";
    } else if same_text(action, "lock") {
        push_step(&mut steps, run("rundll32.exe", &["user32.dll,LockWorkStation"]));
        message = "bloqueio de tela solicitado";
    } else if same_text(action, "restart_agent") {
        push_step(
            &mut steps,
            spawn("powershell.exe", &["-NoProfile", "-Command", RESTART_AGENT_SCRIPT]),
        );
        message = "agente ConectDesk reiniciando";
    } else if same_text(action, "flush_dns") {
        push_step(&mut steps, run("ipconfig.exe", &["/flushdns"]));
        push_step(&mut steps, run("ipconfig.exe", &["/registerdns"]));
        message = "DNS limpo + registrado";
    } else if same_text(action, "deep_clean") {
        push_step(&mut steps, script_step(DEEP_CLEAN_SCRIPT));
        message = "limpeza profunda concluída (temp, lixeira, cache de update, prefetch)";
    } else if same_text(action, "chkdsk") {
        push_step(&mut steps, run("chkdsk.exe", &["C:", "/scan"]));
        message = "chkdsk (scan online) executado";
    } else if same_text(action, "sfc") {
        push_step(&mut steps, run("sfc.exe", &["/scannow"]));
        message = "sfc /scannow executado";
    } else {
        return None;
    }
    let plan = ActionPlan::Do { steps, message: message.to_owned() };
    proof {
        let (wanted, told) = fixed_action(action@).unwrap();
        assert(plan.deep_view()->Do_steps =~~= wanted);
    }
    Some(plan)
}

/// Refuses with a message.
fn refuse(message: &str) -> (plan: ActionPlan)
    ensures
        plan.deep_view() == (PlanView::Refuse { message: message@ }),
{
    ActionPlan::Refuse { message: message.to_owned() }
}

/// The plan for a request about a service.
fn service_plan(action: &str, word: &[char]) -> (plan: ActionPlan)
    requires
        action@ == "service_start"@ || action@ == "service_stop"@ || action@
            == "service_restart"@,
    ensures
        forall|arg: Seq<char>|
            trimmed(arg) == word@ ==> plan.deep_view() == #[trigger] windows_plan(action@, arg),
{
    proof {
        lemma_service_actions_stand_alone(action@);
    }
    if word.len() == 0 || !name_ok(word) {
        return refuse("nome de serviço inválido");
    }
    let name = string_of(word);
    let mut steps: Vec<Step> = Vec::new();
    let ending: &str;
    if same_text(action, "service_start") {
        push_step(&mut steps, run("sc.exe", &["start", name.as_str()]));
        ending = " iniciado";
        assert(steps.deep_view() =~~= seq![service_step("start"@, word@)]);
    } else if same_text(action, "service_stop") {
        push_step(&mut steps, run("sc.exe", &["stop", name.as_str()]));
        ending = " parado";
        assert(steps.deep_view() =~~= seq![service_step("stop"@, word@)]);
    } else {
        push_step(&mut steps, run("sc.exe", &["stop", name.as_str()]));
        push_step(&mut steps, Step::Pause { secs: 3 });
        push_step(&mut steps, run("sc.exe", &["start", name.as_str()]));
        ending = " reiniciado";
        assert(steps.deep_view() =~~= seq![
            service_step("stop"@, word@),
            StepView::Pause { secs: 3 },
            service_step("start"@, word@),
        ]);
    }
    ActionPlan::Do { steps, message: glue3("serviço ", name.as_str(), ending) }
}

/// The names of the actions on services differ from those that are asked for before them.
proof fn lemma_service_actions_stand_alone(action: Seq<char>)
    ensures
        action == "service_start"@ || action == "service_stop"@ || action == "service_restart"@
            ==> action != "reboot"@ && action != "shutdown"@ && action != "cleanup_temp"@ && action
            != "kill_process"@,
{
    reveal_strlit("service_start");
    reveal_strlit("service_stop");
    reveal_strlit("service_restart");
    reveal_strlit("reboot");
    reveal_strlit("shutdown");
    reveal_strlit("cleanup_temp");
    reveal_strlit("kill_process");
    assert("service_start"@[1] == 'e' && "service_stop"@[1] == 'e' && "service_restart"@[1] == 'e');
    assert("shutdown"@[1] == 'h' && "reboot"@[0] == 'r');
    assert("cleanup_temp"@[0] == 'c' && "kill_process"@[0] == 'k');
    assert("service_start"@[0] == 's' && "service_stop"@[0] == 's' && "service_restart"@[0] == 's');
}

/// Decides what is done for an action with its argument.
pub fn exec_remote_action(platform: Platform, action: &str, arg: &str) -> (plan: ActionPlan)
    ensures
        plan.deep_view() == action_plan(platform, action@, arg@),
{
    if platform == Platform::Other {
        return refuse("não suportado");
    }
    let chars = chars_of(arg);
    let word = trim(chars.as_slice());
    if same_text(action, "reboot") {
        let step = run(
            "shutdown.exe",
            &["/r", "/t", "30", "/c", "ConectDesk: reinicio remoto solicitado pelo suporte"],
        );
        assert(step.deep_view() =~~= windows_plan(action@, arg@)->Try_step);
        ActionPlan::Try {
            step,
            done: "reboot agendado (30s)".to_owned(),
            failed: "falha ao agendar reboot".to_owned(),
        }
    } else if same_text(action, "shutdown") {
        let step = run(
            "shutdown.exe",
            &["/s", "/t", "30", "/c", "ConectDesk: desligamento solicitado pelo suporte"],
        );
        assert(step.deep_view() =~~= windows_plan(action@, arg@)->Try_step);
        ActionPlan::Try {
            step,
            done: "desligamento agendado (30s)".to_owned(),
            failed: "falha ao desligar".to_owned(),
        }
    } else if same_text(action, "cleanup_temp") {
        ActionPlan::CleanTemp
    } else if same_text(action, "kill_process") {
        if !image_name_ok(word) {
            return refuse("nome de processo inválido");
        }
        let name = string_of(word);
        let step = run("taskkill.exe", &["/F", "/IM", name.as_str()]);
        assert(step.deep_view() =~~= windows_plan(action@, arg@)->Try_step);
        ActionPlan::Try {
            step,
            done: glue(name.as_str(), " encerrado"),
            failed: glue("falha ao encerrar ", name.as_str()),
        }
    } else if same_text(action, "service_start") || same_text(action, "service_stop") || same_text(
        action,
        "service_restart",
    ) {
        service_plan(action, word)
    } else if same_text(action, "schedule_reboot") {
        if !clock_time_ok(word) {
            return refuse("horário inválido (use HH:MM)");
        }
        let hour = slice_subrange(word, 0, 2);
        let minute = slice_subrange(word, 3, word.len());
        assert(hour@ =~= word@.take(2));
        assert(minute@ =~= word@.skip(3));
        let head = glue3(SCHEDULE_HEAD, string_of(hour).as_str(), SCHEDULE_MIDDLE);
        let script = glue3(head.as_str(), string_of(minute).as_str(), SCHEDULE_TAIL);
        let mut steps: Vec<Step> = Vec::new();
        push_step(&mut steps, script_step(script.as_str()));
        assert(steps.deep_view() =~~= windows_plan(action@, arg@)->Do_steps);
        ActionPlan::Do { steps, message: glue("reinício agendado para ", string_of(word).as_str()) }
    } else if same_text(action, "message") {
        let line = message_chars(chars.as_slice());
        if trim(line.as_slice()).len() == 0 {
            return refuse("mensagem vazia");
        }
        let text = string_of(line.as_slice());
        let mut steps: Vec<Step> = Vec::new();
        push_step(&mut steps, run("msg.exe", &["*", "/TIME:60", text.as_str()]));
        assert(steps.deep_view() =~~= windows_plan(action@, arg@)->Do_steps);
        ActionPlan::Do { steps, message: "mensagem enviada ao cliente".to_owned() }
    } else {
        match fixed_plan(action) {
            Some(plan) => plan,
            None => ActionPlan::Refuse { message: glue("ação desconhecida: ", action) },
        }
    }
}

/// What the panel is told of an action: whether it was done, and a message. `succeeded` is the
/// exit status of the step that decides, and `freed` the bytes of the files that were removed.
pub open spec fn outcome(plan: PlanView, succeeded: bool, freed: u64) -> (bool, Seq<char>) {
    match plan {
        PlanView::Refuse { message } => (false, message),
        PlanView::Do { message, .. } => (true, message),
        PlanView::Try { done, failed, .. } => if succeeded {
            (true, done)
        } else {
            (false, failed)
        },
        PlanView::CleanTemp => (
            true,
            "temp limpo (~"@ + decimal((freed / 1048576) as nat) + " MB liberados)"@,
        ),
    }
}

/// What the panel is told of an action once it is over.
pub fn action_outcome(plan: &ActionPlan, succeeded: bool, freed: u64) -> (told: (bool, String))
    ensures
        told.deep_view() == outcome(plan.deep_view(), succeeded, freed),
{
    match plan {
        ActionPlan::Refuse { message } => (false, message.clone()),
        ActionPlan::Do { steps, message } => (true, message.clone()),
        ActionPlan::Try { step, done, failed } => if succeeded {
            (true, done.clone())
        } else {
            (false, failed.clone())
        },
        ActionPlan::CleanTemp => {
            let size = decimal_text(freed / 1048576);
            (true, glue3("temp limpo (~", size.as_str(), " MB liberados)"))
        },
    }
}

// ---------------------------------------------------------------------------------------------
// Emptying the temporary directories
// ---------------------------------------------------------------------------------------------

/// The directories that are emptied: the one that the environment names, if it names one, and the
/// one of the system.
pub open spec fn temp_dir_texts(named: Option<Seq<char>>) -> Seq<Seq<char>> {
    match named {
        Some(dir) => seq![dir, "C:\\Windows\\Temp"@],
        None => seq!["C:\\Windows\\Temp"@],
    }
}

/// The directories that are emptied.
pub fn temp_dirs(named: Option<String>) -> (dirs: Vec<String>)
    ensures
        dirs.deep_view() == temp_dir_texts(named.deep_view()),
{
    let ghost want = temp_dir_texts(named.deep_view());
    let mut dirs: Vec<String> = Vec::new();
    if let Some(dir) = named {
        dirs.push(dir);
    }
    dirs.push("C:\\Windows\\Temp".to_owned());
    assert(dirs.deep_view() =~= want);
    dirs
}

/// How an entry of a temporary directory is removed.
#[derive(Debug, Clone, Copy, PartialEq, Eq, Structural)]
pub enum Removal {
    /// The link itself goes, and what it points to stays.
    Link,
    /// The file goes.
    File,
    /// The directory goes with all that it holds.
    Tree,
    /// The entry stays.
    Keep,
}

/// How an entry is removed, by what it is without following links.
pub open spec fn removal(is_link: bool, is_file: bool, is_dir: bool) -> Removal {
    if is_link {
        Removal::Link
    } else if is_file {
        Removal::File
    } else if is_dir {
        Removal::Tree
    } else {
        Removal::Keep
    }
}

/// The bytes that are freed once an entry is removed: only files count.
pub open spec fn freed_after(removal: Removal, len: u64, freed: u64) -> int {
    if removal == Removal::File {
        freed + len
    } else {
        freed as int
    }
}

/// Decides how an entry is removed, and counts the bytes that its removal frees. A link is never
/// followed, and only files are counted.
pub fn cleanup_entry(is_link: bool, is_file: bool, is_dir: bool, len: u64, freed: u64) -> (next: (
    Removal,
    u64,
))
    requires
        removal(is_link, is_file, is_dir) == Removal::File ==> freed + len <= u64::MAX,
    ensures
        next.0 == removal(is_link, is_file, is_dir),
        next.1 == freed_after(next.0, len, freed),
{
    if is_link {
        (Removal::Link, freed)
    } else if is_file {
        (Removal::File, freed + len)
    } else if is_dir {
        (Removal::Tree, freed)
    } else {
        (Removal::Keep, freed)
    }
}

// ---------------------------------------------------------------------------------------------
// Commands in the queue
// ---------------------------------------------------------------------------------------------

/// A command that the panel put into the queue.
#[derive(Debug, PartialEq)]
pub struct RemoteCommand {
    pub id: String,
    pub action: String,
    pub arg: String,
}

/// The mathematical value of a `RemoteCommand`.
pub struct CommandView {
    pub id: Seq<char>,
    pub action: Seq<char>,
    pub arg: Seq<char>,
}

impl DeepView for RemoteCommand {
    type V = CommandView;

    open spec fn deep_view(&self) -> CommandView {
        CommandView { id: self.id@, action: self.action@, arg: self.arg@ }
    }
}

/// The command that a JSON value describes. A command without an id is passed over.
pub open spec fn command_of(cmd: JsonView) -> Option<CommandView> {
    if cmd.text_field("id"@).len() == 0 {
        None
    } else {
        Some(
            CommandView {
                id: cmd.text_field("id"@),
                action: cmd.text_field("action"@),
                arg: cmd.text_field("arg"@),
            },
        )
    }
}

/// Reads a command.
pub fn remote_command(cmd: &Json) -> (command: Option<RemoteCommand>)
    ensures
        command.deep_view() == command_of(cmd@),
{
    let id = cmd.text_field("id");
    if id.as_str().is_empty() {
        return None;
    }
    Some(RemoteCommand { id, action: cmd.text_field("action"), arg: cmd.text_field("arg") })
}

/// What is reported of a command.
pub open spec fn ack_view(id: Seq<char>, ok: bool, message: Seq<char>) -> JsonView {
    JsonView::Object(
        seq![
            ("id"@, JsonView::Text(id)),
            ("ok"@, JsonView::Bool(ok)),
            ("message"@, JsonView::Text(message)),
        ],
    )
}

/// The report on a command.
pub fn command_ack(id: &str, ok: bool, message: &str) -> (report: Json)
    ensures
        report@ == ack_view(id@, ok, message@),
{
    let mut fields: Vec<(String, Json)> = Vec::new();
    push_field(&mut fields, "id", Json::text(id));
    push_field(&mut fields, "ok", Json::Bool(ok));
    push_field(&mut fields, "message", Json::text(message));
    assert(fields.deep_view() =~= ack_view(id@, ok, message@)->Object_0);
    Json::object(fields)
}

// ---------------------------------------------------------------------------------------------
// Laws
// ---------------------------------------------------------------------------------------------

/// The names of all actions.
pub open spec fn known_actions() -> Seq<Seq<char>> {
    seq![
        "reboot"@,
        "cancel_reboot"@,
        "cleanup_temp"@,
        "kill_process"@,
        "service_start"@,
        "service_stop"@,
        "service_restart"@,
        "print_clear"@,
        "windows_update"@,
        "shutdown"@,
        "logoff"@,
        "lock"@,
        "schedule_reboot"@,
        "restart_agent"@,
        "flush_dns"@,
        "message"@,
        "deep_clean"@,
        "chkdsk"@,
        "sfc"@,
    ]
}

/// An action that is not on the list is refused, whatever its argument.
pub proof fn law_unknown_action_is_refused(platform: Platform, action: Seq<char>, arg: Seq<char>)
    requires
        !known_actions().contains(action),
    ensures
        action_plan(platform, action, arg) is Refuse,
        action_plan(Platform::Windows, action, arg)->Refuse_message == "ação desconhecida: "@
            + action,
{
    let known = known_actions();
    assert(known[0] == "reboot"@);
    assert(known[1] == "cancel_reboot"@);
    assert(known[2] == "cleanup_temp"@);
    assert(known[3] == "kill_process"@);
    assert(known[4] == "service_start"@);
    assert(known[5] == "service_stop"@);
    assert(known[6] == "service_restart"@);
    assert(known[7] == "print_clear"@);
    assert(known[8] == "windows_update"@);
    assert(known[9] == "shutdown"@);
    assert(known[10] == "logoff"@);
    assert(known[11] == "lock"@);
    assert(known[12] == "schedule_reboot"@);
    assert(known[13] == "restart_agent"@);
    assert(known[14] == "flush_dns"@);
    assert(known[15] == "message"@);
    assert(known[16] == "deep_clean"@);
    assert(known[17] == "chkdsk"@);
    assert(known[18] == "sfc"@);
}

/// The programs that actions run.
pub open spec fn action_programs() -> Seq<Seq<char>> {
    seq![
        "shutdown.exe"@,
        "taskkill.exe"@,
        "sc.exe"@,
        "powershell.exe"@,
        "UsoClient.exe"@,
        "rundll32.exe"@,
        "ipconfig.exe"@,
        "msg.exe"@,
        "chkdsk.exe"@,
        "sfc.exe"@,
    ]
}

/// No action runs any program but the ones on the list.
pub proof fn law_only_listed_programs_run(
    platform: Platform,
    action: Seq<char>,
    arg: Seq<char>,
    i: int,
)
    requires
        0 <= i < action_plan(platform, action, arg).steps().len(),
    ensures
        action_plan(platform, action, arg).steps()[i].program() matches Some(program)
            ==> action_programs().contains(program),
{
    let programs = action_programs();
    assert(programs[0] == "shutdown.exe"@);
    assert(programs[1] == "taskkill.exe"@);
    assert(programs[2] == "sc.exe"@);
    assert(programs[3] == "powershell.exe"@);
    assert(programs[4] == "UsoClient.exe"@);
    assert(programs[5] == "rundll32.exe"@);
    assert(programs[6] == "ipconfig.exe"@);
    assert(programs[7] == "msg.exe"@);
    assert(programs[8] == "chkdsk.exe"@);
    assert(programs[9] == "sfc.exe"@);
}

/// Where a program or a service is named on a command line, the name has only letters, digits,
/// points, underscores and hyphens.
pub proof fn law_names_on_command_lines_are_plain(action: Seq<char>, arg: Seq<char>)
    requires
        action == "kill_process"@ || action == "service_start"@ || action == "service_stop"@
            || action == "service_restart"@,
        windows_plan(action, arg).steps().len() > 0,
    ensures
        trimmed(arg).len() > 0,
        is_name(trimmed(arg)),
{
    reveal_strlit("kill_process");
    reveal_strlit("reboot");
    reveal_strlit("shutdown");
    reveal_strlit("cleanup_temp");
    assert("kill_process"@[0] == 'k' && "reboot"@[0] == 'r' && "shutdown"@[0] == 's'
        && "cleanup_temp"@[0] == 'c');
    lemma_service_actions_stand_alone(action);
}

/// What the script for a scheduled restart has from the panel is an hour and a minute, in two digits
/// each.
pub proof fn law_scheduled_time_is_digits(arg: Seq<char>, i: int)
    requires
        windows_plan("schedule_reboot"@, arg).steps().len() > 0,
        0 <= i < 2,
    ensures
        ({
            let time = trimmed(arg);
            &&& is_digit(time.take(2)[i])
            &&& time.skip(3).len() == 2
            &&& is_digit(time.skip(3)[i])
            &&& windows_plan("schedule_reboot"@, arg).steps() == seq![
                script_view(schedule_script(time)),
            ]
        }),
{
    reveal_strlit("schedule_reboot");
    reveal_strlit("reboot");
    reveal_strlit("shutdown");
    reveal_strlit("cleanup_temp");
    reveal_strlit("kill_process");
    reveal_strlit("service_start");
    reveal_strlit("service_stop");
    reveal_strlit("service_restart");
    assert("schedule_reboot"@[1] == 'c');
    assert("service_restart"@[1] == 'e');
}

/// A message for the screen is one line of a bounded length.
pub proof fn law_message_is_one_line(text: Seq<char>)
    ensures
        message_text(text).len() <= MESSAGE_LIMIT,
        forall|i: int|
            0 <= i < message_text(text).len() ==> #[trigger] message_text(text)[i] != '\r'
                && message_text(text)[i] != '\n',
{
    let line = text.filter(in_line());
    assert forall|i: int| 0 <= i < line.len() implies #[trigger] line[i] != '\r' && line[i]
        != '\n' by {
        text.lemma_filter_pred(in_line(), i);
    }
}

/// What a link in a temporary directory points to is never removed: a directory goes with all that
/// it holds only where it is no link.
pub proof fn law_links_are_not_followed(is_link: bool, is_file: bool, is_dir: bool)
    ensures
        is_link ==> removal(is_link, is_file, is_dir) == Removal::Link,
        removal(is_link, is_file, is_dir) == Removal::Tree ==> !is_link && is_dir,
{
}

/// The lengths and first letters of the names of actions, by which they differ.
proof fn lemma_action_names()
    ensures
        "reboot"@.len() == 6 && "reboot"@[0] == 'r',
        "cancel_reboot"@.len() == 13 && "cancel_reboot"@[0] == 'c',
        "cleanup_temp"@.len() == 12 && "cleanup_temp"@[0] == 'c',
        "kill_process"@.len() == 12 && "kill_process"@[0] == 'k',
        "service_start"@.len() == 13 && "service_start"@[0] == 's',
        "service_stop"@.len() == 12 && "service_stop"@[0] == 's',
        "service_restart"@.len() == 15 && "service_restart"@[1] == 'e',
        "print_clear"@.len() == 11,
        "windows_update"@.len() == 14,
        "shutdown"@.len() == 8,
        "logoff"@.len() == 6 && "logoff"@[0] == 'l',
        "lock"@.len() == 4,
        "schedule_reboot"@.len() == 15 && "schedule_reboot"@[1] == 'c',
        "restart_agent"@.len() == 13 && "restart_agent"@[0] == 'r',
        "flush_dns"@.len() == 9,
        "message"@.len() == 7,
        "deep_clean"@.len() == 10,
        "chkdsk"@.len() == 6 && "chkdsk"@[0] == 'c',
        "sfc"@.len() == 3,
{
    reveal_strlit("reboot");
    reveal_strlit("cancel_reboot");
    reveal_strlit("cleanup_temp");
    reveal_strlit("kill_process");
    reveal_strlit("service_start");
    reveal_strlit("service_stop");
    reveal_strlit("service_restart");
    reveal_strlit("print_clear");
    reveal_strlit("windows_update");
    reveal_strlit("shutdown");
    reveal_strlit("logoff");
    reveal_strlit("lock");
    reveal_strlit("schedule_reboot");
    reveal_strlit("restart_agent");
    reveal_strlit("flush_dns");
    reveal_strlit("message");
    reveal_strlit("deep_clean");
    reveal_strlit("chkdsk");
    reveal_strlit("sfc");
}

/// The program runs with these arguments, whatever comes of it, and the panel is told this.
pub open spec fn does(program: Seq<char>, args: Seq<Seq<char>>, message: Seq<char>) -> PlanView {
    PlanView::Do { steps: seq![StepView::Run { program, args }], message }
}

/// The actions that take no argument do one thing each, whatever the argument says.
pub proof fn law_actions_without_argument_ignore_it(arg: Seq<char>)
    ensures
        windows_plan("reboot"@, arg) == (PlanView::Try {
            step: StepView::Run {
                program: "shutdown.exe"@,
                args: seq![
                    "/r"@,
                    "/t"@,
                    "30"@,
                    "/c"@,
                    "ConectDesk: reinicio remoto solicitado pelo suporte"@,
                ],
            },
            done: "reboot agendado (30s)"@,
            failed: "falha ao agendar reboot"@,
        }),
        windows_plan("shutdown"@, arg) == (PlanView::Try {
            step: StepView::Run {
                program: "shutdown.exe"@,
                args: seq![
                    "/s"@,
                    "/t"@,
                    "30"@,
                    "/c"@,
                    "ConectDesk: desligamento solicitado pelo suporte"@,
                ],
            },
            done: "desligamento agendado (30s)"@,
            failed: "falha ao desligar"@,
        }),
        windows_plan("cleanup_temp"@, arg) == PlanView::CleanTemp,
        windows_plan("cancel_reboot"@, arg) == does(
            "shutdown.exe"@,
            seq!["/a"@],
            "reboot cancelado"@,
        ),
        windows_plan("windows_update"@, arg) == does(
            "UsoClient.exe"@,
            seq!["StartInstall"@],
            "Windows Update disparado"@,
        ),
        windows_plan("logoff"@, arg) == does("shutdown.exe"@, seq!["/l"@], "logoff solicitado"@),
        windows_plan("lock"@, arg) == does(
            "rundll32.exe"@,
            seq!["user32.dll,LockWorkStation"@],
            "bloqueio de tela solicitado"@,
        ),
        windows_plan("chkdsk"@, arg) == does(
            "chkdsk.exe"@,
            seq!["C:"@, "/scan"@],
            "chkdsk (scan online) executado"@,
        ),
        windows_plan("sfc"@, arg) == does(
            "sfc.exe"@,
            seq!["/scannow"@],
            "sfc /scannow executado"@,
        ),
        windows_plan("print_clear"@, arg) == does(
            "powershell.exe"@,
            seq!["-NoProfile"@, "-Command"@, "Stop-Service Spooler -Force -ErrorAction SilentlyContinue; Remove-Item \"$env:SystemRoot\\System32\\spool\\PRINTERS\\*\" -Force -ErrorAction SilentlyContinue; Start-Service Spooler -ErrorAction SilentlyContinue"@],
            "fila de impressão limpa + spooler reiniciado"@,
        ),
        windows_plan("deep_clean"@, arg) == does(
            "powershell.exe"@,
            seq!["-NoProfile"@, "-Command"@, "Get-ChildItem \"$env:TEMP\",\"$env:SystemRoot\\Temp\",\"$env:SystemRoot\\Prefetch\" -Force -ErrorAction SilentlyContinue | Remove-Item -Recurse -Force -ErrorAction SilentlyContinue; Clear-RecycleBin -Force -ErrorAction SilentlyContinue; Stop-Service wuauserv -Force -ErrorAction SilentlyContinue; Remove-Item \"$env:SystemRoot\\SoftwareDistribution\\Download\\*\" -Recurse -Force -ErrorAction SilentlyContinue; Start-Service wuauserv -ErrorAction SilentlyContinue"@],
            "limpeza profunda concluída (temp, lixeira, cache de update, prefetch)"@,
        ),
        windows_plan("restart_agent"@, arg) == (PlanView::Do {
            steps: seq![
                StepView::Spawn {
                    program: "powershell.exe"@,
                    args: seq!["-NoProfile"@, "-Command"@, "Start-Process powershell -WindowStyle Hidden -ArgumentList '-NoProfile','-Command',\"Stop-Service ConectDesk -Force -ErrorAction SilentlyContinue; Start-Sleep -Seconds 3; Start-Service ConectDesk -ErrorAction SilentlyContinue\""@],
                },
            ],
            message: "agente ConectDesk reiniciando"@,
        }),
        windows_plan("flush_dns"@, arg) == (PlanView::Do {
            steps: seq![
                StepView::Run { program: "ipconfig.exe"@, args: seq!["/flushdns"@] },
                StepView::Run { program: "ipconfig.exe"@, args: seq!["/registerdns"@] },
            ],
            message: "DNS limpo + registrado"@,
        }),
{
    lemma_action_names();
}

/// A letter, a digit, a point, an underscore or a hyphen.
pub open spec fn is_plain_char(c: char) -> bool {
    'a' <= c <= 'z' || 'A' <= c <= 'Z' || '0' <= c <= '9' || c == '.' || c == '_' || c == '-'
}

/// A plain name has no white space around it.
proof fn lemma_plain_name(before: Seq<char>, name: Seq<char>, after: Seq<char>)
    requires
        forall|i: int| 0 <= i < before.len() ==> is_white_space(#[trigger] before[i]),
        forall|i: int| 0 <= i < after.len() ==> is_white_space(#[trigger] after[i]),
        forall|i: int| 0 <= i < name.len() ==> is_plain_char(#[trigger] name[i]),
    ensures
        trimmed(before + name + after) == name,
        is_name(name),
{
    if name.len() > 0 {
        assert(is_plain_char(name[0]) && is_plain_char(name[name.len() - 1]));
    }
    law_white_space_around_is_trimmed(before, name, after);
}

/// The service manager is asked to start, to stop, or to stop and three seconds later to start
/// every service with a plain name, with or without white space around it.
pub proof fn law_every_plain_service_is_managed(
    before: Seq<char>,
    name: Seq<char>,
    after: Seq<char>,
)
    requires
        forall|i: int| 0 <= i < before.len() ==> is_white_space(#[trigger] before[i]),
        forall|i: int| 0 <= i < after.len() ==> is_white_space(#[trigger] after[i]),
        name.len() > 0,
        forall|i: int| 0 <= i < name.len() ==> is_plain_char(#[trigger] name[i]),
    ensures
        ({
            let arg = before + name + after;
            &&& windows_plan("service_start"@, arg) == does(
                "sc.exe"@,
                seq!["start"@, name],
                "serviço "@ + name + " iniciado"@,
            )
            &&& windows_plan("service_stop"@, arg) == does(
                "sc.exe"@,
                seq!["stop"@, name],
                "serviço "@ + name + " parado"@,
            )
            &&& windows_plan("service_restart"@, arg) == (PlanView::Do {
                steps: seq![
                    StepView::Run { program: "sc.exe"@, args: seq!["stop"@, name] },
                    StepView::Pause { secs: 3 },
                    StepView::Run { program: "sc.exe"@, args: seq!["start"@, name] },
                ],
                message: "serviço "@ + name + " reiniciado"@,
            })
        }),
{
    lemma_action_names();
    lemma_plain_name(before, name, after);
}

/// An argument that is empty, or that has a character other than white space around it and plain
/// ones, names no service and no program.
pub proof fn law_other_names_are_refused(arg: Seq<char>, i: int)
    requires
        trimmed(arg).len() == 0 || (0 <= i < trimmed(arg).len() && !is_plain_char(
            trimmed(arg)[i],
        )),
    ensures
        windows_plan("service_start"@, arg) == (PlanView::Refuse {
            message: "nome de serviço inválido"@,
        }),
        windows_plan("service_stop"@, arg) == (PlanView::Refuse {
            message: "nome de serviço inválido"@,
        }),
        windows_plan("service_restart"@, arg) == (PlanView::Refuse {
            message: "nome de serviço inválido"@,
        }),
        windows_plan("kill_process"@, arg) == (PlanView::Refuse {
            message: "nome de processo inválido"@,
        }),
{
    lemma_action_names();
    if trimmed(arg).len() > 0 {
        assert(!is_name_char(trimmed(arg)[i]));
    }
}

/// Every program with a plain name that ends in ".exe", in any case of letters, is ended; one with
/// another ending is not.
pub proof fn law_every_plain_program_is_ended(
    before: Seq<char>,
    name: Seq<char>,
    after: Seq<char>,
)
    requires
        forall|i: int| 0 <= i < before.len() ==> is_white_space(#[trigger] before[i]),
        forall|i: int| 0 <= i < after.len() ==> is_white_space(#[trigger] after[i]),
        forall|i: int| 0 <= i < name.len() ==> is_plain_char(#[trigger] name[i]),
    ensures
        ({
            let n = name.len() as int;
            let exe = n >= 4 && name[n - 4] == '.' && (name[n - 3] == 'e' || name[n - 3] == 'E')
                && (name[n - 2] == 'x' || name[n - 2] == 'X') && (name[n - 1] == 'e' || name[n - 1]
                == 'E');
            windows_plan("kill_process"@, before + name + after) == (if exe {
                PlanView::Try {
                    step: StepView::Run {
                        program: "taskkill.exe"@,
                        args: seq!["/F"@, "/IM"@, name],
                    },
                    done: name + " encerrado"@,
                    failed: "falha ao encerrar "@ + name,
                }
            } else {
                PlanView::Refuse { message: "nome de processo inválido"@ }
            })
        }),
{
    lemma_action_names();
    lemma_plain_name(before, name, after);
    reveal_strlit(".exe");
    let small = name.map_values(|c: char| ascii_lower(c));
    let n = name.len() as int;
    if n >= 4 {
        let tail = small.subrange(n - 4, n);
        assert(tail[0] == ascii_lower(name[n - 4]) && tail[1] == ascii_lower(name[n - 3]) && tail[2]
            == ascii_lower(name[n - 2]) && tail[3] == ascii_lower(name[n - 1]));
        assert(is_plain_char(name[n - 4]) && is_plain_char(name[n - 3]) && is_plain_char(
            name[n - 2],
        ) && is_plain_char(name[n - 1]));
        if ends_in(small, ".exe"@) {
            assert(tail == ".exe"@);
            assert(tail[0] == '.' && tail[1] == 'e' && tail[2] == 'x' && tail[3] == 'e');
        }
        if tail[0] == '.' && tail[1] == 'e' && tail[2] == 'x' && tail[3] == 'e' {
            assert(tail =~= ".exe"@);
        }
    }
}

/// The two digits of a number below a hundred.
pub open spec fn in_two_digits(n: int) -> Seq<char> {
    seq![('0' as int + n / 10) as char, ('0' as int + n % 10) as char]
}

/// Every time of day can be scheduled, with or without white space around it: hours up to 23 and
/// minutes up to 59, in two digits each.
pub proof fn law_every_time_of_day_is_scheduled(
    before: Seq<char>,
    hour: int,
    minute: int,
    after: Seq<char>,
)
    requires
        forall|i: int| 0 <= i < before.len() ==> is_white_space(#[trigger] before[i]),
        forall|i: int| 0 <= i < after.len() ==> is_white_space(#[trigger] after[i]),
        0 <= hour < 100,
        0 <= minute < 100,
    ensures
        ({
            let time = in_two_digits(hour) + seq![':'] + in_two_digits(minute);
            windows_plan("schedule_reboot"@, before + time + after) == (if hour < 24 && minute
                < 60 {
                does(
                    "powershell.exe"@,
                    seq![
                        "-NoProfile"@,
                        "-Command"@,
                        "$t=[datetime]::Today.AddHours("@ + in_two_digits(hour) + ").AddMinutes("@ + in_two_digits(
                            minute,
                        ) + "); if($t -lt (Get-Date)){$t=$t.AddDays(1)}; $s=[int]($t-(Get-Date)).TotalSeconds; shutdown /r /t $s /c 'ConectDesk: reinicio agendado pelo suporte'"@,
                    ],
                    "reinício agendado para "@ + time,
                )
            } else {
                PlanView::Refuse { message: "horário inválido (use HH:MM)"@ }
            })
        }),
{
    lemma_action_names();
    let time = in_two_digits(hour) + seq![':'] + in_two_digits(minute);
    assert(!is_white_space(time[0]) && !is_white_space(time.last()));
    law_white_space_around_is_trimmed(before, time, after);
    assert(time.take(2) =~= in_two_digits(hour));
    assert(time.skip(3) =~= in_two_digits(minute));
    assert(two_digits(time[0], time[1]) == hour);
    assert(two_digits(time[3], time[4]) == minute);
}

/// A restart is scheduled only for a time of day: two digits that make up an hour, a colon, and two
/// digits that make up a minute.
pub proof fn law_only_times_of_day_are_scheduled(arg: Seq<char>)
    requires
        !(windows_plan("schedule_reboot"@, arg) is Refuse),
    ensures
        exists|hour: int, minute: int|
            0 <= hour < 24 && 0 <= minute < 60 && trimmed(arg) == #[trigger] in_two_digits(hour)
                + seq![':'] + #[trigger] in_two_digits(minute),
{
    lemma_action_names();
    let time = trimmed(arg);
    let hour = (time[0] as int - '0' as int) * 10 + (time[1] as int - '0' as int);
    let minute = (time[3] as int - '0' as int) * 10 + (time[4] as int - '0' as int);
    assert(is_clock_time(time));
    assert(in_two_digits(hour) =~= seq![time[0], time[1]]);
    assert(in_two_digits(minute) =~= seq![time[3], time[4]]);
    assert(time =~= in_two_digits(hour) + seq![':'] + in_two_digits(minute));
}

/// Nothing but white space.
pub open spec fn is_blank(s: Seq<char>) -> bool {
    forall|i: int| 0 <= i < s.len() ==> is_white_space(#[trigger] s[i])
}

/// A message goes to the screen as it is, up to 220 characters, and without the marks that end a
/// line. One that is nothing but white space is refused.
pub proof fn law_messages_go_to_the_screen(a: Seq<char>, b: Seq<char>, text: Seq<char>)
    requires
        !text.contains('\r') && !text.contains('\n'),
    ensures
        message_text(a + seq!['\r'] + b) == message_text(a + b),
        message_text(a + seq!['\n'] + b) == message_text(a + b),
        ({
            let shown = if text.len() <= 220 {
                text
            } else {
                text.take(220)
            };
            windows_plan("message"@, text) == (if !is_blank(shown) {
                does(
                    "msg.exe"@,
                    seq!["*"@, "/TIME:60"@, shown],
                    "mensagem enviada ao cliente"@,
                )
            } else {
                PlanView::Refuse { message: "mensagem vazia"@ }
            })
        }),
        windows_plan("message"@, a + seq!['\r'] + b) == windows_plan("message"@, a + b),
        windows_plan("message"@, a + seq!['\n'] + b) == windows_plan("message"@, a + b),
{
    lemma_action_names();
    lemma_line_mark_falls_away(a, '\r', b);
    lemma_line_mark_falls_away(a, '\n', b);
    lemma_line_stays(text);
    let shown = message_text(text);
    assert(shown == if text.len() <= 220 {
        text
    } else {
        text.take(220)
    });
    lemma_blank_text(shown);
}

/// A mark that ends a line does not count in a message.
proof fn lemma_line_mark_falls_away(a: Seq<char>, mark: char, b: Seq<char>)
    requires
        mark == '\r' || mark == '\n',
    ensures
        message_text(a + seq![mark] + b) == message_text(a + b),
{
    lemma_line_apart(a + seq![mark], b);
    lemma_line_apart(a, seq![mark]);
    lemma_line_apart(a, b);
    assert(seq![mark].filter(in_line()) =~= Seq::<char>::empty()) by {
        reveal(Seq::filter);
        let one = seq![mark];
        let none = Seq::<char>::empty();
        assert(none.filter(in_line()) =~= none);
        assert(one.drop_last() =~= none);
        assert(one.last() == mark);
    }
    assert(a.filter(in_line()) + Seq::<char>::empty() =~= a.filter(in_line()));
}

/// Leaving out the marks that end lines goes through the parts of a text one by one.
proof fn lemma_line_apart(a: Seq<char>, b: Seq<char>)
    ensures
        (a + b).filter(in_line()) == a.filter(in_line()) + b.filter(in_line()),
    decreases b.len(),
{
    reveal(Seq::filter);
    if b.len() == 0 {
        assert(a + b =~= a);
        assert(a.filter(in_line()) + b.filter(in_line()) =~= a.filter(in_line()));
    } else {
        assert((a + b).drop_last() =~= a + b.drop_last());
        assert((a + b).last() == b.last());
        lemma_line_apart(a, b.drop_last());
        assert((a + b).filter(in_line()) =~= a.filter(in_line()) + b.filter(in_line()));
    }
}

/// A text on one line stays as it is.
proof fn lemma_line_stays(s: Seq<char>)
    requires
        !s.contains('\r') && !s.contains('\n'),
    ensures
        s.filter(in_line()) == s,
    decreases s.len(),
{
    reveal(Seq::filter);
    if s.len() > 0 {
        assert(s.contains(s[s.len() - 1]));
        let front = s.drop_last();
        assert forall|c: char| front.contains(c) implies s.contains(c) by {
            let i = choose|i: int| 0 <= i < front.len() && front[i] == c;
            assert(s[i] == c);
        }
        lemma_line_stays(front);
    }
    assert(s.filter(in_line()) =~= s);
}

/// A text is empty when it is trimmed exactly where it is nothing but white space.
proof fn lemma_blank_text(s: Seq<char>)
    ensures
        trimmed(s).len() == 0 <==> is_blank(s),
{
    if !is_blank(s) {
        let i = choose|i: int| 0 <= i < s.len() && !is_white_space(#[trigger] s[i]);
        lemma_kept_inside(s, i);
    } else {
        let none = Seq::<char>::empty();
        law_white_space_around_is_trimmed(s, none, none);
        assert(s + none + none =~= s);
    }
}

/// A character that is no white space is not trimmed.
proof fn lemma_kept_inside(s: Seq<char>, i: int)
    requires
        0 <= i < s.len(),
        !is_white_space(s[i]),
    ensures
        trimmed(s).len() > 0,
    decreases s.len(),
{
    if is_white_space(s[0]) {
        let rest = s.drop_first();
        assert(rest[i - 1] == s[i]);
        lemma_kept_inside(rest, i - 1);
        assert(s =~= seq![s[0]] + rest);
        lemma_trim_front(seq![s[0]], rest, white());
    } else if is_white_space(s.last()) {
        let rest = s.drop_last();
        assert(rest[i] == s[i]);
        assert(trim_front(s, white()) == s);
        assert(trim_front(rest, white()) == rest);
        lemma_kept_inside(rest, i);
        assert(s =~= rest + seq![s.last()]);
        lemma_trim_back(rest, seq![s.last()], white());
    } else {
        lemma_trimmed_already(s);
    }
}

/// What the panel is told: a refusal is a failure with its message, what was done is a success
/// whatever came of it, one step decides where it is tried, and a cleanup tells how many whole
/// mebibytes it freed.
pub proof fn law_panel_is_told_what_came_of_it(
    plan: PlanView,
    succeeded: bool,
    freed: u64,
    mebibytes: nat,
)
    requires
        mebibytes * 1048576 <= freed < (mebibytes + 1) * 1048576,
    ensures
        plan matches PlanView::Refuse { message } ==> outcome(plan, succeeded, freed) == (
            false,
            message,
        ),
        plan matches PlanView::Do { steps, message } ==> outcome(plan, succeeded, freed) == (
            true,
            message,
        ),
        plan matches PlanView::Try { step, done, failed } ==> outcome(plan, true, freed) == (
            true,
            done,
        ) && outcome(plan, false, freed) == (false, failed),
        plan is CleanTemp ==> outcome(plan, succeeded, freed) == (
            true,
            "temp limpo (~"@ + decimal(mebibytes) + " MB liberados)"@,
        ),
{
}

/// Elsewhere than on Windows every action is refused.
pub proof fn law_other_platforms_refuse_all(action: Seq<char>, arg: Seq<char>)
    ensures
        action_plan(Platform::Other, action, arg) == (PlanView::Refuse {
            message: "não suportado"@,
        }),
        action_plan(Platform::Windows, action, arg) == windows_plan(action, arg),
{
}

/// What an entry of a temporary directory is decides how it goes: a link as a link, a file as a
/// file, a directory with all that it holds, and anything else stays. Only the bytes of files count.
pub proof fn law_entries_go_by_what_they_are(is_file: bool, is_dir: bool, len: u64, freed: u64)
    ensures
        removal(true, is_file, is_dir) == Removal::Link,
        removal(false, true, is_dir) == Removal::File,
        removal(false, false, true) == Removal::Tree,
        removal(false, false, false) == Removal::Keep,
        freed_after(Removal::File, len, freed) == freed + len,
        freed_after(Removal::Link, len, freed) == freed,
        freed_after(Removal::Tree, len, freed) == freed,
        freed_after(Removal::Keep, len, freed) == freed,
{
}

/// The directory that the environment names is emptied first, and that of the system always.
pub proof fn law_system_directory_is_always_emptied(named: Option<Seq<char>>)
    ensures
        temp_dir_texts(named).last() == "C:\\Windows\\Temp"@,
        named matches Some(dir) ==> temp_dir_texts(named) == seq![dir, "C:\\Windows\\Temp"@],
        named is None ==> temp_dir_texts(named).len() == 1,
{
}

/// A command is read with its id, its action and its argument; one without an id is none. The report
/// names the same id.
pub proof fn law_commands_are_read(cmd: JsonView, id: Seq<char>, ok: bool, message: Seq<char>)
    requires
        cmd.field("id"@) == Some(JsonView::Text(id)),
    ensures
        command_of(cmd) is Some <==> id.len() > 0,
        command_of(cmd) matches Some(command) ==> command.id == id && (match cmd.field("action"@) {
            Some(JsonView::Text(action)) => command.action == action,
            _ => command.action.len() == 0,
        }) && (match cmd.field("arg"@) {
            Some(JsonView::Text(arg)) => command.arg == arg,
            _ => command.arg.len() == 0,
        }),
        ack_view(id, ok, message) == JsonView::Object(
            seq![
                ("id"@, JsonView::Text(id)),
                ("ok"@, JsonView::Bool(ok)),
                ("message"@, JsonView::Text(message)),
            ],
        ),
{
}

} // verus!
