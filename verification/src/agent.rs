//! The course of the agent: from what happened to what the host does next.
//!
//! The host performs the effects of a step in their order. The last one sleeps, enrolls or beats,
//! and what came of it is the next event.

use vstd::prelude::*;
use vstd::arithmetic::div_mod::{lemma_mod_twice, lemma_sub_mod_noop};
use crate::actions::{command_of, remote_command, CommandView, RemoteCommand};
use crate::json::{Json, JsonView};
use crate::settings::{
    apply_approve_mode, approval_writes, write_text, Writes,
    WritesView, TOKEN_KEY,
};
use crate::wol::{dispatch_wol, packet_seq, wake_packets};

verus! {

/// Seconds from one heartbeat to the next.
pub const HEARTBEAT_INTERVAL_SECS: u64 = 30;

/// Seconds from one report on the machine to the next.
pub const SYSINFO_INTERVAL_SECS: u64 = 600;

/// Seconds from one report on the health of the machine to the next: five hours.
pub const HEALTH_INTERVAL_SECS: u64 = 18000;

/// Seconds from one look at the brand to the next.
pub const BRANDING_INTERVAL_SECS: u64 = 300;

/// Seconds from one look at the last sessions to the next.
pub const SESSION_HISTORY_INTERVAL_SECS: u64 = 60;

/// Seconds from one look at programs and devices to the next.
pub const PROBE_INTERVAL_SECS: u64 = 60;

/// Seconds before the agent tries to enroll again.
pub const ENROLL_RETRY_SECS: u64 = 60;

/// Seconds that the agent waits at its start.
pub const START_SECS: u64 = 15;

/// What the agent keeps from one step to the next.
#[derive(Debug, PartialEq)]
pub struct Agent {
    /// How many heartbeats were answered.
    pub tick: u64,
    /// The mode of approval that was written last.
    pub mode: Option<bool>,
    /// The token that goes with requests.
    pub token: String,
}

/// The mathematical value of an `Agent`.
#[verifier::ext_equal]
pub struct AgentView {
    pub tick: u64,
    pub mode: Option<bool>,
    pub token: Seq<char>,
}

impl View for Agent {
    type V = AgentView;

    open spec fn view(&self) -> AgentView {
        AgentView { tick: self.tick, mode: self.mode, token: self.token@ }
    }
}

/// What happened.
#[derive(Debug, PartialEq)]
pub enum Event {
    /// The agent slept; this token is in the settings, empty where there is none.
    Awake { saved: String },
    /// The agent asked to enroll; this token came back, if any.
    Enrolled { token: Option<String> },
    /// The agent sent a heartbeat; this reply came back, if any.
    Answered { reply: Option<Json> },
}

/// The mathematical value of an `Event`.
pub enum EventView {
    Awake { saved: Seq<char> },
    Enrolled { token: Option<Seq<char>> },
    Answered { reply: Option<JsonView> },
}

impl DeepView for Event {
    type V = EventView;

    open spec fn deep_view(&self) -> EventView {
        match *self {
            Event::Awake { saved } => EventView::Awake { saved: saved@ },
            Event::Enrolled { token } => EventView::Enrolled { token: token.deep_view() },
            Event::Answered { reply } => EventView::Answered { reply: reply.deep_view() },
        }
    }
}

/// What the host does.
#[derive(Debug, PartialEq)]
pub enum Effect {
    /// Removes the stock service beside the own one.
    Migrate,
    /// Waits for some seconds.
    Sleep { secs: u64 },
    /// Asks the panel for a token.
    Enroll,
    /// Sends a heartbeat.
    Heartbeat,
    /// Writes settings.
    Write { writes: Writes },
    /// Sends magic packets.
    Wake { packets: Vec<Vec<u8>> },
    /// Updates the agent.
    Update,
    /// Reports on the machine.
    Sysinfo,
    /// Reports on the health of the machine.
    Health,
    /// Runs a command and reports what came of it.
    Run { command: RemoteCommand },
    /// Shows the sessions of the reply.
    ShowSessions { reply: Json },
    /// Looks at the brand.
    Branding,
    /// Looks at the last sessions.
    History,
    /// Looks after the programs that have to run.
    Watchdog,
    /// Looks at the devices.
    Devices,
}

/// The mathematical value of an `Effect`.
#[verifier::ext_equal]
pub enum EffectView {
    Migrate,
    Sleep { secs: u64 },
    Enroll,
    Heartbeat,
    Write { writes: WritesView },
    Wake { packets: Seq<Seq<u8>> },
    Update,
    Sysinfo,
    Health,
    Run { command: CommandView },
    ShowSessions { reply: JsonView },
    Branding,
    History,
    Watchdog,
    Devices,
}

impl DeepView for Effect {
    type V = EffectView;

    open spec fn deep_view(&self) -> EffectView {
        match *self {
            Effect::Migrate => EffectView::Migrate,
            Effect::Sleep { secs } => EffectView::Sleep { secs },
            Effect::Enroll => EffectView::Enroll,
            Effect::Heartbeat => EffectView::Heartbeat,
            Effect::Write { writes } => EffectView::Write { writes: writes.deep_view() },
            Effect::Wake { packets } => EffectView::Wake { packets: packet_seq(packets@) },
            Effect::Update => EffectView::Update,
            Effect::Sysinfo => EffectView::Sysinfo,
            Effect::Health => EffectView::Health,
            Effect::Run { command } => EffectView::Run { command: command.deep_view() },
            Effect::ShowSessions { reply } => EffectView::ShowSessions { reply: reply@ },
            Effect::Branding => EffectView::Branding,
            Effect::History => EffectView::History,
            Effect::Watchdog => EffectView::Watchdog,
            Effect::Devices => EffectView::Devices,
        }
    }
}

/// Adds an effect.
fn push_effect(effects: &mut Vec<Effect>, effect: Effect)
    ensures
        final(effects).deep_view() == old(effects).deep_view().push(effect.deep_view()),
{
    let ghost before = effects.deep_view();
    effects.push(effect);
    assert(effects.deep_view() =~= before.push(effect.deep_view()));
}

/// The token goes into the settings.
pub open spec fn token_write(token: Seq<char>) -> EffectView {
    EffectView::Write { writes: seq![(TOKEN_KEY@, token)] }
}

/// The token goes into the settings.
fn save_token(token: &str) -> (effect: Effect)
    ensures
        effect.deep_view() == token_write(token@),
{
    let mut writes: Writes = Vec::new();
    write_text(&mut writes, TOKEN_KEY, token);
    assert(writes.deep_view() =~= seq![(TOKEN_KEY@, token@)]);
    Effect::Write { writes }
}

// ---------------------------------------------------------------------------------------------
// What the reply to a heartbeat asks for
// ---------------------------------------------------------------------------------------------

/// The mode of approval in a reply.
pub open spec fn mode_effects(mode: Option<bool>, reply: JsonView) -> Seq<EffectView> {
    match reply.truth_field("requireApproval"@) {
        Some(wanted) => if approval_writes(mode, wanted).len() == 0 {
            Seq::empty()
        } else {
            seq![EffectView::Write { writes: approval_writes(mode, wanted) }]
        },
        None => Seq::empty(),
    }
}

/// The mode of approval after a reply.
pub open spec fn mode_after(mode: Option<bool>, reply: JsonView) -> Option<bool> {
    match reply.truth_field("requireApproval"@) {
        Some(wanted) => Some(wanted),
        None => mode,
    }
}

/// The machines to wake in a reply.
pub open spec fn wake_effects(reply: JsonView) -> Seq<EffectView> {
    match reply.items_field("wol"@) {
        Some(targets) => if targets.len() == 0 {
            Seq::empty()
        } else {
            seq![EffectView::Wake { packets: wake_packets(targets) }]
        },
        None => Seq::empty(),
    }
}

/// The requests of the panel for an update and for fresh reports.
pub open spec fn asked_effects(reply: JsonView) -> Seq<EffectView> {
    (if reply.truth_field("requestUpdate"@) == Some(true) {
        seq![EffectView::Update]
    } else {
        Seq::empty()
    }) + (if reply.truth_field("refreshSysinfo"@) == Some(true) {
        seq![EffectView::Sysinfo, EffectView::Health]
    } else {
        Seq::empty()
    })
}

/// The commands among JSON values, in their order.
pub open spec fn run_effects(commands: Seq<JsonView>) -> Seq<EffectView>
    decreases commands.len(),
{
    if commands.len() == 0 {
        Seq::empty()
    } else {
        let front = run_effects(commands.drop_last());
        match command_of(commands.last()) {
            Some(command) => front.push(EffectView::Run { command }),
            None => front,
        }
    }
}

/// The commands in a reply.
pub open spec fn command_effects(reply: JsonView) -> Seq<EffectView> {
    match reply.items_field("commands"@) {
        Some(commands) => run_effects(commands),
        None => Seq::empty(),
    }
}

/// The task with this interval is due at this heartbeat.
pub open spec fn is_due(tick: u64, interval: u64) -> bool {
    (tick * HEARTBEAT_INTERVAL_SECS) % interval as int == 0
}

/// One effect where the task is due, none elsewhere.
pub open spec fn when_due(tick: u64, interval: u64, effect: EffectView) -> Seq<EffectView> {
    if is_due(tick, interval) {
        seq![effect]
    } else {
        Seq::empty()
    }
}

/// The tasks that are due at this heartbeat, in their order.
pub open spec fn task_effects(tick: u64) -> Seq<EffectView> {
    when_due(tick, SYSINFO_INTERVAL_SECS, EffectView::Sysinfo) + when_due(
        tick,
        HEALTH_INTERVAL_SECS,
        EffectView::Health,
    ) + when_due(tick, BRANDING_INTERVAL_SECS, EffectView::Branding) + when_due(
        tick,
        SESSION_HISTORY_INTERVAL_SECS,
        EffectView::History,
    ) + when_due(tick, PROBE_INTERVAL_SECS, EffectView::Watchdog) + when_due(
        tick,
        PROBE_INTERVAL_SECS,
        EffectView::Devices,
    )
}

/// Everything that follows an answer: what the panel asks for, the sessions, the tasks that are due,
/// and sleep.
pub open spec fn answer_effects(agent: AgentView, reply: JsonView) -> Seq<EffectView> {
    mode_effects(agent.mode, reply) + wake_effects(reply) + asked_effects(reply) + command_effects(
        reply,
    ) + seq![EffectView::ShowSessions { reply }] + task_effects(agent.tick) + seq![
        EffectView::Sleep { secs: HEARTBEAT_INTERVAL_SECS },
    ]
}

/// The next tick.
pub open spec fn next_tick(tick: u64) -> u64 {
    if tick == u64::MAX {
        0
    } else {
        (tick + 1) as u64
    }
}

/// What an event makes of the agent.
pub open spec fn agent_after(agent: AgentView, event: EventView) -> AgentView {
    match event {
        EventView::Awake { saved } => AgentView { token: saved, ..agent },
        EventView::Enrolled { token: Some(token) } => AgentView { token, ..agent },
        EventView::Enrolled { token: None } => agent,
        EventView::Answered { reply: Some(reply) } => AgentView {
            tick: next_tick(agent.tick),
            mode: mode_after(agent.mode, reply),
            token: agent.token,
        },
        EventView::Answered { reply: None } => AgentView { token: Seq::empty(), ..agent },
    }
}

/// What the host does about an event.
pub open spec fn effects_of(agent: AgentView, event: EventView) -> Seq<EffectView> {
    match event {
        EventView::Awake { saved } => if saved.len() == 0 {
            seq![EffectView::Enroll]
        } else {
            seq![EffectView::Heartbeat]
        },
        EventView::Enrolled { token: Some(token) } => seq![
            token_write(token),
            EffectView::Heartbeat,
        ],
        EventView::Enrolled { token: None } => seq![EffectView::Sleep { secs: ENROLL_RETRY_SECS }],
        EventView::Answered { reply: Some(reply) } => answer_effects(agent, reply),
        EventView::Answered { reply: None } => seq![
            token_write(Seq::empty()),
            EffectView::Sleep { secs: ENROLL_RETRY_SECS },
        ],
    }
}

/// Whether the task with this interval is due at this heartbeat.
pub fn due(tick: u64, interval: u64) -> (yes: bool)
    requires
        interval > 0,
    ensures
        yes == is_due(tick, interval),
{
    let secs: u128 = tick as u128 * HEARTBEAT_INTERVAL_SECS as u128;
    secs % (interval as u128) == 0
}

/// Adds an effect where the task is due.
fn push_when_due(effects: &mut Vec<Effect>, tick: u64, interval: u64, effect: Effect)
    requires
        interval > 0,
    ensures
        final(effects).deep_view() == old(effects).deep_view() + when_due(
            tick,
            interval,
            effect.deep_view(),
        ),
{
    let ghost before = effects.deep_view();
    if due(tick, interval) {
        push_effect(effects, effect);
    }
    assert(effects.deep_view() =~= before + when_due(tick, interval, effect.deep_view()));
}

/// Adds the commands in a reply.
fn push_commands(effects: &mut Vec<Effect>, reply: &Json)
    ensures
        final(effects).deep_view() == old(effects).deep_view() + command_effects(reply@),
{
    let ghost before = effects.deep_view();
    match reply.items_field("commands") {
        Some(commands) => {
            let ghost all = commands.deep_view();
            assert(before + run_effects(all.take(0)) =~= before);
            for i in 0..commands.len()
                invariant
                    all == commands.deep_view(),
                    effects.deep_view() == before + run_effects(all.take(i as int)),
            {
                assert(all.take(i as int + 1).drop_last() =~= all.take(i as int));
                assert(all.take(i as int + 1).last() == commands@[i as int]@);
                let ghost front = run_effects(all.take(i as int));
                if let Some(command) = remote_command(&commands[i]) {
                    let ghost view = EffectView::Run { command: command.deep_view() };
                    push_effect(effects, Effect::Run { command });
                    assert(effects.deep_view() =~= before + front.push(view));
                }
            }
            assert(all.take(commands@.len() as int) =~= all);
        },
        None => {
            assert(before + command_effects(reply@) =~= before);
        },
    }
}

/// What the host does first.
pub open spec fn first_effects() -> Seq<EffectView> {
    seq![EffectView::Migrate, EffectView::Sleep { secs: START_SECS }]
}

/// A build has an agent where it has a key to enroll.
pub open spec fn has_agent(key: Seq<char>) -> bool {
    key.len() > 0
}

/// The agent before anything happened.
pub open spec fn first_agent() -> AgentView {
    AgentView { tick: 0, mode: None, token: Seq::empty() }
}

/// Starts the agent: it looks for the stock service and waits a little. A build without a key to
/// enroll has no agent, and nothing is done.
pub fn start(key: &str) -> (started: Option<(Agent, Vec<Effect>)>)
    ensures
        started is Some <==> has_agent(key@),
        started matches Some((agent, effects)) ==> {
            &&& agent@ == first_agent()
            &&& effects.deep_view() == first_effects()
        },
{
    if key.is_empty() {
        return None;
    }
    let agent = Agent { tick: 0, mode: None, token: String::new() };
    let mut effects: Vec<Effect> = Vec::new();
    push_effect(&mut effects, Effect::Migrate);
    push_effect(&mut effects, Effect::Sleep { secs: START_SECS });
    assert(effects.deep_view() =~= first_effects());
    assert(agent@ =~= first_agent());
    Some((agent, effects))
}

/// Adds the mode of approval in a reply.
fn push_mode(effects: &mut Vec<Effect>, mode: &mut Option<bool>, reply: &Json)
    ensures
        *final(mode) == mode_after(*old(mode), reply@),
        final(effects).deep_view() == old(effects).deep_view() + mode_effects(*old(mode), reply@),
{
    let ghost before = effects.deep_view();
    let ghost more = mode_effects(*mode, reply@);
    if let Some(wanted) = reply.truth_field("requireApproval") {
        let writes = apply_approve_mode(mode, wanted);
        if writes.len() > 0 {
            push_effect(effects, Effect::Write { writes });
        }
    }
    assert(effects.deep_view() =~= before + more);
}

/// Adds the machines to wake in a reply.
fn push_wake(effects: &mut Vec<Effect>, reply: &Json)
    ensures
        final(effects).deep_view() == old(effects).deep_view() + wake_effects(reply@),
{
    let ghost before = effects.deep_view();
    if let Some(targets) = reply.items_field("wol") {
        if targets.len() > 0 {
            push_effect(effects, Effect::Wake { packets: dispatch_wol(targets) });
        }
    }
    assert(effects.deep_view() =~= before + wake_effects(reply@));
}

/// Adds the requests of the panel for an update and for fresh reports.
fn push_asked(effects: &mut Vec<Effect>, reply: &Json)
    ensures
        final(effects).deep_view() == old(effects).deep_view() + asked_effects(reply@),
{
    let ghost before = effects.deep_view();
    if let Some(true) = reply.truth_field("requestUpdate") {
        push_effect(effects, Effect::Update);
    }
    if let Some(true) = reply.truth_field("refreshSysinfo") {
        push_effect(effects, Effect::Sysinfo);
        push_effect(effects, Effect::Health);
    }
    assert(effects.deep_view() =~= before + asked_effects(reply@));
}

/// Adds the tasks that are due.
fn push_tasks(effects: &mut Vec<Effect>, tick: u64)
    ensures
        final(effects).deep_view() == old(effects).deep_view() + task_effects(tick),
{
    let ghost before = effects.deep_view();
    push_when_due(effects, tick, SYSINFO_INTERVAL_SECS, Effect::Sysinfo);
    push_when_due(effects, tick, HEALTH_INTERVAL_SECS, Effect::Health);
    push_when_due(effects, tick, BRANDING_INTERVAL_SECS, Effect::Branding);
    push_when_due(effects, tick, SESSION_HISTORY_INTERVAL_SECS, Effect::History);
    push_when_due(effects, tick, PROBE_INTERVAL_SECS, Effect::Watchdog);
    push_when_due(effects, tick, PROBE_INTERVAL_SECS, Effect::Devices);
    assert(effects.deep_view() =~= before + task_effects(tick));
}

impl Agent {
    /// What follows an answer.
    fn on_answer(&mut self, reply: &Json) -> (effects: Vec<Effect>)
        ensures
            final(self)@ == agent_after(old(self)@, EventView::Answered { reply: Some(reply@) }),
            effects.deep_view() == answer_effects(old(self)@, reply@),
    {
        let ghost want = answer_effects(self@, reply@);
        let mut effects: Vec<Effect> = Vec::new();
        push_mode(&mut effects, &mut self.mode, reply);
        push_wake(&mut effects, reply);
        push_asked(&mut effects, reply);
        push_commands(&mut effects, reply);
        push_effect(&mut effects, Effect::ShowSessions { reply: reply.clone() });
        push_tasks(&mut effects, self.tick);
        push_effect(&mut effects, Effect::Sleep { secs: HEARTBEAT_INTERVAL_SECS });
        assert(effects.deep_view() =~= want);
        self.tick = self.tick.wrapping_add(1);
        effects
    }

    /// Takes in what happened, and decides what the host does next.
    pub fn step(&mut self, event: Event) -> (effects: Vec<Effect>)
        ensures
            final(self)@ == agent_after(old(self)@, event.deep_view()),
            effects.deep_view() == effects_of(old(self)@, event.deep_view()),
    {
        let ghost want = effects_of(self@, event.deep_view());
        let mut effects: Vec<Effect> = Vec::new();
        match event {
            Event::Awake { saved } => {
                if saved.as_str().is_empty() {
                    push_effect(&mut effects, Effect::Enroll);
                } else {
                    push_effect(&mut effects, Effect::Heartbeat);
                }
                self.token = saved;
            },
            Event::Enrolled { token: Some(token) } => {
                push_effect(&mut effects, save_token(token.as_str()));
                push_effect(&mut effects, Effect::Heartbeat);
                self.token = token;
            },
            Event::Enrolled { token: None } => {
                push_effect(&mut effects, Effect::Sleep { secs: ENROLL_RETRY_SECS });
            },
            Event::Answered { reply: Some(reply) } => {
                return self.on_answer(&reply);
            },
            Event::Answered { reply: None } => {
                let empty = String::new();
                push_effect(&mut effects, save_token(empty.as_str()));
                push_effect(&mut effects, Effect::Sleep { secs: ENROLL_RETRY_SECS });
                self.token = empty;
            },
        }
        assert(effects.deep_view() =~= want);
        effects
    }
}

// ---------------------------------------------------------------------------------------------
// Laws
// ---------------------------------------------------------------------------------------------

/// The effects whose outcome is the next event.
pub open spec fn hands_over(effect: EffectView) -> bool {
    effect is Sleep || effect is Enroll || effect is Heartbeat
}

/// Commands give effects that run them.
proof fn lemma_run_effects(commands: Seq<JsonView>, i: int)
    requires
        0 <= i < run_effects(commands).len(),
    ensures
        run_effects(commands)[i] is Run,
    decreases commands.len(),
{
    if i < run_effects(commands.drop_last()).len() {
        lemma_run_effects(commands.drop_last(), i);
    }
}

/// In each step the last effect hands over, and no other.
pub proof fn law_last_effect_hands_over(agent: AgentView, event: EventView, i: int)
    requires
        0 <= i < effects_of(agent, event).len(),
    ensures
        hands_over(effects_of(agent, event)[i]) <==> i == effects_of(agent, event).len() - 1,
{
    if let EventView::Answered { reply: Some(reply) } = event {
        lemma_before_sleep(agent, reply, i);
    }
}

/// An effect that is neither one that hands over nor the search for the stock service nor the show
/// of sessions.
spec fn is_plain(effect: EffectView) -> bool {
    !hands_over(effect) && !(effect is Migrate) && !(effect is ShowSessions)
}

/// The tasks are plain, and no update is among them.
proof fn lemma_task_effects(tick: u64, i: int)
    requires
        0 <= i < task_effects(tick).len(),
    ensures
        is_plain(task_effects(tick)[i]),
        !(task_effects(tick)[i] is Update),
{
    let effect = task_effects(tick)[i];
    assert(effect is Sysinfo || effect is Health || effect is Branding || effect is History
        || effect is Watchdog || effect is Devices);
}

/// Where the sessions are shown among the effects of an answer.
spec fn show_place(agent: AgentView, reply: JsonView) -> int {
    (mode_effects(agent.mode, reply).len() + wake_effects(reply).len() + asked_effects(reply).len()
        + command_effects(reply).len()) as int
}

/// What the panel asks for is plain, and an update is among it only where it is asked for.
proof fn lemma_asked_effects(agent: AgentView, reply: JsonView, i: int)
    requires
        0 <= i < show_place(agent, reply),
    ensures
        is_plain(answer_effects(agent, reply)[i]),
        answer_effects(agent, reply)[i] is Update ==> reply.truth_field("requestUpdate"@) == Some(
            true,
        ),
{
    let mode = mode_effects(agent.mode, reply);
    let wake = wake_effects(reply);
    let asked = asked_effects(reply);
    let commands = command_effects(reply);
    let effect = answer_effects(agent, reply)[i];
    let a = mode.len() + wake.len();
    let b = a + asked.len();
    if i < mode.len() {
        assert(effect == mode[i]);
    } else if i < a {
        assert(effect == wake[i - mode.len()]);
    } else if i < b {
        assert(effect == asked[i - a]);
    } else {
        assert(effect == commands[i - b]);
        lemma_run_effects(reply.items_field("commands"@)->0, i - b);
    }
}

/// Before the sleep after an answer, no effect hands over, only the panel asks for an update, the
/// stock service is left alone, and the sessions of the reply are shown once.
proof fn lemma_before_sleep(agent: AgentView, reply: JsonView, i: int)
    requires
        0 <= i < answer_effects(agent, reply).len(),
    ensures
        hands_over(answer_effects(agent, reply)[i]) <==> i == answer_effects(agent, reply).len()
            - 1,
        !(answer_effects(agent, reply)[i] is Migrate),
        answer_effects(agent, reply)[i] is ShowSessions <==> i == show_place(agent, reply),
        i == show_place(agent, reply) ==> answer_effects(agent, reply)[i] == (
        EffectView::ShowSessions { reply }),
        answer_effects(agent, reply)[i] is Update ==> reply.truth_field("requestUpdate"@) == Some(
            true,
        ),
{
    let c = show_place(agent, reply);
    let tasks = task_effects(agent.tick);
    let effect = answer_effects(agent, reply)[i];
    assert(answer_effects(agent, reply).len() == c + tasks.len() + 2);
    if i < c {
        lemma_asked_effects(agent, reply, i);
    } else if i == c {
        assert(effect == (EffectView::ShowSessions { reply }));
    } else if i <= c + tasks.len() {
        assert(effect == tasks[i - c - 1]);
        lemma_task_effects(agent.tick, i - c - 1);
    } else {
        assert(effect == (EffectView::Sleep { secs: HEARTBEAT_INTERVAL_SECS }));
    }
}

/// The agent updates itself exactly when the panel asks for it.
pub proof fn law_update_runs_only_when_asked(agent: AgentView, event: EventView)
    ensures
        effects_of(agent, event).contains(EffectView::Update) <==> (event matches EventView::Answered {
            reply: Some(reply),
        } && reply.truth_field("requestUpdate"@) == Some(true)),
{
    let effects = effects_of(agent, event);
    if let EventView::Answered { reply: Some(reply) } = event {
        if effects.contains(EffectView::Update) {
            let i = choose|i: int| 0 <= i < effects.len() && effects[i] == EffectView::Update;
            lemma_before_sleep(agent, reply, i);
        }
        if reply.truth_field("requestUpdate"@) == Some(true) {
            let at = mode_effects(agent.mode, reply).len() + wake_effects(reply).len();
            assert(effects[at as int] == asked_effects(reply)[0]);
        }
    }
}

/// The stock service is looked for at the start alone: no later step does it.
pub proof fn law_stock_service_is_looked_for_once(agent: AgentView, event: EventView, i: int)
    requires
        0 <= i < effects_of(agent, event).len(),
    ensures
        first_effects()[0] is Migrate,
        !(effects_of(agent, event)[i] is Migrate),
{
    if let EventView::Answered { reply: Some(reply) } = event {
        lemma_before_sleep(agent, reply, i);
    }
}

/// The sessions that are shown are those of the reply that was just answered, and they are shown
/// once.
pub proof fn law_sessions_shown_are_those_of_the_reply(agent: AgentView, reply: JsonView, i: int)
    requires
        0 <= i < answer_effects(agent, reply).len(),
    ensures
        answer_effects(agent, reply).contains(EffectView::ShowSessions { reply }),
        answer_effects(agent, reply)[i] is ShowSessions ==> answer_effects(agent, reply)[i] == (
        EffectView::ShowSessions { reply }),
{
    lemma_before_sleep(agent, reply, i);
    lemma_before_sleep(agent, reply, show_place(agent, reply));
}

/// At the first heartbeat that is answered, every task runs.
pub proof fn law_every_task_runs_first()
    ensures
        task_effects(0) == seq![
            EffectView::Sysinfo,
            EffectView::Health,
            EffectView::Branding,
            EffectView::History,
            EffectView::Watchdog,
            EffectView::Devices,
        ],
{
    assert(task_effects(0) =~= seq![
        EffectView::Sysinfo,
        EffectView::Health,
        EffectView::Branding,
        EffectView::History,
        EffectView::Watchdog,
        EffectView::Devices,
    ]);
}

/// A task that ran runs again after its interval, and again and again, and never in between.
pub proof fn law_tasks_keep_their_interval(tick: u64, later: u64, interval: u64)
    requires
        interval > 0,
        is_due(tick, interval),
        tick <= later,
    ensures
        is_due(later, interval) <==> ((later - tick) * HEARTBEAT_INTERVAL_SECS) % interval as int
            == 0,
{
    let ran = tick * HEARTBEAT_INTERVAL_SECS;
    let now = later * HEARTBEAT_INTERVAL_SECS;
    lemma_sub_mod_noop(now, ran, interval as int);
    lemma_mod_twice(now, interval as int);
    assert((later - tick) * HEARTBEAT_INTERVAL_SECS == now - ran) by (nonlinear_arith)
        requires
            ran == tick * HEARTBEAT_INTERVAL_SECS,
            now == later * HEARTBEAT_INTERVAL_SECS,
    ;
}

/// An agent whose heartbeat is not answered forgets its token, does nothing else but wait, and asks
/// for a new one.
pub proof fn law_lost_token_is_asked_for_again(agent: AgentView)
    ensures
        ({
            let event = EventView::Answered { reply: None };
            let woken = EventView::Awake { saved: agent_after(agent, event).token };
            &&& effects_of(agent, event) == seq![
                token_write(Seq::empty()),
                EffectView::Sleep { secs: ENROLL_RETRY_SECS },
            ]
            &&& agent_after(agent, event).tick == agent.tick
            &&& effects_of(agent_after(agent, event), woken) == seq![EffectView::Enroll]
        }),
{
}

/// Commands that have an id run once each, in the order of the panel.
pub proof fn law_commands_run_in_order(commands: Seq<JsonView>, i: int)
    requires
        forall|j: int| 0 <= j < commands.len() ==> command_of(#[trigger] commands[j]) is Some,
        0 <= i < commands.len(),
    ensures
        run_effects(commands).len() == commands.len(),
        run_effects(commands)[i] == (EffectView::Run { command: command_of(commands[i])->0 }),
    decreases commands.len(),
{
    let front = commands.drop_last();
    assert forall|j: int| 0 <= j < front.len() implies command_of(#[trigger] front[j]) is Some by {
        assert(front[j] == commands[j]);
    }
    if front.len() > 0 {
        law_commands_run_in_order(
            front,
            if i < front.len() {
                i
            } else {
                0
            },
        );
    }
}

/// A token that the panel gave is saved, and the heartbeat that follows carries it.
pub proof fn law_given_token_is_saved_and_used(agent: AgentView, token: Seq<char>)
    ensures
        ({
            let event = EventView::Enrolled { token: Some(token) };
            &&& agent_after(agent, event).token == token
            &&& effects_of(agent, event) == seq![token_write(token), EffectView::Heartbeat]
        }),
{
}

/// After an answer the next heartbeat comes half a minute later, while the token is there.
pub proof fn law_heartbeats_go_on(agent: AgentView, reply: JsonView, saved: Seq<char>)
    requires
        saved.len() > 0,
    ensures
        ({
            let event = EventView::Answered { reply: Some(reply) };
            let woken = EventView::Awake { saved };
            &&& effects_of(agent, event).last() == (EffectView::Sleep { secs: 30 })
            &&& effects_of(agent_after(agent, event), woken) == seq![EffectView::Heartbeat]
        }),
{
}

/// One effect where a condition holds, none elsewhere.
spec fn only_if(condition: bool, effect: EffectView) -> Seq<EffectView> {
    if condition {
        seq![effect]
    } else {
        Seq::empty()
    }
}

/// Each task runs at its own interval, counted in heartbeats of half a minute: the report on the
/// machine every ten minutes, that on its health every five hours, the brand every five minutes, and
/// the last sessions, the programs and the devices every minute.
pub proof fn law_each_task_has_its_own_interval(tick: u64)
    ensures
        task_effects(tick).contains(EffectView::Sysinfo) <==> tick % 20 == 0,
        task_effects(tick).contains(EffectView::Health) <==> tick % 600 == 0,
        task_effects(tick).contains(EffectView::Branding) <==> tick % 10 == 0,
        task_effects(tick).contains(EffectView::History) <==> tick % 2 == 0,
        task_effects(tick).contains(EffectView::Watchdog) <==> tick % 2 == 0,
        task_effects(tick).contains(EffectView::Devices) <==> tick % 2 == 0,
{
    lemma_tasks_in_order(tick);
    let tasks = task_effects(tick);
    let a = only_if(tick % 20 == 0, EffectView::Sysinfo);
    let b = a + only_if(tick % 600 == 0, EffectView::Health);
    let c = b + only_if(tick % 10 == 0, EffectView::Branding);
    let d = c + only_if(tick % 2 == 0, EffectView::History);
    let e = d + only_if(tick % 2 == 0, EffectView::Watchdog);
    if tick % 20 == 0 {
        assert(tasks[0] == EffectView::Sysinfo);
    }
    if tick % 600 == 0 {
        assert(tasks[a.len() as int] == EffectView::Health);
    }
    if tick % 10 == 0 {
        assert(tasks[b.len() as int] == EffectView::Branding);
    }
    if tick % 2 == 0 {
        assert(tasks[c.len() as int] == EffectView::History);
        assert(tasks[d.len() as int] == EffectView::Watchdog);
        assert(tasks[e.len() as int] == EffectView::Devices);
    }
    assert forall|i: int| 0 <= i < tasks.len() implies (#[trigger] tasks[i] is Sysinfo ==> tick % 20
        == 0) && (tasks[i] is Health ==> tick % 600 == 0) && (tasks[i] is Branding ==> tick % 10
        == 0) && (tasks[i] is History || tasks[i] is Watchdog || tasks[i] is Devices ==> tick % 2
        == 0) by {
        if i < a.len() {
            assert(tasks[i] == a[i]);
        } else if i < b.len() {
            assert(tasks[i] is Health);
        } else if i < c.len() {
            assert(tasks[i] is Branding);
        }
    }
}

/// The tasks of a heartbeat come in one order, each once.
proof fn lemma_tasks_in_order(tick: u64)
    ensures
        task_effects(tick) == only_if(tick % 20 == 0, EffectView::Sysinfo) + only_if(
            tick % 600 == 0,
            EffectView::Health,
        ) + only_if(tick % 10 == 0, EffectView::Branding) + only_if(
            tick % 2 == 0,
            EffectView::History,
        ) + only_if(tick % 2 == 0, EffectView::Watchdog) + only_if(
            tick % 2 == 0,
            EffectView::Devices,
        ),
{
    let t = tick as int;
    assert((t * 30) % 600 == 0 <==> t % 20 == 0);
    assert((t * 30) % 18000 == 0 <==> t % 600 == 0);
    assert((t * 30) % 300 == 0 <==> t % 10 == 0);
    assert((t * 30) % 60 == 0 <==> t % 2 == 0);
    assert(is_due(tick, SYSINFO_INTERVAL_SECS) == (tick % 20 == 0));
    assert(is_due(tick, HEALTH_INTERVAL_SECS) == (tick % 600 == 0));
    assert(is_due(tick, BRANDING_INTERVAL_SECS) == (tick % 10 == 0));
    assert(is_due(tick, SESSION_HISTORY_INTERVAL_SECS) == (tick % 2 == 0));
    assert(is_due(tick, PROBE_INTERVAL_SECS) == (tick % 2 == 0));
}

/// After an answer that asks for nothing, the host shows the sessions, runs the tasks that are due,
/// each once and in this order, and sleeps for half a minute.
pub proof fn law_quiet_answer_runs_what_is_due(agent: AgentView, reply: JsonView)
    requires
        reply.field("requireApproval"@) is None,
        reply.field("wol"@) is None,
        reply.field("requestUpdate"@) is None,
        reply.field("refreshSysinfo"@) is None,
        reply.field("commands"@) is None,
    ensures
        ({
            let event = EventView::Answered { reply: Some(reply) };
            let t = agent.tick;
            &&& effects_of(agent, event) == seq![EffectView::ShowSessions { reply }] + (if t % 20
                == 0 {
                seq![EffectView::Sysinfo]
            } else {
                Seq::empty()
            }) + (if t % 600 == 0 {
                seq![EffectView::Health]
            } else {
                Seq::empty()
            }) + (if t % 10 == 0 {
                seq![EffectView::Branding]
            } else {
                Seq::empty()
            }) + (if t % 2 == 0 {
                seq![EffectView::History, EffectView::Watchdog, EffectView::Devices]
            } else {
                Seq::empty()
            }) + seq![EffectView::Sleep { secs: 30 }]
            &&& agent_after(agent, event).mode == agent.mode
            &&& agent_after(agent, event).token == agent.token
            &&& agent.tick < u64::MAX ==> agent_after(agent, event).tick == agent.tick + 1
        }),
{
    lemma_tasks_in_order(agent.tick);
    let event = EventView::Answered { reply: Some(reply) };
    let t = agent.tick;
    let want = seq![EffectView::ShowSessions { reply }] + only_if(t % 20 == 0, EffectView::Sysinfo)
        + only_if(t % 600 == 0, EffectView::Health) + only_if(t % 10 == 0, EffectView::Branding) + (
    if t % 2 == 0 {
        seq![EffectView::History, EffectView::Watchdog, EffectView::Devices]
    } else {
        Seq::empty()
    }) + seq![EffectView::Sleep { secs: 30 }];
    assert(mode_effects(agent.mode, reply) + wake_effects(reply) + asked_effects(reply)
        + command_effects(reply) =~= Seq::empty());
    assert(effects_of(agent, event) =~= want);
}

/// What a reply asks for is done before the sessions are shown, each request in its place: the mode
/// of approval, the machines to wake, the update, the fresh reports, and the commands.
pub proof fn law_requests_of_the_panel_are_met(agent: AgentView, reply: JsonView)
    ensures
        ({
            let effects = effects_of(agent, EventView::Answered { reply: Some(reply) });
            let mode = match reply.field("requireApproval"@) {
                Some(JsonView::Bool(wanted)) => if agent.mode == Some(wanted) {
                    Seq::empty()
                } else {
                    seq![
                        EffectView::Write {
                            writes: seq![
                                (
                                    "approve-mode"@,
                                    if wanted {
                                        "click"@
                                    } else {
                                        "password"@
                                    },
                                ),
                                (
                                    "allow-hide-cm"@,
                                    if wanted {
                                        "N"@
                                    } else {
                                        "Y"@
                                    },
                                ),
                                (
                                    "hide_cm"@,
                                    if wanted {
                                        "false"@
                                    } else {
                                        "true"@
                                    },
                                ),
                            ],
                        },
                    ]
                },
                _ => Seq::empty(),
            };
            let wake = match reply.field("wol"@) {
                Some(JsonView::Array(targets)) => if targets.len() > 0 {
                    seq![EffectView::Wake { packets: wake_packets(targets) }]
                } else {
                    Seq::empty()
                },
                _ => Seq::empty(),
            };
            let update = if reply.field("requestUpdate"@) == Some(JsonView::Bool(true)) {
                seq![EffectView::Update]
            } else {
                Seq::empty()
            };
            let fresh = if reply.field("refreshSysinfo"@) == Some(JsonView::Bool(true)) {
                seq![EffectView::Sysinfo, EffectView::Health]
            } else {
                Seq::empty()
            };
            let commands = match reply.field("commands"@) {
                Some(JsonView::Array(list)) => run_effects(list),
                _ => Seq::empty(),
            };
            effects == mode + wake + update + fresh + commands + seq![
                EffectView::ShowSessions { reply },
            ] + task_effects(agent.tick) + seq![EffectView::Sleep { secs: 30 }]
        }),
{
    let effects = effects_of(agent, EventView::Answered { reply: Some(reply) });
    let early = mode_effects(agent.mode, reply) + wake_effects(reply);
    let update = if reply.field("requestUpdate"@) == Some(JsonView::Bool(true)) {
        seq![EffectView::Update]
    } else {
        Seq::empty()
    };
    let fresh = if reply.field("refreshSysinfo"@) == Some(JsonView::Bool(true)) {
        seq![EffectView::Sysinfo, EffectView::Health]
    } else {
        Seq::empty()
    };
    assert(asked_effects(reply) =~= update + fresh);
    assert(early + (update + fresh) =~= early + update + fresh);
}

/// The mode of approval that is remembered is the last one that the panel asked for.
pub proof fn law_last_mode_is_remembered(agent: AgentView, event: EventView)
    ensures
        agent_after(agent, event).mode == (match event {
            EventView::Answered { reply: Some(reply) } => match reply.field("requireApproval"@) {
                Some(JsonView::Bool(wanted)) => Some(wanted),
                _ => agent.mode,
            },
            _ => agent.mode,
        }),
{
}

/// An answered heartbeat counts, and nothing else does. The count goes round at its end.
pub proof fn law_answers_are_counted(agent: AgentView, event: EventView)
    ensures
        agent_after(agent, event).tick as int == (match event {
            EventView::Answered { reply: Some(_) } => (agent.tick + 1) % 0x1_0000_0000_0000_0000,
            _ => agent.tick as int,
        }),
{
}

/// An agent that wakes with a token beats with it, and one without a token enrolls. One that could
/// not enroll sleeps for a minute.
pub proof fn law_token_decides_what_follows(agent: AgentView, saved: Seq<char>)
    ensures
        effects_of(agent, EventView::Awake { saved }) == (if saved.len() == 0 {
            seq![EffectView::Enroll]
        } else {
            seq![EffectView::Heartbeat]
        }),
        agent_after(agent, EventView::Awake { saved }).token == saved,
        effects_of(agent, EventView::Enrolled { token: None }) == seq![
            EffectView::Sleep { secs: 60 },
        ],
        agent_after(agent, EventView::Enrolled { token: None }).token == agent.token,
        first_effects() == seq![EffectView::Migrate, EffectView::Sleep { secs: 15 }],
{
}

/// Each command in the queue that has an id runs, with its action and its argument, behind those
/// before it and before those behind it; one without an id does not.
pub proof fn law_commands_of_the_queue_run(
    before: Seq<JsonView>,
    command: JsonView,
    behind: Seq<JsonView>,
)
    ensures
        run_effects(before + seq![command] + behind) == run_effects(before) + (if command.text_field(
            "id"@,
        ).len() > 0 {
            seq![
                EffectView::Run {
                    command: CommandView {
                        id: command.text_field("id"@),
                        action: command.text_field("action"@),
                        arg: command.text_field("arg"@),
                    },
                },
            ]
        } else {
            Seq::empty()
        }) + run_effects(behind),
        run_effects(Seq::empty()) == Seq::<EffectView>::empty(),
    decreases behind.len(),
{
    let all = before + seq![command] + behind;
    if behind.len() == 0 {
        assert(all.drop_last() =~= before);
        assert(all.last() == command);
        assert(run_effects(all) =~= run_effects(before) + (match command_of(command) {
            Some(view) => seq![EffectView::Run { command: view }],
            None => Seq::empty(),
        }) + run_effects(behind));
    } else {
        law_commands_of_the_queue_run(before, command, behind.drop_last());
        assert(all.drop_last() =~= before + seq![command] + behind.drop_last());
        assert(all.last() == behind.last());
        assert(run_effects(all) =~= run_effects(all.drop_last()) + (match command_of(
            behind.last(),
        ) {
            Some(view) => seq![EffectView::Run { command: view }],
            None => Seq::empty(),
        }));
        assert(run_effects(behind) =~= run_effects(behind.drop_last()) + (match command_of(
            behind.last(),
        ) {
            Some(view) => seq![EffectView::Run { command: view }],
            None => Seq::empty(),
        }));
    }
}

/// Every build with a key starts, and no other. The agent begins without a token and at its first
/// tick, at which every task is due, looks for the stock service and waits for a quarter of a minute.
pub proof fn law_every_build_with_a_key_starts(key: Seq<char>, c: char)
    ensures
        has_agent(key.push(c)),
        !has_agent(Seq::empty()),
        first_agent().tick == 0,
        first_agent().mode is None,
        first_agent().token.len() == 0,
        first_effects() == seq![EffectView::Migrate, EffectView::Sleep { secs: 15 }],
        task_effects(first_agent().tick) == seq![
            EffectView::Sysinfo,
            EffectView::Health,
            EffectView::Branding,
            EffectView::History,
            EffectView::Watchdog,
            EffectView::Devices,
        ],
{
    lemma_tasks_in_order(0);
}

} // verus!
