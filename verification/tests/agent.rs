use conectdesk_agent::actions::RemoteCommand;
use conectdesk_agent::agent::{due, start, Agent, Effect, Event};
use conectdesk_agent::json::Json;
use conectdesk_agent::settings::Writes;

fn json(text: &str) -> Json {
    Json::parse(text.as_bytes()).unwrap()
}

fn agent(tick: u64) -> Agent {
    Agent { tick, mode: None, token: "tok".to_string() }
}

fn writes(list: &[(&str, &str)]) -> Writes {
    list.iter().map(|(k, v)| (k.to_string(), v.to_string())).collect()
}

fn save_token(token: &str) -> Effect {
    Effect::Write { writes: writes(&[("conectdesk_token", token)]) }
}

fn show(reply: &str) -> Effect {
    Effect::ShowSessions { reply: json(reply) }
}

fn answered(agent: &mut Agent, reply: &str) -> Vec<Effect> {
    agent.step(Event::Answered { reply: Some(json(reply)) })
}

#[test]
fn start_looks_for_the_stock_service() {
    let (agent, effects) = start("key").unwrap();
    assert_eq!(agent, Agent { tick: 0, mode: None, token: String::new() });
    assert_eq!(effects, vec![Effect::Migrate, Effect::Sleep { secs: 15 }]);
}

#[test]
fn build_without_a_key_does_nothing() {
    assert_eq!(start(""), None);
}

#[test]
fn agent_without_a_token_enrolls() {
    let (mut agent, _) = start("key").unwrap();
    assert_eq!(agent.step(Event::Awake { saved: String::new() }), vec![Effect::Enroll]);
    assert_eq!(
        agent.step(Event::Enrolled { token: Some("tok".to_string()) }),
        vec![save_token("tok"), Effect::Heartbeat]
    );
    assert_eq!(agent.token, "tok");
}

#[test]
fn agent_with_a_token_beats() {
    let (mut agent, _) = start("key").unwrap();
    assert_eq!(agent.step(Event::Awake { saved: "tok".to_string() }), vec![Effect::Heartbeat]);
    assert_eq!(agent.token, "tok");
}

#[test]
fn agent_that_cannot_enroll_waits() {
    let (mut agent, _) = start("key").unwrap();
    assert_eq!(agent.step(Event::Enrolled { token: None }), vec![Effect::Sleep { secs: 60 }]);
    assert_eq!(agent.tick, 0);
}

#[test]
fn lost_heartbeat_forgets_the_token() {
    let mut a = agent(5);
    assert_eq!(
        a.step(Event::Answered { reply: None }),
        vec![save_token(""), Effect::Sleep { secs: 60 }]
    );
    assert_eq!((a.tick, a.token.as_str()), (5, ""));
    assert_eq!(a.step(Event::Awake { saved: String::new() }), vec![Effect::Enroll]);
}

#[test]
fn first_answer_runs_every_task() {
    let mut a = agent(0);
    assert_eq!(
        answered(&mut a, "{}"),
        vec![
            show("{}"),
            Effect::Sysinfo,
            Effect::Health,
            Effect::Branding,
            Effect::History,
            Effect::Watchdog,
            Effect::Devices,
            Effect::Sleep { secs: 30 },
        ]
    );
    assert_eq!(a.tick, 1);
}

#[test]
fn tasks_run_at_their_intervals() {
    let mut a = agent(1);
    assert_eq!(answered(&mut a, "{}"), vec![show("{}"), Effect::Sleep { secs: 30 }]);
    assert_eq!(
        answered(&mut a, "{}"),
        vec![
            show("{}"),
            Effect::History,
            Effect::Watchdog,
            Effect::Devices,
            Effect::Sleep { secs: 30 },
        ]
    );
    let count = |interval: u64| (0..1200).filter(|tick| due(*tick, interval)).count();
    assert_eq!(count(600), 60);
    assert_eq!(count(18000), 2);
    assert_eq!(count(300), 120);
    assert_eq!(count(60), 600);
    assert!(due(u64::MAX, 30));
}

#[test]
fn tick_goes_round() {
    let mut a = agent(u64::MAX);
    answered(&mut a, "{}");
    assert_eq!(a.tick, 0);
}

#[test]
fn mode_of_approval() {
    let mut a = agent(1);
    let click = Effect::Write {
        writes: writes(&[("approve-mode", "click"), ("allow-hide-cm", "N"), ("hide_cm", "false")]),
    };
    assert_eq!(answered(&mut a, "{\"requireApproval\":true}")[0], click);
    assert_eq!(a.mode, Some(true));
    a.tick = 1;
    assert_eq!(answered(&mut a, "{\"requireApproval\":true}")[0], show("{\"requireApproval\":true}"));
    assert_eq!(answered(&mut a, "{\"requireApproval\":\"no\"}")[0], show("{\"requireApproval\":\"no\"}"));
    assert_eq!(a.mode, Some(true));
}

#[test]
fn machines_to_wake() {
    let mut a = agent(1);
    let effects = answered(&mut a, "{\"wol\":[{\"mac\":\"01-01-01-01-01-01\"}]}");
    let mut packet = vec![0xff; 6];
    packet.extend(vec![1; 96]);
    assert_eq!(effects[0], Effect::Wake { packets: vec![packet] });
    a.tick = 1;
    assert_eq!(answered(&mut a, "{\"wol\":[]}")[0], show("{\"wol\":[]}"));
    a.tick = 1;
    assert_eq!(answered(&mut a, "{\"wol\":[{}]}")[0], Effect::Wake { packets: vec![] });
}

#[test]
fn requests_of_the_panel_come_first_and_in_order() {
    let mut a = agent(1);
    let reply = "{\"refreshSysinfo\":true,\"requestUpdate\":true,\"commands\":[{\"id\":\"1\",\"action\":\"sfc\"},{\"action\":\"lock\"},{\"id\":\"2\",\"action\":\"message\",\"arg\":\"oi\"}],\"requireApproval\":false,\"wol\":[{}]}";
    let run = |id: &str, action: &str, arg: &str| Effect::Run {
        command: RemoteCommand { id: id.to_string(), action: action.to_string(), arg: arg.to_string() },
    };
    assert_eq!(
        answered(&mut a, reply)[1..],
        [
            Effect::Wake { packets: vec![] },
            Effect::Update,
            Effect::Sysinfo,
            Effect::Health,
            run("1", "sfc", ""),
            run("2", "message", "oi"),
            show(reply),
            Effect::Sleep { secs: 30 },
        ]
    );
}

#[test]
fn update_runs_only_when_asked() {
    for reply in ["{}", "{\"requestUpdate\":false}", "{\"requestUpdate\":1}", "null"] {
        assert!(!answered(&mut agent(0), reply).contains(&Effect::Update));
    }
    assert!(answered(&mut agent(0), "{\"requestUpdate\":true}").contains(&Effect::Update));
}
