use conectdesk_agent::api::{
    agent_request, agent_token, agent_version, api_base, enroll, fetch, heartbeat, reply_json,
    Build, Endpoint, Method, Request,
};
use conectdesk_agent::json::Json;

fn text(s: &str) -> Json {
    Json::Text(s.to_string())
}

fn field(key: &str, value: Json) -> (String, Json) {
    (key.to_string(), value)
}

fn build(api: &'static str, enroll_key: &'static str) -> Build {
    Build { api, enroll_key, build_id: "5", version: "1.4.7" }
}

#[test]
fn slashes_at_the_end_come_off() {
    assert_eq!(api_base("https://p.example//"), Some("https://p.example".to_string()));
    assert_eq!(api_base("https://p.example/x"), Some("https://p.example/x".to_string()));
    assert_eq!(api_base(""), None);
    assert_eq!(api_base("///"), None);
}

#[test]
fn every_endpoint_has_its_request() {
    let table = [
        (Endpoint::Heartbeat, Method::Post, "/api/agents/heartbeat", 8),
        (Endpoint::Sysinfo, Method::Post, "/api/agents/sysinfo", 15),
        (Endpoint::Health, Method::Post, "/api/agents/sysinfo", 60),
        (Endpoint::CommandAck, Method::Post, "/api/agents/me/command-ack", 10),
        (Endpoint::Devices, Method::Get, "/api/agents/me/devices", 8),
        (Endpoint::DeviceReport, Method::Post, "/api/agents/me/devices/report", 8),
        (Endpoint::Watchdog, Method::Get, "/api/agents/me/watchdog", 8),
        (Endpoint::WatchdogReport, Method::Post, "/api/agents/me/watchdog/report", 8),
        (Endpoint::UpdateStatus, Method::Post, "/api/agents/me/update-status", 10),
        (Endpoint::Branding, Method::Get, "/api/agents/me/branding", 15),
        (Endpoint::SessionPhotos, Method::Get, "/api/agents/me/active-session/photos", 20),
        (Endpoint::SessionHistory, Method::Get, "/api/agents/me/sessions", 15),
    ];
    for (endpoint, method, path, timeout_secs) in table {
        let request = agent_request(endpoint, "https://p", "tok", Some(Json::Null));
        assert_eq!(
            request,
            Request {
                method,
                url: format!("https://p{}", path),
                header: Some(("x-agent-token".to_string(), "tok".to_string())),
                body: Some(Json::Null),
                timeout_secs,
            }
        );
    }
}

#[test]
fn fetching_carries_no_token() {
    assert_eq!(
        fetch("https://p/x".to_string(), 30),
        Request {
            method: Method::Get,
            url: "https://p/x".to_string(),
            header: None,
            body: None,
            timeout_secs: 30,
        }
    );
}

#[test]
fn enrolling() {
    assert_eq!(
        enroll(&build("https://p/", "key"), "pc1", "windows", "123"),
        Some(Request {
            method: Method::Post,
            url: "https://p/api/agents/enroll".to_string(),
            header: Some(("x-api-key".to_string(), "key".to_string())),
            body: Some(Json::Object(vec![
                field("name", text("pc1")),
                field("hostname", text("pc1")),
                field("os", text("windows")),
                field("osVersion", text("")),
                field("rustdeskId", text("123")),
                field("agentVersion", text("1.4.7")),
            ])),
            timeout_secs: 10,
        })
    );
    assert_eq!(enroll(&build("https://p", ""), "pc1", "windows", "123"), None);
    assert_eq!(enroll(&build("/", "key"), "pc1", "windows", "123"), None);
}

#[test]
fn token_in_the_reply() {
    let reply = |s: &str| Json::parse(s.as_bytes()).unwrap();
    assert_eq!(agent_token(&reply("{\"agentToken\":\"t\"}")), Some("t".to_string()));
    assert_eq!(agent_token(&reply("{\"agentToken\":\"\"}")), Some(String::new()));
    assert_eq!(agent_token(&reply("{\"agentToken\":1}")), None);
    assert_eq!(agent_token(&reply("{}")), None);
}

#[test]
fn heartbeats() {
    assert_eq!(
        heartbeat(&build("https://p/", "key"), "tok", "123"),
        Some(Request {
            method: Method::Post,
            url: "https://p/api/agents/heartbeat".to_string(),
            header: Some(("x-agent-token".to_string(), "tok".to_string())),
            body: Some(Json::Object(vec![
                field("rustdeskId", text("123")),
                field("agentVersion", text("1.4.7")),
                field("forkInstalled", Json::Bool(true)),
                field("rustdeskReady", Json::Bool(true)),
            ])),
            timeout_secs: 8,
        })
    );
    assert_eq!(heartbeat(&build("", "key"), "tok", "123"), None);
    assert_eq!(agent_version(&build("", "")), "1.4.7");
}

#[test]
fn replies() {
    assert_eq!(reply_json(true, Some(b"[1]".to_vec())), Some(Json::Array(vec![Json::Unsigned(1)])));
    assert_eq!(reply_json(false, Some(b"[1]".to_vec())), None);
    assert_eq!(reply_json(true, Some(b"oops".to_vec())), None);
    assert_eq!(reply_json(true, None), None);
}
