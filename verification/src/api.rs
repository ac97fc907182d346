//! Requests to the panel and its replies.

use vstd::prelude::*;
use crate::json::{json_of_bytes, push_field, Json, JsonView};
use crate::text::{
    begins_with, chars_of, glue, law_marks_at_the_end_are_trimmed, only, string_of, trim_back,
    trim_end_char,
};

verus! {

/// What the build of the service was given.
#[derive(Debug, Clone, Copy)]
pub struct Build {
    /// The address of the panel.
    pub api: &'static str,
    /// The key with which the agent enrolls.
    pub enroll_key: &'static str,
    /// When the build was made, in seconds.
    pub build_id: &'static str,
    /// The version of the package that was built.
    pub version: &'static str,
}

/// The version that the agent reports: that of the package it is built in.
pub fn agent_version(build: &Build) -> (version: &'static str)
    ensures
        version@ == build.version@,
{
    build.version
}

/// The address of the panel without slashes at its end, unless nothing is left of it.
pub open spec fn base_of(api: Seq<char>) -> Option<Seq<char>> {
    let base = trim_back(api, only('/'));
    if base.len() == 0 {
        None
    } else {
        Some(base)
    }
}

/// The address of the panel, out of the one that the build was given.
pub fn api_base(api: &str) -> (base: Option<String>)
    ensures
        base.deep_view() == base_of(api@),
{
    let chars = chars_of(api);
    let base = trim_end_char(chars.as_slice(), '/');
    if base.len() == 0 {
        None
    } else {
        Some(string_of(base))
    }
}

/// How a request is made.
#[derive(Debug, Clone, Copy, PartialEq, Eq, Structural)]
pub enum Method {
    Get,
    Post,
}

/// A request over HTTP.
#[derive(Debug, PartialEq)]
pub struct Request {
    pub method: Method,
    pub url: String,
    /// One header: its name and its value.
    pub header: Option<(String, String)>,
    /// What is sent as JSON.
    pub body: Option<Json>,
    /// After how many seconds the request is given up.
    pub timeout_secs: u64,
}

/// The mathematical value of a `Request`.
#[verifier::ext_equal]
pub struct RequestView {
    pub method: Method,
    pub url: Seq<char>,
    pub header: Option<(Seq<char>, Seq<char>)>,
    pub body: Option<JsonView>,
    pub timeout_secs: u64,
}

impl DeepView for Request {
    type V = RequestView;

    open spec fn deep_view(&self) -> RequestView {
        RequestView {
            method: self.method,
            url: self.url@,
            header: self.header.deep_view(),
            body: self.body.deep_view(),
            timeout_secs: self.timeout_secs,
        }
    }
}

/// What an agent that has its token asks the panel for.
#[derive(Debug, Clone, Copy, PartialEq, Eq, Structural)]
pub enum Endpoint {
    Heartbeat,
    Sysinfo,
    Health,
    CommandAck,
    Devices,
    DeviceReport,
    Watchdog,
    WatchdogReport,
    UpdateStatus,
    Branding,
    SessionPhotos,
    SessionHistory,
}

/// The path of an endpoint.
pub open spec fn endpoint_path(endpoint: Endpoint) -> Seq<char> {
    match endpoint {
        Endpoint::Heartbeat => "/api/agents/heartbeat"@,
        Endpoint::Sysinfo => "/api/agents/sysinfo"@,
        Endpoint::Health => "/api/agents/sysinfo"@,
        Endpoint::CommandAck => "/api/agents/me/command-ack"@,
        Endpoint::Devices => "/api/agents/me/devices"@,
        Endpoint::DeviceReport => "/api/agents/me/devices/report"@,
        Endpoint::Watchdog => "/api/agents/me/watchdog"@,
        Endpoint::WatchdogReport => "/api/agents/me/watchdog/report"@,
        Endpoint::UpdateStatus => "/api/agents/me/update-status"@,
        Endpoint::Branding => "/api/agents/me/branding"@,
        Endpoint::SessionPhotos => "/api/agents/me/active-session/photos"@,
        Endpoint::SessionHistory => "/api/agents/me/sessions"@,
    }
}

/// How an endpoint is asked, and for how many seconds.
pub open spec fn endpoint_manner(endpoint: Endpoint) -> (Method, u64) {
    match endpoint {
        Endpoint::Heartbeat => (Method::Post, 8),
        Endpoint::Sysinfo => (Method::Post, 15),
        Endpoint::Health => (Method::Post, 60),
        Endpoint::CommandAck => (Method::Post, 10),
        Endpoint::Devices => (Method::Get, 8),
        Endpoint::DeviceReport => (Method::Post, 8),
        Endpoint::Watchdog => (Method::Get, 8),
        Endpoint::WatchdogReport => (Method::Post, 8),
        Endpoint::UpdateStatus => (Method::Post, 10),
        Endpoint::Branding => (Method::Get, 15),
        Endpoint::SessionPhotos => (Method::Get, 20),
        Endpoint::SessionHistory => (Method::Get, 15),
    }
}

/// The request of an agent with this token.
pub open spec fn agent_request_view(
    endpoint: Endpoint,
    base: Seq<char>,
    token: Seq<char>,
    body: Option<JsonView>,
) -> RequestView {
    RequestView {
        method: endpoint_manner(endpoint).0,
        url: base + endpoint_path(endpoint),
        header: Some(("x-agent-token"@, token)),
        body,
        timeout_secs: endpoint_manner(endpoint).1,
    }
}

/// The request of an agent with this token.
pub fn agent_request(endpoint: Endpoint, base: &str, token: &str, body: Option<Json>) -> (request:
    Request)
    ensures
        request.deep_view() == agent_request_view(endpoint, base@, token@, body.deep_view()),
{
    let (path, method, secs): (&str, Method, u64) = match endpoint {
        Endpoint::Heartbeat => ("/api/agents/heartbeat", Method::Post, 8),
        Endpoint::Sysinfo => ("/api/agents/sysinfo", Method::Post, 15),
        Endpoint::Health => ("/api/agents/sysinfo", Method::Post, 60),
        Endpoint::CommandAck => ("/api/agents/me/command-ack", Method::Post, 10),
        Endpoint::Devices => ("/api/agents/me/devices", Method::Get, 8),
        Endpoint::DeviceReport => ("/api/agents/me/devices/report", Method::Post, 8),
        Endpoint::Watchdog => ("/api/agents/me/watchdog", Method::Get, 8),
        Endpoint::WatchdogReport => ("/api/agents/me/watchdog/report", Method::Post, 8),
        Endpoint::UpdateStatus => ("/api/agents/me/update-status", Method::Post, 10),
        Endpoint::Branding => ("/api/agents/me/branding", Method::Get, 15),
        Endpoint::SessionPhotos => ("/api/agents/me/active-session/photos", Method::Get, 20),
        Endpoint::SessionHistory => ("/api/agents/me/sessions", Method::Get, 15),
    };
    Request {
        method,
        url: glue(base, path),
        header: Some(("x-agent-token".to_owned(), token.to_owned())),
        body,
        timeout_secs: secs,
    }
}

/// A request for what lies at an address, without a token.
pub open spec fn fetch_view(url: Seq<char>, secs: u64) -> RequestView {
    RequestView { method: Method::Get, url, header: None, body: None, timeout_secs: secs }
}

/// A request for what lies at an address, without a token.
pub fn fetch(url: String, secs: u64) -> (request: Request)
    ensures
        request.deep_view() == fetch_view(url@, secs),
{
    Request { method: Method::Get, url, header: None, body: None, timeout_secs: secs }
}

/// What the agent says of the machine when it enrolls.
pub open spec fn enroll_body(
    hostname: Seq<char>,
    os: Seq<char>,
    id: Seq<char>,
    version: Seq<char>,
) -> JsonView {
    JsonView::Object(
        seq![
            ("name"@, JsonView::Text(hostname)),
            ("hostname"@, JsonView::Text(hostname)),
            ("os"@, JsonView::Text(os)),
            ("osVersion"@, JsonView::Text(""@)),
            ("rustdeskId"@, JsonView::Text(id)),
            ("agentVersion"@, JsonView::Text(version)),
        ],
    )
}

/// The request to enroll. Without an address or a key there is none.
pub open spec fn enroll_view(
    build: Build,
    hostname: Seq<char>,
    os: Seq<char>,
    id: Seq<char>,
) -> Option<RequestView> {
    match base_of(build.api@) {
        Some(base) => if build.enroll_key@.len() == 0 {
            None
        } else {
            Some(
                RequestView {
                    method: Method::Post,
                    url: base + "/api/agents/enroll"@,
                    header: Some(("x-api-key"@, build.enroll_key@)),
                    body: Some(enroll_body(hostname, os, id, build.version@)),
                    timeout_secs: 10,
                },
            )
        },
        None => None,
    }
}

/// The request to enroll. Without an address or a key there is none.
pub fn enroll(build: &Build, hostname: &str, os: &str, id: &str) -> (request: Option<Request>)
    ensures
        request.deep_view() == enroll_view(*build, hostname@, os@, id@),
{
    if build.enroll_key.is_empty() {
        return None;
    }
    match api_base(build.api) {
        Some(base) => {
            let mut fields: Vec<(String, Json)> = Vec::new();
            push_field(&mut fields, "name", Json::text(hostname));
            push_field(&mut fields, "hostname", Json::text(hostname));
            push_field(&mut fields, "os", Json::text(os));
            push_field(&mut fields, "osVersion", Json::text(""));
            push_field(&mut fields, "rustdeskId", Json::text(id));
            push_field(&mut fields, "agentVersion", Json::text(agent_version(build)));
            assert(fields.deep_view() =~= enroll_body(
                hostname@,
                os@,
                id@,
                build.version@,
            )->Object_0);
            Some(
                Request {
                    method: Method::Post,
                    url: glue(base.as_str(), "/api/agents/enroll"),
                    header: Some(("x-api-key".to_owned(), build.enroll_key.to_owned())),
                    body: Some(Json::object(fields)),
                    timeout_secs: 10,
                },
            )
        },
        None => None,
    }
}

/// The token in the reply to a request to enroll.
pub open spec fn token_in(reply: JsonView) -> Option<Seq<char>> {
    match reply.field("agentToken"@) {
        Some(value) => value.text(),
        None => None,
    }
}

/// The token in the reply to a request to enroll.
pub fn agent_token(reply: &Json) -> (token: Option<String>)
    ensures
        token.deep_view() == token_in(reply@),
{
    match reply.get("agentToken") {
        Some(value) => match value.as_str() {
            Some(text) => Some(text.to_owned()),
            None => None,
        },
        None => None,
    }
}

/// What the agent says of itself in each heartbeat.
pub open spec fn heartbeat_body(id: Seq<char>, version: Seq<char>) -> JsonView {
    JsonView::Object(
        seq![
            ("rustdeskId"@, JsonView::Text(id)),
            ("agentVersion"@, JsonView::Text(version)),
            ("forkInstalled"@, JsonView::Bool(true)),
            ("rustdeskReady"@, JsonView::Bool(true)),
        ],
    )
}

/// The heartbeat of an agent with this token. Without an address there is none.
pub open spec fn heartbeat_view(build: Build, token: Seq<char>, id: Seq<char>) -> Option<RequestView> {
    match base_of(build.api@) {
        Some(base) => Some(
            agent_request_view(
                Endpoint::Heartbeat,
                base,
                token,
                Some(heartbeat_body(id, build.version@)),
            ),
        ),
        None => None,
    }
}

/// The heartbeat of an agent with this token. Without an address there is none.
pub fn heartbeat(build: &Build, token: &str, id: &str) -> (request: Option<Request>)
    ensures
        request.deep_view() == heartbeat_view(*build, token@, id@),
{
    match api_base(build.api) {
        Some(base) => {
            let mut fields: Vec<(String, Json)> = Vec::new();
            push_field(&mut fields, "rustdeskId", Json::text(id));
            push_field(&mut fields, "agentVersion", Json::text(agent_version(build)));
            push_field(&mut fields, "forkInstalled", Json::Bool(true));
            push_field(&mut fields, "rustdeskReady", Json::Bool(true));
            assert(fields.deep_view() =~= heartbeat_body(id@, build.version@)->Object_0);
            Some(
                agent_request(
                    Endpoint::Heartbeat,
                    base.as_str(),
                    token,
                    Some(Json::object(fields)),
                ),
            )
        },
        None => None,
    }
}

/// The JSON value of a reply: nothing where the panel reported an error, where the body did not
/// come through, or where it is not JSON.
pub open spec fn reply_value(success: bool, body: Option<Seq<u8>>) -> Option<JsonView> {
    match body {
        Some(bytes) => if success {
            json_of_bytes(bytes)
        } else {
            None
        },
        None => None,
    }
}

/// The JSON value of a reply.
pub fn reply_json(success: bool, body: Option<Vec<u8>>) -> (value: Option<Json>)
    ensures
        value.deep_view() == reply_value(
            success,
            match body {
                Some(bytes) => Some(bytes@),
                None => None,
            },
        ),
{
    match body {
        Some(bytes) => if success {
            Json::parse(bytes.as_slice())
        } else {
            None
        },
        None => None,
    }
}

/// The address of the panel does not end in a slash, so a path can follow it.
pub proof fn law_base_ends_in_no_slash(api: Seq<char>)
    ensures
        base_of(api) matches Some(base) ==> base.len() > 0 && base.last() != '/',
    decreases api.len(),
{
    if api.len() > 0 && api.last() == '/' {
        law_base_ends_in_no_slash(api.drop_last());
    }
}

/// Every request of an agent goes to the panel and carries the token.
pub proof fn law_requests_go_to_the_panel(
    endpoint: Endpoint,
    base: Seq<char>,
    token: Seq<char>,
    body: Option<JsonView>,
)
    ensures
        begins_with(agent_request_view(endpoint, base, token, body).url, base),
        agent_request_view(endpoint, base, token, body).header == Some(("x-agent-token"@, token)),
{
    let url = agent_request_view(endpoint, base, token, body).url;
    assert(url.subrange(0, base.len() as int) =~= base);
}

/// Without a key nothing is asked of the panel.
pub proof fn law_no_key_no_request(build: Build, hostname: Seq<char>, os: Seq<char>, id: Seq<char>)
    requires
        build.enroll_key@.len() == 0,
    ensures
        enroll_view(build, hostname, os, id) is None,
{
}

/// Slashes at the end of the address come off, however many, and nothing else does. An address of
/// slashes alone is none.
pub proof fn law_slashes_at_the_end_come_off(address: Seq<char>, slashes: nat)
    requires
        address.len() > 0 ==> address.last() != '/',
    ensures
        base_of(address + Seq::new(slashes, |i: int| '/')) == (if address.len() > 0 {
            Some(address)
        } else {
            None
        }),
{
    law_marks_at_the_end_are_trimmed(address, slashes, '/');
}

/// A request of an agent with this token.
pub open spec fn request_with_token(
    method: Method,
    url: Seq<char>,
    token: Seq<char>,
    body: Option<JsonView>,
    timeout_secs: u64,
) -> RequestView {
    RequestView { method, url, header: Some(("x-agent-token"@, token)), body, timeout_secs }
}

/// Where each request of an agent goes, how it is made, and how long it may take, whatever the
/// address, the token and the body.
pub proof fn law_every_endpoint_has_its_place(
    base: Seq<char>,
    token: Seq<char>,
    body: Option<JsonView>,
)
    ensures
        agent_request_view(Endpoint::Heartbeat, base, token, body) == request_with_token(
            Method::Post,
            base + "/api/agents/heartbeat"@,
            token,
            body,
            8,
        ),
        agent_request_view(Endpoint::Sysinfo, base, token, body) == request_with_token(
            Method::Post,
            base + "/api/agents/sysinfo"@,
            token,
            body,
            15,
        ),
        agent_request_view(Endpoint::Health, base, token, body) == request_with_token(
            Method::Post,
            base + "/api/agents/sysinfo"@,
            token,
            body,
            60,
        ),
        agent_request_view(Endpoint::CommandAck, base, token, body) == request_with_token(
            Method::Post,
            base + "/api/agents/me/command-ack"@,
            token,
            body,
            10,
        ),
        agent_request_view(Endpoint::Devices, base, token, body) == request_with_token(
            Method::Get,
            base + "/api/agents/me/devices"@,
            token,
            body,
            8,
        ),
        agent_request_view(Endpoint::DeviceReport, base, token, body) == request_with_token(
            Method::Post,
            base + "/api/agents/me/devices/report"@,
            token,
            body,
            8,
        ),
        agent_request_view(Endpoint::Watchdog, base, token, body) == request_with_token(
            Method::Get,
            base + "/api/agents/me/watchdog"@,
            token,
            body,
            8,
        ),
        agent_request_view(Endpoint::WatchdogReport, base, token, body) == request_with_token(
            Method::Post,
            base + "/api/agents/me/watchdog/report"@,
            token,
            body,
            8,
        ),
        agent_request_view(Endpoint::UpdateStatus, base, token, body) == request_with_token(
            Method::Post,
            base + "/api/agents/me/update-status"@,
            token,
            body,
            10,
        ),
        agent_request_view(Endpoint::Branding, base, token, body) == request_with_token(
            Method::Get,
            base + "/api/agents/me/branding"@,
            token,
            body,
            15,
        ),
        agent_request_view(Endpoint::SessionPhotos, base, token, body) == request_with_token(
            Method::Get,
            base + "/api/agents/me/active-session/photos"@,
            token,
            body,
            20,
        ),
        agent_request_view(Endpoint::SessionHistory, base, token, body) == request_with_token(
            Method::Get,
            base + "/api/agents/me/sessions"@,
            token,
            body,
            15,
        ),
{
}

/// Every build with an address and a key enrolls at its panel with its key, and says what the
/// machine is.
pub proof fn law_every_build_with_a_key_enrolls(
    build: Build,
    base: Seq<char>,
    slashes: nat,
    hostname: Seq<char>,
    os: Seq<char>,
    id: Seq<char>,
)
    requires
        base.len() > 0 && base.last() != '/',
        build.api@ == base + Seq::new(slashes, |i: int| '/'),
    ensures
        build.enroll_key@.len() > 0 ==> enroll_view(build, hostname, os, id) == Some(
            RequestView {
                method: Method::Post,
                url: base + "/api/agents/enroll"@,
                header: Some(("x-api-key"@, build.enroll_key@)),
                body: Some(
                    JsonView::Object(
                        seq![
                            ("name"@, JsonView::Text(hostname)),
                            ("hostname"@, JsonView::Text(hostname)),
                            ("os"@, JsonView::Text(os)),
                            ("osVersion"@, JsonView::Text(""@)),
                            ("rustdeskId"@, JsonView::Text(id)),
                            ("agentVersion"@, JsonView::Text(build.version@)),
                        ],
                    ),
                ),
                timeout_secs: 10,
            },
        ),
        heartbeat_view(build, hostname, id) == Some(
            request_with_token(
                Method::Post,
                base + "/api/agents/heartbeat"@,
                hostname,
                Some(
                    JsonView::Object(
                        seq![
                            ("rustdeskId"@, JsonView::Text(id)),
                            ("agentVersion"@, JsonView::Text(build.version@)),
                            ("forkInstalled"@, JsonView::Bool(true)),
                            ("rustdeskReady"@, JsonView::Bool(true)),
                        ],
                    ),
                ),
                8,
            ),
        ),
{
    law_slashes_at_the_end_come_off(base, slashes);
}

/// The token is the text that the panel gives under its name. A reply counts where it is a success
/// and JSON.
pub proof fn law_replies_are_read(reply: JsonView, success: bool, body: Option<Seq<u8>>)
    ensures
        reply.field("agentToken"@) matches Some(JsonView::Text(token)) ==> token_in(reply) == Some(
            token,
        ),
        !(reply.field("agentToken"@) matches Some(JsonView::Text(token))) ==> token_in(reply)
            is None,
        reply_value(false, body) is None,
        reply_value(success, None) is None,
        body matches Some(bytes) ==> reply_value(true, body) == json_of_bytes(bytes),
{
}

} // verus!
