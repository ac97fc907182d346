//! Devices at the site that the panel has the agent probe.

use vstd::prelude::*;
use crate::api::{agent_request, agent_request_view, Endpoint, Request};
use crate::command::{output_text, output_view, run, Platform, Step, StepView};
use crate::json::{push_field, Json, JsonView};
use crate::outside::{to_uppercase, unicode_uppercase};
use crate::text::{
    chars_of, decimal, decimal_text, glue3, is_white_space, law_lines_end_at_line_feeds,
    law_white_space_around_is_trimmed, line_seq, lines, pieces, same_chars, same_text, trim,
    trimmed,
};

verus! {

/// After how many seconds a connection is given up.
pub const CONNECT_SECS: u64 = 3;

/// The longest time in milliseconds in which a connection is not slow.
pub const SLOW_ABOVE_MS: u32 = 200;

/// How a device is probed.
#[derive(Debug, PartialEq)]
pub enum Probe {
    /// It is known already: this status, and no time.
    Settled { status: String },
    /// By a connection to this address.
    Connect { address: String },
    /// By looking for this port on the list of serial ports.
    Serial { port: String },
}

/// The mathematical value of a `Probe`.
pub enum ProbeView {
    Settled { status: Seq<char> },
    Connect { address: Seq<char> },
    Serial { port: Seq<char> },
}

impl DeepView for Probe {
    type V = ProbeView;

    open spec fn deep_view(&self) -> ProbeView {
        match *self {
            Probe::Settled { status } => ProbeView::Settled { status: status@ },
            Probe::Connect { address } => ProbeView::Connect { address: address@ },
            Probe::Serial { port } => ProbeView::Serial { port: port@ },
        }
    }
}

/// The port of a device on the network: 9999 where none is given, and the last sixteen bits of a
/// number that is too large.
pub open spec fn port_of(config: JsonView) -> nat {
    match config.unsigned_field("port"@) {
        Some(port) => (port % 65536) as nat,
        None => 9999,
    }
}

/// How a device on the network is probed. Without an address it is down.
pub open spec fn tcp_probe(config: JsonView) -> ProbeView {
    let ip = config.text_field("ip"@);
    if ip.len() == 0 {
        ProbeView::Settled { status: "down"@ }
    } else {
        ProbeView::Connect { address: ip + ":"@ + decimal(port_of(config)) }
    }
}

/// How a device on a serial port is probed. Without a port it is down, and elsewhere than on
/// Windows nothing is known of it.
pub open spec fn serial_probe(platform: Platform, config: JsonView) -> ProbeView {
    let port = config.text_field("com"@);
    if platform == Platform::Other {
        ProbeView::Settled { status: "unknown"@ }
    } else if port.len() == 0 {
        ProbeView::Settled { status: "down"@ }
    } else {
        ProbeView::Serial { port }
    }
}

/// How a device of a kind is probed.
pub open spec fn probe_of(platform: Platform, kind: Seq<char>, config: JsonView) -> ProbeView {
    if kind == "tcp"@ {
        tcp_probe(config)
    } else if kind == "serial"@ {
        serial_probe(platform, config)
    } else {
        ProbeView::Settled { status: "unknown"@ }
    }
}

/// Decides how a device on the network is probed.
pub fn probe_tcp(config: &Json) -> (probe: Probe)
    ensures
        probe.deep_view() == tcp_probe(config@),
{
    let ip = config.text_field("ip");
    if ip.as_str().is_empty() {
        return Probe::Settled { status: "down".to_owned() };
    }
    let port: u64 = match config.unsigned_field("port") {
        Some(port) => port % 65536,
        None => 9999,
    };
    let number = decimal_text(port);
    Probe::Connect { address: glue3(ip.as_str(), ":", number.as_str()) }
}

/// Decides how a device on a serial port is probed.
pub fn probe_serial(platform: Platform, config: &Json) -> (probe: Probe)
    ensures
        probe.deep_view() == serial_probe(platform, config@),
{
    let port = config.text_field("com");
    if platform == Platform::Other {
        Probe::Settled { status: "unknown".to_owned() }
    } else if port.as_str().is_empty() {
        Probe::Settled { status: "down".to_owned() }
    } else {
        Probe::Serial { port }
    }
}

/// What came of a connection: down where there was none in time, else slow or fine by the
/// milliseconds that it took.
pub open spec fn connection_status(millis: Option<u128>) -> (Seq<char>, Option<u32>) {
    match millis {
        Some(ms) => {
            let short = (ms % 0x1_0000_0000) as u32;
            (
                if short > SLOW_ABOVE_MS {
                    "slow"@
                } else {
                    "ok"@
                },
                Some(short),
            )
        },
        None => ("down"@, None),
    }
}

/// The status and the time of a device, by what came of the connection.
pub fn on_connection(millis: Option<u128>) -> (status: (String, Option<u32>))
    ensures
        status.deep_view() == connection_status(millis),
{
    match millis {
        Some(ms) => {
            let short: u32 = (ms % 0x1_0000_0000) as u32;
            let word = if short > SLOW_ABOVE_MS {
                "slow"
            } else {
                "ok"
            };
            (word.to_owned(), Some(short))
        },
        None => ("down".to_owned(), None),
    }
}

/// The program that lists the serial ports.
pub open spec fn ports_query_view() -> StepView {
    StepView::Run {
        program: "wmic"@,
        args: seq!["path"@, "Win32_SerialPort"@, "get"@, "DeviceID"@],
    }
}

/// The program that lists the serial ports.
pub fn ports_query() -> (step: Step)
    ensures
        step.deep_view() == ports_query_view(),
{
    let step = run("wmic", &["path", "Win32_SerialPort", "get", "DeviceID"]);
    assert(step.deep_view() =~~= ports_query_view());
    step
}

/// Some line says just this, apart from white space around it.
pub open spec fn has_line(lines: Seq<Seq<char>>, text: Seq<char>) -> bool {
    exists|i: int| 0 <= i < lines.len() && trimmed(#[trigger] lines[i]) == text
}

/// The port stands on a line of its own on the list, both in upper case and without white space
/// around them. The heading of the list is no port.
pub open spec fn is_listed(upper_list: Seq<char>, upper_port: Seq<char>) -> bool {
    let port = trimmed(upper_port);
    port.len() > 0 && port != "DEVICEID"@ && has_line(line_seq(upper_list), port)
}

/// The status of a serial port: fine where it stands on a line of the list, in any case of letters.
pub open spec fn port_status(port: Seq<char>, list: Option<Seq<char>>) -> Seq<char> {
    if list matches Some(text) && is_listed(unicode_uppercase(text), unicode_uppercase(port)) {
        "ok"@
    } else {
        "down"@
    }
}

/// Whether the port stands on a line of its own on the list, both in upper case.
pub fn port_listed(upper_list: &str, upper_port: &str) -> (yes: bool)
    ensures
        yes == is_listed(upper_list@, upper_port@),
{
    let chars = chars_of(upper_list);
    let port = chars_of(upper_port);
    let name = trim(port.as_slice());
    let heading = chars_of("DEVICEID");
    if name.len() == 0 || same_chars(name, heading.as_slice()) {
        return false;
    }
    let parts = lines(chars.as_slice());
    let ghost all = pieces(parts@);
    for i in 0..parts.len()
        invariant
            all == pieces(parts@),
            all == line_seq(upper_list@),
            name@ == trimmed(upper_port@) && name@.len() > 0 && name@ != "DEVICEID"@,
            forall|j: int| 0 <= j < i ==> trimmed(#[trigger] all[j]) != name@,
    {
        assert(all[i as int] == parts@[i as int]@);
        if same_chars(trim(parts[i]), name) {
            return true;
        }
    }
    false
}

/// The status of a serial port, by the text of the list.
pub fn port_status_by_text(port: &str, list: Option<&str>) -> (status: String)
    ensures
        status@ == port_status(port@, list.deep_view()),
{
    match list {
        Some(text) => {
            if port_listed(to_uppercase(text).as_str(), to_uppercase(port).as_str()) {
                "ok".to_owned()
            } else {
                "down".to_owned()
            }
        },
        None => "down".to_owned(),
    }
}

/// The status of a serial port, by what the program wrote.
pub fn on_ports(port: &str, output: Option<&[u8]>) -> (status: String)
    ensures
        status@ == port_status(port@, output_view(output)),
{
    match output_text(output) {
        Some(text) => port_status_by_text(port, Some(text.as_str())),
        None => port_status_by_text(port, None),
    }
}

/// A device and how it is probed.
#[derive(Debug, PartialEq)]
pub struct Device {
    pub id: String,
    pub probe: Probe,
}

/// The mathematical value of a `Device`.
pub struct DeviceView {
    pub id: Seq<char>,
    pub probe: ProbeView,
}

impl DeepView for Device {
    type V = DeviceView;

    open spec fn deep_view(&self) -> DeviceView {
        DeviceView { id: self.id@, probe: self.probe.deep_view() }
    }
}

/// The configuration of a device, empty where it has none.
pub open spec fn config_of(device: JsonView) -> JsonView {
    match device.field("config"@) {
        Some(config) => config,
        None => JsonView::Object(Seq::empty()),
    }
}

/// The device that a JSON value describes.
pub open spec fn device_of(platform: Platform, device: JsonView) -> DeviceView {
    DeviceView {
        id: device.text_field("id"@),
        probe: probe_of(platform, device.text_field("kind"@), config_of(device)),
    }
}

/// The devices in the panel's reply: nothing where it has no list of them.
pub open spec fn device_list(platform: Platform, reply: JsonView) -> Option<Seq<DeviceView>> {
    match reply.items_field("devices"@) {
        Some(items) => Some(items.map_values(|item: JsonView| device_of(platform, item))),
        None => None,
    }
}

/// Reads one device.
fn read_device(platform: Platform, item: &Json) -> (device: Device)
    ensures
        device.deep_view() == device_of(platform, item@),
{
    let id = item.text_field("id");
    let kind = item.text_field("kind");
    let empty = Json::object(Vec::new());
    assert(empty@->Object_0 =~= Seq::<(Seq<char>, JsonView)>::empty());
    let config = match item.get("config") {
        Some(config) => config,
        None => &empty,
    };
    let probe = if same_text(kind.as_str(), "tcp") {
        probe_tcp(config)
    } else if same_text(kind.as_str(), "serial") {
        probe_serial(platform, config)
    } else {
        Probe::Settled { status: "unknown".to_owned() }
    };
    Device { id, probe }
}

/// Reads the devices in the panel's reply.
pub fn probe_devices(platform: Platform, reply: &Json) -> (list: Option<Vec<Device>>)
    ensures
        list.deep_view() == device_list(platform, reply@),
{
    match reply.items_field("devices") {
        Some(items) => {
            let mut list: Vec<Device> = Vec::new();
            for i in 0..items.len()
                invariant
                    list@.len() == i,
                    forall|j: int|
                        0 <= j < i ==> (#[trigger] list@[j]).deep_view() == device_of(
                            platform,
                            items@[j]@,
                        ),
            {
                list.push(read_device(platform, &items[i]));
            }
            assert(list.deep_view() =~= device_list(platform, reply@)->0);
            Some(list)
        },
        None => None,
    }
}

/// What is reported of a device.
pub open spec fn device_report_body(
    id: Seq<char>,
    status: Seq<char>,
    millis: Option<u32>,
) -> JsonView {
    JsonView::Object(
        seq![
            ("id"@, JsonView::Text(id)),
            ("status"@, JsonView::Text(status)),
            (
                "latencyMs"@,
                match millis {
                    Some(ms) => JsonView::Unsigned(ms as u64),
                    None => JsonView::Null,
                },
            ),
        ],
    )
}

/// The report on a device.
pub fn device_report(base: &str, token: &str, id: &str, status: &str, millis: Option<u32>) -> (
    request: Request)
    ensures
        request.deep_view() == agent_request_view(
            Endpoint::DeviceReport,
            base@,
            token@,
            Some(device_report_body(id@, status@, millis)),
        ),
{
    let mut fields: Vec<(String, Json)> = Vec::new();
    push_field(&mut fields, "id", Json::text(id));
    push_field(&mut fields, "status", Json::text(status));
    let latency = match millis {
        Some(ms) => Json::Unsigned(ms as u64),
        None => Json::Null,
    };
    push_field(&mut fields, "latencyMs", latency);
    assert(fields.deep_view() =~= device_report_body(id@, status@, millis)->Object_0);
    agent_request(Endpoint::DeviceReport, base, token, Some(Json::object(fields)))
}

/// A port is fine exactly where its name stands on a line of the list other than the heading: a
/// longer name that begins with it does not count.
pub proof fn law_only_listed_ports_are_fine(port: Seq<char>, list: Seq<char>)
    ensures
        ({
            let name = trimmed(unicode_uppercase(port));
            port_status(port, Some(list)) == "ok"@ <==> name.len() > 0 && name != "DEVICEID"@
                && exists|i: int|
                0 <= i < line_seq(unicode_uppercase(list)).len() && trimmed(
                    #[trigger] line_seq(unicode_uppercase(list))[i],
                ) == name
        }),
{
    reveal_strlit("ok");
    reveal_strlit("down");
    assert("ok"@.len() != "down"@.len());
}

/// Every device on the network with an address is probed there, at its port or else at 9999.
pub proof fn law_devices_are_probed_at_their_address(config: JsonView, ip: Seq<char>, port: u64)
    requires
        config.field("ip"@) == Some(JsonView::Text(ip)),
        ip.len() > 0,
    ensures
        config.field("port"@) == Some(JsonView::Unsigned(port)) && port < 65536 ==> tcp_probe(
            config,
        ) == (ProbeView::Connect { address: ip + ":"@ + decimal(port as nat) }),
        config.field("port"@) == Some(JsonView::Unsigned(port)) ==> exists|low: nat|
            low < 65536 && (port - low) % 65536 == 0 && tcp_probe(config) == (ProbeView::Connect {
                address: ip + ":"@ + #[trigger] decimal(low),
            }),
        !(config.field("port"@) matches Some(JsonView::Unsigned(n))) ==> tcp_probe(config) == (
        ProbeView::Connect { address: ip + ":"@ + decimal(9999) }),
{
    let low = (port % 65536) as nat;
    assert((port - low) % 65536 == 0);
    assert(decimal(low) == decimal(low));
}

/// A device without an address or a port is down. On a serial port it is looked for by the name of
/// the port on Windows, and elsewhere nothing is known of it. Nothing is known of other devices.
pub proof fn law_devices_are_probed_by_their_kind(
    platform: Platform,
    kind: Seq<char>,
    config: JsonView,
)
    ensures
        config.text_field("ip"@).len() == 0 ==> probe_of(platform, "tcp"@, config) == (
        ProbeView::Settled { status: "down"@ }),
        probe_of(platform, "tcp"@, config) == tcp_probe(config),
        probe_of(Platform::Other, "serial"@, config) == (ProbeView::Settled {
            status: "unknown"@,
        }),
        probe_of(Platform::Windows, "serial"@, config) == (if config.text_field("com"@).len() == 0 {
            ProbeView::Settled { status: "down"@ }
        } else {
            ProbeView::Serial { port: config.text_field("com"@) }
        }),
        kind != "tcp"@ && kind != "serial"@ ==> probe_of(platform, kind, config) == (
        ProbeView::Settled { status: "unknown"@ }),
{
    reveal_strlit("tcp");
    reveal_strlit("serial");
    assert("tcp"@.len() != "serial"@.len());
}

/// A connection is fine up to 200 milliseconds and slow beyond, with the time that it took; where
/// there is none the device is down, and there is no time.
pub proof fn law_time_of_a_connection_decides(millis: u128)
    ensures
        millis <= 200 ==> connection_status(Some(millis)) == ("ok"@, Some(millis as u32)),
        200 < millis < 0x1_0000_0000 ==> connection_status(Some(millis)) == (
            "slow"@,
            Some(millis as u32),
        ),
        millis < 0xffff_ffff_ffff_ffff_ffff_ffff_0000_0000 ==> connection_status(
            Some((millis + 0x1_0000_0000) as u128),
        ) == connection_status(Some(millis)),
        connection_status(None) == ("down"@, None::<u32>),
{
}

/// Each device of the panel's list is probed in its place, by its kind and its configuration.
pub proof fn law_every_device_is_probed(
    platform: Platform,
    reply: JsonView,
    items: Seq<JsonView>,
    i: int,
)
    requires
        reply.field("devices"@) == Some(JsonView::Array(items)),
        0 <= i < items.len(),
    ensures
        device_list(platform, reply) matches Some(list) && list.len() == items.len() && ({
            let device = list[i];
            &&& device.id == items[i].text_field("id"@)
            &&& device.probe == probe_of(
                platform,
                items[i].text_field("kind"@),
                match items[i].field("config"@) {
                    Some(config) => config,
                    None => JsonView::Object(Seq::empty()),
                },
            )
        }),
{
}

/// The report on a device names its id, its status and its time, or null where there is none.
pub proof fn law_report_says_what_came_of_the_probe(
    id: Seq<char>,
    status: Seq<char>,
    millis: Option<u32>,
)
    ensures
        ({
            let fields = device_report_body(id, status, millis)->Object_0;
            &&& device_report_body(id, status, millis) is Object
            &&& fields.len() == 3
            &&& fields[0] == ("id"@, JsonView::Text(id))
            &&& fields[1] == ("status"@, JsonView::Text(status))
            &&& fields[2].0 == "latencyMs"@
            &&& millis is None ==> fields[2].1 == JsonView::Null
            &&& millis is Some ==> fields[2].1 == JsonView::Unsigned(millis->0 as u64)
        }),
{
}

/// Every port on the list is fine: whatever lines stand before it and behind it, and whatever white
/// space stands around it, there and in the name that is looked for.
pub proof fn law_every_listed_port_is_found(
    before: Seq<char>,
    port: Seq<char>,
    behind: Seq<char>,
    a: Seq<char>,
    b: Seq<char>,
    c: Seq<char>,
    d: Seq<char>,
)
    requires
        port.len() > 0 && port != "DEVICEID"@ && !port.contains('\n'),
        !is_white_space(port[0]) && !is_white_space(port.last()),
        before.len() == 0 || before.last() == '\n',
        is_blank_in_line(a) && is_blank_in_line(b) && is_blank_in_line(c) && is_blank_in_line(d),
    ensures
        is_listed(before + (a + port + b) + seq!['\n'] + behind, c + port + d),
{
    let line = a + port + b;
    let text = before + line + seq!['\n'] + behind;
    assert(!line.contains('\n')) by {
        if line.contains('\n') {
            let i = choose|i: int| 0 <= i < line.len() && line[i] == '\n';
            if i < a.len() {
                assert(a[i] == '\n');
            } else if i < a.len() + port.len() {
                assert(port[i - a.len()] == '\n');
            } else {
                assert(b[i - a.len() - port.len()] == '\n');
            }
        }
    }
    law_white_space_around_is_trimmed(c, port, d);
    lemma_line_is_there(before, line, behind);
    let shown = line_seq(text);
    let i = choose|i: int|
        0 <= i < shown.len() && (#[trigger] shown[i] == line || shown[i] == line.drop_last()
            && line.len() > 0 && line.last() == '\r');
    if shown[i] == line {
        law_white_space_around_is_trimmed(a, port, b);
    } else {
        if b.len() > 0 {
            assert(b.last() == line.last());
            assert(line.drop_last() =~= a + port + b.drop_last());
            assert forall|k: int| 0 <= k < b.drop_last().len() implies is_white_space(
                #[trigger] b.drop_last()[k],
            ) by {
                assert(b.drop_last()[k] == b[k]);
            }
            law_white_space_around_is_trimmed(a, port, b.drop_last());
        } else {
            assert(line.last() == port.last());
        }
    }
    assert(trimmed(shown[i]) == port);
}

/// White space without the mark that ends a line.
pub open spec fn is_blank_in_line(s: Seq<char>) -> bool {
    forall|i: int| 0 <= i < s.len() ==> is_white_space(#[trigger] s[i]) && s[i] != '\n'
}

/// A line that stands between line feeds is one of the lines, but for a carriage return at its end.
proof fn lemma_line_is_there(before: Seq<char>, line: Seq<char>, behind: Seq<char>)
    requires
        !line.contains('\n'),
        before.len() == 0 || before.last() == '\n',
    ensures
        exists|i: int|
            0 <= i < line_seq(before + line + seq!['\n'] + behind).len() && (#[trigger] line_seq(
                before + line + seq!['\n'] + behind,
            )[i] == line || line_seq(before + line + seq!['\n'] + behind)[i] == line.drop_last()
                && line.len() > 0 && line.last() == '\r'),
    decreases before.len(),
{
    let text = before + line + seq!['\n'] + behind;
    if before.len() == 0 {
        if line.len() > 0 && line.last() == '\r' {
            let short = line.drop_last();
            assert(!short.contains('\n')) by {
                if short.contains('\n') {
                    let k = choose|k: int| 0 <= k < short.len() && short[k] == '\n';
                    assert(line[k] == '\n');
                }
            }
            law_lines_end_at_line_feeds(short, behind);
            assert(text =~= short + seq!['\r', '\n'] + behind);
            assert(line_seq(text)[0] == line.drop_last());
        } else {
            law_lines_end_at_line_feeds(line, behind);
            assert(text =~= line + seq!['\n'] + behind);
            assert(line_seq(text)[0] == line);
        }
    } else {
        let n = first_feed(before);
        let first = before.take(n);
        let rest = before.skip(n + 1);
        lemma_first_feed(before);
        assert(!first.contains('\n')) by {
            if first.contains('\n') {
                let k = choose|k: int| 0 <= k < first.len() && first[k] == '\n';
                assert(before[k] == '\n');
            }
        }
        if rest.len() > 0 {
            assert(rest.last() == before.last());
        }
        lemma_line_is_there(rest, line, behind);
        let tail = rest + line + seq!['\n'] + behind;
        let lines = line_seq(tail);
        let i = choose|i: int|
            0 <= i < lines.len() && (#[trigger] lines[i] == line || lines[i] == line.drop_last()
                && line.len() > 0 && line.last() == '\r');
        if first.len() > 0 && first.last() == '\r' {
            let short = first.drop_last();
            assert(!short.contains('\n')) by {
                if short.contains('\n') {
                    let k = choose|k: int| 0 <= k < short.len() && short[k] == '\n';
                    assert(first[k] == '\n');
                }
            }
            law_lines_end_at_line_feeds(short, tail);
            assert(text =~= short + seq!['\r', '\n'] + tail);
        } else {
            law_lines_end_at_line_feeds(first, tail);
            assert(text =~= first + seq!['\n'] + tail);
        }
        assert(line_seq(text)[i + 1] == lines[i]);
    }
}

/// Where the first line feed stands.
spec fn first_feed(s: Seq<char>) -> int
    decreases s.len(),
{
    if s.len() == 0 || s[0] == '\n' {
        0
    } else {
        1 + first_feed(s.drop_first())
    }
}

/// The first line feed is one, and none stands before it.
proof fn lemma_first_feed(s: Seq<char>)
    requires
        s.len() > 0,
        s.last() == '\n',
    ensures
        0 <= first_feed(s) < s.len(),
        s[first_feed(s)] == '\n',
        forall|k: int| 0 <= k < first_feed(s) ==> #[trigger] s[k] != '\n',
    decreases s.len(),
{
    if s[0] != '\n' {
        let rest = s.drop_first();
        assert(rest.last() == s.last());
        lemma_first_feed(rest);
        assert forall|k: int| 0 <= k < first_feed(s) implies #[trigger] s[k] != '\n' by {
            if k > 0 {
                assert(rest[k - 1] == s[k]);
            }
        }
        assert(rest[first_feed(rest)] == s[first_feed(s)]);
    }
}

/// The ports are listed by `wmic`, by their names alone, and a connection is given up after three
/// seconds.
pub proof fn law_ports_are_listed_by_their_names()
    ensures
        ports_query_view() matches StepView::Run { program, args } && program == "wmic"@ && args
            == seq!["path"@, "Win32_SerialPort"@, "get"@, "DeviceID"@],
        CONNECT_SECS == 3,
{
}

} // verus!
