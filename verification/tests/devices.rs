use conectdesk_agent::command::{Platform, Step};
use conectdesk_agent::devices::{
    device_report, on_connection, on_ports, port_listed, port_status_by_text, ports_query,
    probe_devices, probe_serial, probe_tcp, Device, Probe, CONNECT_SECS,
};
use conectdesk_agent::json::Json;

fn json(text: &str) -> Json {
    Json::parse(text.as_bytes()).unwrap()
}

fn settled(status: &str) -> Probe {
    Probe::Settled { status: status.to_string() }
}

fn connect(address: &str) -> Probe {
    Probe::Connect { address: address.to_string() }
}

#[test]
fn devices_on_the_network() {
    assert_eq!(probe_tcp(&json("{\"ip\":\"10.0.0.5\",\"port\":80}")), connect("10.0.0.5:80"));
    assert_eq!(probe_tcp(&json("{\"ip\":\"10.0.0.5\"}")), connect("10.0.0.5:9999"));
    assert_eq!(probe_tcp(&json("{\"ip\":\"h\",\"port\":\"80\"}")), connect("h:9999"));
    assert_eq!(probe_tcp(&json("{\"ip\":\"h\",\"port\":65537}")), connect("h:1"));
    assert_eq!(probe_tcp(&json("{\"ip\":\"h\",\"port\":-1}")), connect("h:9999"));
    assert_eq!(probe_tcp(&json("{\"ip\":\"\",\"port\":80}")), settled("down"));
    assert_eq!(probe_tcp(&json("{}")), settled("down"));
    assert_eq!(CONNECT_SECS, 3);
}

#[test]
fn devices_on_serial_ports() {
    let config = json("{\"com\":\"COM3\"}");
    assert_eq!(
        probe_serial(Platform::Windows, &config),
        Probe::Serial { port: "COM3".to_string() }
    );
    assert_eq!(probe_serial(Platform::Windows, &json("{}")), settled("down"));
    assert_eq!(probe_serial(Platform::Other, &config), settled("unknown"));
    assert_eq!(
        ports_query(),
        Step::Run {
            program: "wmic".to_string(),
            args: ["path", "Win32_SerialPort", "get", "DeviceID"].iter().map(|s| s.to_string()).collect(),
        }
    );
}

#[test]
fn time_of_a_connection() {
    assert_eq!(on_connection(Some(0)), ("ok".to_string(), Some(0)));
    assert_eq!(on_connection(Some(200)), ("ok".to_string(), Some(200)));
    assert_eq!(on_connection(Some(201)), ("slow".to_string(), Some(201)));
    assert_eq!(on_connection(Some(0x1_0000_0005)), ("ok".to_string(), Some(5)));
    assert_eq!(on_connection(None), ("down".to_string(), None));
}

#[test]
fn list_of_serial_ports() {
    let list = "DeviceID  \r\nCOM1  \r\nCOM3  \r\n";
    assert_eq!(on_ports("com3", Some(list.as_bytes())), "ok");
    assert_eq!(on_ports("COM2", Some(list.as_bytes())), "down");
    assert_eq!(on_ports("COM3", None), "down");
    assert_eq!(on_ports("COM1", Some(b"DeviceID\r\nCOM10\r\n")), "down");
    assert_eq!(on_ports("COM10", Some(b"DeviceID\r\r\nCOM10  \r\r\n")), "ok");
    assert_eq!(on_ports("OM1", Some(list.as_bytes())), "down");
    assert!(port_listed("A\n  COM1\t\n", "COM1"));
    assert!(!port_listed("COM1 COM2", "COM1"));
    assert_eq!(on_ports(" COM1 ", Some(list.as_bytes())), "ok");
    assert_eq!(on_ports("DeviceID", Some(list.as_bytes())), "down");
    assert_eq!(on_ports("  ", Some(b"DeviceID\r\n\r\n")), "down");
    assert_eq!(port_status_by_text("ß", Some("SS")), "ok");
}

#[test]
fn devices_in_the_reply() {
    let reply = json(
        "{\"devices\":[{\"id\":\"1\",\"kind\":\"tcp\",\"config\":{\"ip\":\"h\",\"port\":1}},{\"id\":\"2\",\"kind\":\"serial\",\"config\":{\"com\":\"COM1\"}},{\"id\":\"3\",\"kind\":\"usb\"},{\"kind\":\"tcp\"}]}",
    );
    let device = |id: &str, probe: Probe| Device { id: id.to_string(), probe };
    assert_eq!(
        probe_devices(Platform::Windows, &reply),
        Some(vec![
            device("1", connect("h:1")),
            device("2", Probe::Serial { port: "COM1".to_string() }),
            device("3", settled("unknown")),
            device("", settled("down")),
        ])
    );
    assert_eq!(probe_devices(Platform::Windows, &json("{\"devices\":null}")), None);
}

#[test]
fn reports_on_devices() {
    let report = device_report("https://p", "tok", "1", "slow", Some(201));
    assert_eq!(report.url, "https://p/api/agents/me/devices/report");
    assert_eq!(
        report.body,
        Some(Json::Object(vec![
            ("id".to_string(), Json::Text("1".to_string())),
            ("status".to_string(), Json::Text("slow".to_string())),
            ("latencyMs".to_string(), Json::Unsigned(201)),
        ]))
    );
    let none = device_report("https://p", "tok", "1", "down", None);
    assert_eq!(none.body.unwrap().get("latencyMs"), Some(&Json::Null));
}
