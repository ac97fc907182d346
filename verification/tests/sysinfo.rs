use conectdesk_agent::command::Platform;
use conectdesk_agent::json::Json;
use conectdesk_agent::sysinfo::{
    collect_sysinfo, report_sysinfo, Collected, Machine, SysinfoOutputs,
};

fn json(text: &str) -> Json {
    Json::parse(text.as_bytes()).unwrap()
}

fn text(s: &str) -> Json {
    Json::Text(s.to_string())
}

fn object(fields: Vec<(&str, Json)>) -> Json {
    Json::Object(fields.into_iter().map(|(k, v)| (k.to_string(), v)).collect())
}

fn machine() -> Machine {
    Machine {
        hostname: "pc1".to_string(),
        os: "windows".to_string(),
        os_version: Some("10".to_string()),
        uptime: 77,
        cores: 4,
        brand: Some("Intel".to_string()),
        total_memory: 8 * 1073741824,
        used_memory: 2 * 1073741824,
    }
}

#[test]
fn report_out_of_what_was_collected() {
    let collected = Collected {
        mac: "00:11".to_string(),
        ip: "10.0.0.1".to_string(),
        disks: json("[1]"),
        services: json("[2]"),
        processes: json("[3]"),
        processes_cpu: json("[4]"),
    };
    let wanted = object(vec![
        (
            "sistema",
            object(vec![
                ("hostname", text("pc1")),
                ("os", text("windows")),
                ("osVersion", text("10")),
                ("uptimeSec", Json::Unsigned(77)),
            ]),
        ),
        (
            "hardware",
            object(vec![
                ("cpu", object(vec![("cores", Json::Unsigned(4)), ("brand", text("Intel"))])),
                ("mem", object(vec![("totalGB", Json::Unsigned(8)), ("usedPct", Json::Unsigned(25))])),
                ("disks", json("[1]")),
            ]),
        ),
        ("rede", object(vec![("mac", text("00:11")), ("ip", text("10.0.0.1"))])),
        (
            "software",
            object(vec![
                ("services", json("[2]")),
                ("processes", json("[3]")),
                ("processesCpu", json("[4]")),
            ]),
        ),
    ]);
    assert_eq!(report_sysinfo(machine(), collected), wanted);
}

#[test]
fn what_is_not_known_is_empty() {
    let bare = Machine { os_version: None, brand: None, uptime: u64::MAX, total_memory: 0, ..machine() };
    let outputs = SysinfoOutputs {
        disks: None,
        ifaces: None,
        services: None,
        processes: None,
        processes_cpu: None,
    };
    let report = collect_sysinfo(Platform::Windows, bare, &outputs).unwrap();
    let system = report.get("sistema").unwrap();
    assert_eq!(system.get("osVersion"), Some(&text("")));
    assert_eq!(system.get("uptimeSec"), Some(&Json::Negative(-1)));
    let hardware = report.get("hardware").unwrap();
    assert_eq!(hardware.get("cpu").unwrap().get("brand"), Some(&text("")));
    assert_eq!(hardware.get("mem").unwrap().get("usedPct"), Some(&Json::Unsigned(0)));
    assert_eq!(hardware.get("disks"), Some(&json("[]")));
    assert_eq!(report.get("rede").unwrap().text_field("mac"), "");
}

fn outputs() -> SysinfoOutputs {
    SysinfoOutputs {
        disks: Some(b"h\r\nPC,C:,0,1073741824\r\n".to_vec()),
        ifaces: Some(b"Physical Address : 00-11-22-33-44-55\r\nIPv4 : 10.0.0.1(Preferred)".to_vec()),
        services: Some(b"[{\"Name\":\"s\",\"Status\":4}]".to_vec()),
        processes: Some(b"\"a.exe\",\"1\",\"C\",\"1\",\"2.048 K\"".to_vec()),
        processes_cpu: Some(b"[5]".to_vec()),
    }
}

#[test]
fn report_out_of_what_programs_wrote() {
    let report = collect_sysinfo(Platform::Windows, machine(), &outputs()).unwrap();
    let hardware = report.get("hardware").unwrap();
    let disks = object(vec![
        ("mount", text("C:")),
        ("totalGB", Json::Unsigned(1)),
        ("usedPct", Json::Unsigned(100)),
    ]);
    assert_eq!(hardware.get("disks"), Some(&Json::Array(vec![disks])));
    let net = report.get("rede").unwrap();
    assert_eq!(net.text_field("mac"), "00:11:22:33:44:55");
    assert_eq!(net.text_field("ip"), "10.0.0.1");
    let software = report.get("software").unwrap();
    let service = object(vec![("name", text("s")), ("display", text("")), ("running", Json::Bool(true))]);
    assert_eq!(software.get("services"), Some(&Json::Array(vec![service])));
    let process = object(vec![("name", text("a.exe")), ("memMB", Json::Unsigned(2))]);
    assert_eq!(software.get("processes"), Some(&Json::Array(vec![process])));
    assert_eq!(software.get("processesCpu"), Some(&json("[5]")));
}

#[test]
fn other_platforms_report_no_programs() {
    let report = collect_sysinfo(Platform::Other, machine(), &outputs()).unwrap();
    assert_eq!(report.get("hardware").unwrap().get("disks"), Some(&json("[]")));
    assert_eq!(report.get("software").unwrap().get("processesCpu"), Some(&json("[]")));
    assert_eq!(report.get("rede").unwrap().text_field("ip"), "");
}

#[test]
fn report_that_cannot_be_counted() {
    let large = SysinfoOutputs {
        processes: Some(
            b"\"a\",\"1\",\"C\",\"1\",\"18446744073709551615 K\"\n\"a\",\"1\",\"C\",\"1\",\"1 K\"".to_vec(),
        ),
        ..outputs()
    };
    assert_eq!(collect_sysinfo(Platform::Windows, machine(), &large), None);
}
