use conectdesk_agent::command::{Platform, Step};
use conectdesk_agent::inventory::{
    as_array, collect_processes_cpu, collect_services, first_iface, iface_in, ifaces_query,
    memory_percent, processes_cpu_query, ps_json, read_json, report_processes_cpu,
    report_services, services_query,
    PROCESSES_CPU_SCRIPT, SERVICES_SCRIPT,
};
use conectdesk_agent::json::Json;

fn json(text: &str) -> Json {
    Json::parse(text.as_bytes()).unwrap()
}

fn run(program: &str, args: &[&str]) -> Step {
    Step::Run {
        program: program.to_string(),
        args: args.iter().map(|s| s.to_string()).collect(),
    }
}

fn service(name: &str, display: &str, running: bool) -> Json {
    Json::Object(vec![
        ("name".to_string(), Json::Text(name.to_string())),
        ("display".to_string(), Json::Text(display.to_string())),
        ("running".to_string(), Json::Bool(running)),
    ])
}

#[test]
fn json_that_a_script_wrote() {
    assert_eq!(read_json(Some(b"\r\n [1] \r\n")), Some(Json::Array(vec![Json::Unsigned(1)])));
    assert_eq!(read_json(Some("\u{a0}2\u{3000}".as_bytes())), Some(Json::Unsigned(2)));
    assert_eq!(read_json(Some(b"")), None);
    assert_eq!(read_json(Some(b"error")), None);
    assert_eq!(read_json(None), None);
    assert_eq!(read_json(Some(b"\"\xff\"")), Some(Json::Text("\u{fffd}".to_string())));
    assert_eq!(ps_json(Some(b"oops")), Json::Null);
    assert_eq!(ps_json(None), Json::Null);
    assert_eq!(ps_json(Some(b"3")), Json::Unsigned(3));
}

#[test]
fn values_as_lists() {
    assert_eq!(as_array(Json::Null), json("[]"));
    assert_eq!(as_array(json("[1,2]")), json("[1,2]"));
    assert_eq!(as_array(json("{\"a\":1}")), json("[{\"a\":1}]"));
    assert_eq!(as_array(json("false")), json("[false]"));
}

#[test]
fn services_of_the_machine() {
    let output = "[{\"Name\":\"a\",\"DisplayName\":\"A\",\"Status\":4},{\"Name\":\"b\",\"Status\":1},{\"Status\":\"4\"}]\r\n";
    assert_eq!(
        collect_services(Platform::Windows, Some(output.as_bytes())),
        Json::Array(vec![service("a", "A", true), service("b", "", false), service("", "", false)])
    );
    let one = "{\"Name\":\"a\",\"DisplayName\":\"A\",\"Status\":4}";
    assert_eq!(
        collect_services(Platform::Windows, Some(one.as_bytes())),
        Json::Array(vec![service("a", "A", true)])
    );
    assert_eq!(collect_services(Platform::Windows, Some(b"x")), json("[]"));
    assert_eq!(collect_services(Platform::Windows, None), json("[]"));
    assert_eq!(collect_services(Platform::Other, Some(one.as_bytes())), json("[]"));
    assert_eq!(report_services(&Json::Null), Json::Array(vec![service("", "", false)]));
}

#[test]
fn services_up_to_the_limit() {
    let items: Vec<Json> = (0..200)
        .map(|i| Json::Object(vec![("Name".to_string(), Json::Text(i.to_string()))]))
        .collect();
    let report = report_services(&Json::Array(items));
    let reports = report.as_array().unwrap();
    assert_eq!(reports.len(), 120);
    assert_eq!(reports[119], service("119", "", false));
}

#[test]
fn processes_by_processor_time() {
    let output = b"[{\"Name\":\"a\",\"cpuSec\":9,\"memMB\":3}]";
    assert_eq!(
        collect_processes_cpu(Platform::Windows, Some(output)),
        json("[{\"Name\":\"a\",\"cpuSec\":9,\"memMB\":3}]")
    );
    assert_eq!(collect_processes_cpu(Platform::Windows, Some(b"{\"Name\":\"a\"}")), json("[{\"Name\":\"a\"}]"));
    assert_eq!(collect_processes_cpu(Platform::Windows, Some(b"null")), json("[null]"));
    assert_eq!(collect_processes_cpu(Platform::Windows, Some(b"")), json("[]"));
    assert_eq!(collect_processes_cpu(Platform::Windows, None), json("[]"));
    assert_eq!(collect_processes_cpu(Platform::Other, Some(output)), json("[]"));
    assert_eq!(report_processes_cpu(json("[1,2]")), json("[1,2]"));
    assert_eq!(report_processes_cpu(json("7")), json("[7]"));
}

#[test]
fn programs_of_the_inventory() {
    assert_eq!(services_query(), run("powershell.exe", &["-NoProfile", "-Command", SERVICES_SCRIPT]));
    assert_eq!(
        processes_cpu_query(),
        run("powershell.exe", &["-NoProfile", "-Command", PROCESSES_CPU_SCRIPT])
    );
    assert_eq!(ifaces_query(), run("ipconfig", &["/all"]));
}

#[test]
fn share_of_memory() {
    assert_eq!(memory_percent(0, 0), 0);
    assert_eq!(memory_percent(5, 0), 0);
    assert_eq!(memory_percent(1, 3), 33);
    assert_eq!(memory_percent(8, 8), 100);
    assert_eq!(memory_percent(2, 1), 200);
    assert_eq!(memory_percent(0x1_0000_0000, 1), 0);
    assert_eq!(memory_percent(u64::MAX, u64::MAX), 100);
}

#[test]
fn first_interface_in_english() {
    let text = "Ethernet adapter:\r\n   Physical Address. . . : 00-1A-2B-3C-4D-5E\r\n   IPv4 Address. . . . . : 192.168.0.10(Preferred) \r\n\r\nWi-Fi:\r\n   Physical Address. . . : FF-FF-FF-FF-FF-FF\r\n   IPv4 Address. . . . . : 10.0.0.1(Preferred) \r\n";
    assert_eq!(
        first_iface(Platform::Windows, Some(text.as_bytes())),
        ("00:1A:2B:3C:4D:5E".to_string(), "192.168.0.10".to_string())
    );
}

#[test]
fn first_interface_in_portuguese() {
    let text = "   Endereço Físico . . . : 00-1A-2B-3C-4D-5E\n   Endereço IPv4. . . . : 192.168.0.10(Preferencial)\n";
    assert_eq!(
        iface_in(text),
        ("00:1A:2B:3C:4D:5E".to_string(), "192.168.0.10".to_string())
    );
}

#[test]
fn addresses_of_one_interface() {
    let text = "Ethernet adapter A:\r\n   Media State . . . : Media disconnected\r\n   Physical Address. . . : AA-AA-AA-AA-AA-AA\r\nEthernet adapter B:\r\n   Physical Address. . . : BB-BB-BB-BB-BB-BB\r\n   IPv4 Address. . . : 10.0.0.5(Preferred)\r\n";
    assert_eq!(
        first_iface(Platform::Windows, Some(text.as_bytes())),
        ("BB:BB:BB:BB:BB:BB".to_string(), "10.0.0.5".to_string())
    );
    let tunnel = "Windows IP Configuration\r\n\r\n   Host Name . . : pc1\r\n\r\nTunnel adapter T (x: y):\r\n\r\n   IPv4 Address : 1.1.1.1\r\n\r\nEthernet adapter E:\r\n\r\n   Physical Address : 00-11-22-33-44-55\r\n   DHCP Enabled : Yes\r\n   IPv4 Address : 2.2.2.2\r\n";
    assert_eq!(iface_in(tunnel), ("00:11:22:33:44:55".to_string(), "2.2.2.2".to_string()));
}

#[test]
fn interfaces_without_both_addresses() {
    let only_mac = "A:\n  Physical Address : 00-11-22-33-44-55\nB:\n  IPv4 : 1.2.3.4\n";
    assert_eq!(iface_in(only_mac), ("00:11:22:33:44:55".to_string(), String::new()));
    let only_ip = "A:\n  IPv4 : 1.2.3.4\nB:\n  IPv4 : 5.6.7.8\n";
    assert_eq!(iface_in(only_ip), (String::new(), "1.2.3.4".to_string()));
    assert_eq!(iface_in(""), (String::new(), String::new()));
}

#[test]
fn lines_that_are_passed_over() {
    let lines = " Physical Address : 00-1A\n Physical Address : 00-00-00-00-00-00-00-E0\n Physical Address\n IPv4 Address\n IPv4 : (Preferred)\n x IPv4 : 9.9.9.9\n IPv4 : 1.2.3.4\n IPv4 : 5.6.7.8";
    assert_eq!(
        iface_in(lines),
        ("00:00:00:00:00:00:00:E0".to_string(), "1.2.3.4".to_string())
    );
    let both = "Physical Address : 00-11-22-33-44-55\nIPv4 Physical Address : 1.2.3.4\nIPv4 : 5.6.7.8";
    assert_eq!(iface_in(both), ("00:11:22:33:44:55".to_string(), "5.6.7.8".to_string()));
    assert_eq!(first_iface(Platform::Windows, None), (String::new(), String::new()));
    assert_eq!(first_iface(Platform::Other, Some(both.as_bytes())), (String::new(), String::new()));
}
