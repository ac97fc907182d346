use conectdesk_agent::command::{Platform, Step};
use conectdesk_agent::health::{
    api_host, collect_health_blocks, collect_network_quality, reading_query, report_health,
    HealthOutputs, Reading, Readings, DEFENDER_SCRIPT, DISKS_SCRIPT, DISK_LATENCY_SCRIPT,
    EVENTS_SCRIPT, FIREWALL_SCRIPT, LAST_UPDATE_SCRIPT, LICENSED_SCRIPT, PRINTERS_SCRIPT, UPS_SCRIPT,
};
use conectdesk_agent::json::Json;

fn json(text: &str) -> Json {
    Json::parse(text.as_bytes()).unwrap()
}

fn quiet(script: &str) -> Step {
    Step::Run {
        program: "powershell.exe".to_string(),
        args: ["-NoProfile", "-NonInteractive", "-Command", script]
            .iter()
            .map(|s| s.to_string())
            .collect(),
    }
}

fn object(fields: Vec<(&str, Json)>) -> Json {
    Json::Object(fields.into_iter().map(|(k, v)| (k.to_string(), v)).collect())
}

#[test]
fn each_reading_has_its_script() {
    let table = [
        (Reading::Disks, DISKS_SCRIPT),
        (Reading::Ups, UPS_SCRIPT),
        (Reading::Events, EVENTS_SCRIPT),
        (Reading::LastUpdate, LAST_UPDATE_SCRIPT),
        (Reading::Defender, DEFENDER_SCRIPT),
        (Reading::Firewall, FIREWALL_SCRIPT),
        (Reading::Licensed, LICENSED_SCRIPT),
        (Reading::Printers, PRINTERS_SCRIPT),
        (Reading::DiskLatency, DISK_LATENCY_SCRIPT),
    ];
    for (reading, script) in table {
        assert_eq!(reading_query(reading), quiet(script));
    }
    assert!(EVENTS_SCRIPT.contains("-replace '\\s+',' '"));
    assert!(LICENSED_SCRIPT.contains("\"Name like 'Windows%25' AND"));
}

#[test]
fn host_of_the_panel() {
    assert_eq!(api_host("https://p.example:8443/x/y"), "p.example");
    assert_eq!(api_host("http://p.example"), "p.example");
    assert_eq!(api_host("http://p.example/a:b"), "p.example");
    assert_eq!(api_host("p.example"), "");
    assert_eq!(api_host("https://"), "");
    assert_eq!(api_host("a://b://c"), "b");
}

#[test]
fn link_to_the_panel() {
    let script = "try { $r = Test-Connection -ComputerName 'p.example' -Count 4 -ErrorAction Stop; [pscustomobject]@{ avgMs=[math]::Round(($r | Measure-Object ResponseTime -Average).Average); loss=0 } | ConvertTo-Json -Compress } catch { '{\"avgMs\":null,\"loss\":100}' }";
    assert_eq!(
        collect_network_quality(Platform::Windows, Some("https://p.example:1")),
        Some(quiet(script))
    );
    assert_eq!(collect_network_quality(Platform::Windows, Some("p.example")), None);
    assert_eq!(collect_network_quality(Platform::Windows, None), None);
    assert_eq!(collect_network_quality(Platform::Other, Some("https://p.example")), None);
}

fn outputs() -> HealthOutputs {
    HealthOutputs {
        disks: Some(b"{\"a\":1}\r\n".to_vec()),
        ups: Some(b"{\"BatteryStatus\":2}".to_vec()),
        events: Some(b"[]".to_vec()),
        last_update: Some(b"\"2026-06-01\"".to_vec()),
        defender: Some(b"null".to_vec()),
        firewall: Some(b"[{\"Name\":\"Domain\"}]".to_vec()),
        licensed: Some(b"1".to_vec()),
        printers: None,
        network: Some(b"{\"avgMs\":12,\"loss\":0}".to_vec()),
        disk_latency: Some(b"oops".to_vec()),
    }
}

#[test]
fn readings_of_the_machine() {
    let wanted = object(vec![
        (
            "health",
            object(vec![
                ("disks", json("[{\"a\":1}]")),
                ("ups", json("{\"BatteryStatus\":2}")),
                ("events", json("[]")),
                ("diskLatencyMs", Json::Null),
            ]),
        ),
        (
            "security",
            object(vec![
                ("lastWindowsUpdate", json("\"2026-06-01\"")),
                ("defender", Json::Null),
                ("firewall", json("[{\"Name\":\"Domain\"}]")),
                ("windowsLicensed", json("1")),
            ]),
        ),
        ("redeQualidade", json("{\"avgMs\":12,\"loss\":0}")),
        ("peripherals", object(vec![("printers", json("[]"))])),
    ]);
    assert_eq!(collect_health_blocks(Platform::Windows, &outputs()), wanted);
}

#[test]
fn other_platforms_have_no_readings() {
    assert_eq!(collect_health_blocks(Platform::Other, &outputs()), json("{}"));
}

#[test]
fn failed_readings_are_null_or_empty() {
    let nothing = || Json::Null;
    let report = report_health(
        Platform::Windows,
        Readings {
            disks: nothing(),
            ups: nothing(),
            events: nothing(),
            last_update: nothing(),
            defender: nothing(),
            firewall: nothing(),
            licensed: nothing(),
            printers: nothing(),
            network: nothing(),
            disk_latency: nothing(),
        },
    );
    let health = report.get("health").unwrap();
    assert_eq!(health.get("disks"), Some(&json("[]")));
    assert_eq!(health.get("ups"), Some(&Json::Null));
    assert_eq!(report.get("redeQualidade"), Some(&Json::Null));
}
