use conectdesk_agent::command::{Platform, Step};
use conectdesk_agent::json::Json;
use conectdesk_agent::watchdog::{
    alive_by_text, alive_query, allowed_path, attempt_restart, check_alive, run_watchdog, watch_decision,
    parts_of, watch_items, watchdog_exec_allowed, PathFacts, Restart,
    SystemDirs, WatchItem,
};

fn run(program: &str, args: &[&str]) -> Step {
    Step::Run {
        program: program.to_string(),
        args: args.iter().map(|s| s.to_string()).collect(),
    }
}

fn spawn(program: &str) -> Step {
    Step::Spawn { program: program.to_string(), args: vec![] }
}

fn no_dirs() -> SystemDirs {
    SystemDirs { program_files: None, program_files_x86: None, system_root: None }
}

const THERE: PathFacts = PathFacts { absolute: true, is_file: true };

fn item(kind: &str, auto_restart: bool) -> WatchItem {
    WatchItem {
        id: "7".to_string(),
        kind: kind.to_string(),
        name: "pdv.exe".to_string(),
        auto_restart,
        exec_path: "C:\\Program Files\\PDV\\pdv.exe".to_string(),
    }
}

#[test]
fn programs_that_are_asked() {
    assert_eq!(
        alive_query(Platform::Windows, "service", "Spooler"),
        Some(run("sc.exe", &["query", "Spooler"]))
    );
    assert_eq!(
        alive_query(Platform::Windows, "process", "a.exe"),
        Some(run("tasklist", &["/NH", "/FI", "IMAGENAME eq a.exe"]))
    );
    assert_eq!(alive_query(Platform::Windows, "task", "a"), None);
    assert_eq!(alive_query(Platform::Other, "service", "a"), None);
}

#[test]
fn services_that_run() {
    let state = b"        STATE : 4  RUNNING\r\n";
    assert!(check_alive(Platform::Windows, "service", "x", Some(state)));
    assert!(!check_alive(Platform::Windows, "service", "x", Some(b"STATE : 1  STOPPED")));
    assert!(!check_alive(Platform::Windows, "service", "x", Some(b"running")));
    assert!(!check_alive(Platform::Windows, "service", "x", None));
    assert!(check_alive(Platform::Windows, "service", "x", Some(b"\xffRUNNING")));
}

#[test]
fn processes_that_run() {
    let list = "PDV.EXE     1234 Console    1    10.000 K";
    assert!(check_alive(Platform::Windows, "process", "pdv.exe", Some(list.as_bytes())));
    assert!(!check_alive(Platform::Windows, "process", "other.exe", Some(list.as_bytes())));
    assert!(!check_alive(Platform::Windows, "process", "pdv.exe", None));
    assert!(alive_by_text(Platform::Windows, "process", "ÇÃO.exe", Some("ção.EXE 1")));
    assert!(!check_alive(Platform::Windows, "task", "pdv.exe", Some(list.as_bytes())));
}

#[test]
fn elsewhere_everything_runs() {
    assert!(check_alive(Platform::Other, "service", "x", None));
    assert!(check_alive(Platform::Other, "task", "x", Some(b"")));
}

#[test]
fn programs_under_protected_directories() {
    let dirs = no_dirs();
    for good in [
        "C:\\Program Files\\A\\a.exe",
        "c:\\program files (x86)\\a.EXE",
        "C:\\WINDOWS\\System32\\x.exe",
        "C:\\ProgramData\\ConectDesk\\x.exe",
    ] {
        assert!(watchdog_exec_allowed(good, THERE, &dirs), "{}", good);
    }
    for bad in [
        "C:\\Users\\a\\Downloads\\x.exe",
        "C:\\Temp\\x.exe",
        "C:\\Program Files\\A\\a.bat",
        "C:\\Program Files\\A\\a.exe\" & calc.exe",
        "C:\\Program Files\\a&b.exe",
        "C:\\Program Files\\a|b.exe",
        "C:\\Program Files\\a>b.exe",
        "C:\\Program Files\\a<b.exe",
        "D:\\Program Files\\a.exe",
        "C:\\WindowsX\\p.exe",
        "C:\\Program FilesX\\p.exe",
        "C:\\ProgramData\\ConectDeskX\\p.exe",
        "C:\\Windows.exe",
    ] {
        assert!(!watchdog_exec_allowed(bad, THERE, &dirs), "{}", bad);
    }
}

#[test]
fn paths_are_resolved() {
    let dirs = no_dirs();
    for bad in [
        "C:\\Windows\\..\\Users\\p.exe",
        "C:\\Windows\\..\\Tools\\p.exe",
        "C:/Windows/../Tools/p.exe",
        "C:\\Windows\\.. \\Tools\\p.exe",
        "C:\\Windows\\a\\..\\..\\p.exe",
        "C:\\Windows\\a\\..\\Temp\\p.exe",
        "C:\\Windows\\Temp.\\p.exe",
        "C:\\Windows\\Temp \\p.exe",
        "\\\\C:\\Windows\\p.exe",
    ] {
        assert!(!watchdog_exec_allowed(bad, THERE, &dirs), "{}", bad);
    }
    for good in [
        "C:/Windows/p.exe",
        "C:\\Windows\\.\\p.exe",
        "C:\\Windows\\\\a\\p.exe",
        "C:\\Windows\\a\\..\\b.exe",
        "C:\\Tools\\..\\Windows\\b.exe",
        "C:\\..\\Windows\\b.exe",
        "C:\\Windows\\Temp\\..\\b.exe",
        "C:\\Windows.\\a \\b.exe",
        "C:\\Windows\\...\\b.exe",
    ] {
        assert!(watchdog_exec_allowed(good, THERE, &dirs), "{}", good);
    }
}

#[test]
fn directories_that_others_write_to() {
    let dirs = no_dirs();
    for bad in [
        "C:\\Windows\\Temp\\evil.exe",
        "C:\\Windows\\TEMP\\a\\evil.exe",
        "C:\\Program Files\\x\\Downloads\\evil.exe",
        "C:\\Windows\\System32\\config\\systemprofile\\evil.exe",
        "C:\\Windows\\ServiceProfiles\\LocalService\\evil.exe",
    ] {
        assert!(!watchdog_exec_allowed(bad, THERE, &dirs), "{}", bad);
    }
    for good in [
        "C:\\Windows\\temp.exe",
        "C:\\Program Files\\Template\\a.exe",
        "C:\\Program Files\\App\\Users\\a.exe",
        "C:\\Program Files\\App\\ServiceProfiles\\a.exe",
        "C:\\Program Files\\App\\systemprofile\\a.exe",
        "C:\\ProgramData\\ConectDesk\\users\\a.exe",
    ] {
        assert!(watchdog_exec_allowed(good, THERE, &dirs), "{}", good);
    }
}

#[test]
fn profiles_below_a_wide_directory() {
    let dirs = SystemDirs {
        program_files: Some("D:\\".to_string()),
        program_files_x86: None,
        system_root: Some("D:\\WIN".to_string()),
    };
    assert!(watchdog_exec_allowed("D:\\Apps\\a.exe", THERE, &dirs));
    assert!(!watchdog_exec_allowed("D:\\Users\\ana\\a.exe", THERE, &dirs));
    assert!(!watchdog_exec_allowed("D:\\WIN\\ServiceProfiles\\x\\a.exe", THERE, &dirs));
}

#[test]
fn empty_directory_protects_nothing() {
    let empty = || Some(String::new());
    let dirs =
        SystemDirs { program_files: empty(), program_files_x86: empty(), system_root: empty() };
    for bad in ["C:\\Users\\p.exe", "C:\\Windows\\p.exe", "\\\\server\\share\\p.exe"] {
        assert!(!watchdog_exec_allowed(bad, THERE, &dirs), "{}", bad);
    }
}

#[test]
fn components_of_paths() {
    assert_eq!(parts_of("c:\\a/b\\\\.\\c.exe"), vec!["c:", "a", "b", "c.exe"]);
    assert_eq!(parts_of("\\\\s\\x"), vec!["", "s", "x"]);
    assert_eq!(parts_of("c:\\windows\\"), vec!["c:", "windows"]);
    assert_eq!(parts_of(""), vec![""]);
    assert_eq!(parts_of("c:\\a\\..\\..\\b. .\\"), vec!["c:", "b"]);
    let roots = vec!["c:\\windows\\".to_string()];
    let none = vec![];
    let path = "C:\\Windows\\x\\p.exe";
    let lower = "c:\\windows\\x\\p.exe";
    assert!(allowed_path(path, lower, THERE, &roots, &none));
    assert!(!allowed_path(path, lower, THERE, &none, &none));
    assert!(!allowed_path(path, lower, THERE, &roots, &vec!["c:\\windows\\x".to_string()]));
}

#[test]
fn programs_that_are_not_there() {
    let path = "C:\\Program Files\\A\\a.exe";
    let facts = PathFacts { absolute: true, is_file: false };
    assert!(!watchdog_exec_allowed(path, facts, &no_dirs()));
    let facts = PathFacts { absolute: false, is_file: true };
    assert!(!watchdog_exec_allowed(path, facts, &no_dirs()));
}

#[test]
fn directories_of_the_environment() {
    let dirs = SystemDirs {
        program_files: Some("D:\\Programas".to_string()),
        program_files_x86: Some("D:\\X86".to_string()),
        system_root: Some("D:\\WIN".to_string()),
    };
    assert!(watchdog_exec_allowed("d:\\programas\\a.exe", THERE, &dirs));
    assert!(watchdog_exec_allowed("D:\\x86\\a.exe", THERE, &dirs));
    assert!(watchdog_exec_allowed("D:\\win\\a.exe", THERE, &dirs));
    assert!(!watchdog_exec_allowed("C:\\Program Files\\a.exe", THERE, &dirs));
    assert!(watchdog_exec_allowed("C:\\ProgramData\\ConectDesk\\a.exe", THERE, &dirs));
}

#[test]
fn starting_again() {
    let path = "C:\\Windows\\a.exe";
    let dirs = no_dirs();
    let on_windows =
        |kind: &str, path: &str| attempt_restart(Platform::Windows, kind, "X", path, THERE, &dirs);
    assert_eq!(on_windows("service", ""), Restart::Take { step: run("sc.exe", &["start", "X"]) });
    assert_eq!(on_windows("process", path), Restart::Take { step: spawn(path) });
    assert_eq!(on_windows("process", ""), Restart::Nothing);
    assert_eq!(on_windows("process", "C:\\Temp\\a.exe"), Restart::Refused);
    assert_eq!(on_windows("task", path), Restart::Nothing);
    assert_eq!(
        attempt_restart(Platform::Other, "service", "X", "", THERE, &dirs),
        Restart::Nothing
    );
}

#[test]
fn list_of_the_panel() {
    let reply = Json::parse(
        b"{\"items\":[{\"id\":\"7\",\"kind\":\"process\",\"name\":\"pdv.exe\",\"auto_restart\":1,\"exec_path\":\"C:\\\\Program Files\\\\PDV\\\\pdv.exe\"},{\"auto_restart\":true},{\"auto_restart\":2}]}",
    )
    .unwrap();
    let empty = || WatchItem {
        id: String::new(),
        kind: String::new(),
        name: String::new(),
        auto_restart: false,
        exec_path: String::new(),
    };
    assert_eq!(watch_items(&reply), Some(vec![item("process", true), empty(), empty()]));
    assert_eq!(watch_items(&Json::parse(b"{\"items\":{}}").unwrap()), None);
    assert_eq!(watch_items(&Json::Null), None);
}

fn status_of(request: &conectdesk_agent::api::Request) -> String {
    request.body.as_ref().unwrap().text_field("status")
}

#[test]
fn stopped_program_is_started_and_reported() {
    let dirs = no_dirs();
    let (step, report) =
        run_watchdog(Platform::Windows, &item("process", true), Some(b"INFO: No tasks"), THERE, &dirs, "https://p", "tok");
    assert_eq!(step, Restart::Take { step: spawn("C:\\Program Files\\PDV\\pdv.exe") });
    assert_eq!(report.url, "https://p/api/agents/me/watchdog/report");
    assert_eq!(
        report.body,
        Some(Json::Object(vec![
            ("id".to_string(), Json::Text("7".to_string())),
            ("status".to_string(), Json::Text("stopped".to_string())),
        ]))
    );
}

#[test]
fn running_program_is_left_alone() {
    let dirs = no_dirs();
    let (step, report) =
        run_watchdog(Platform::Windows, &item("process", true), Some(b"pdv.exe 12"), THERE, &dirs, "https://p", "tok");
    assert_eq!(step, Restart::Nothing);
    assert_eq!(status_of(&report), "running");
}

#[test]
fn stopped_program_without_restart_is_reported() {
    let dirs = no_dirs();
    let (step, report) =
        watch_decision(Platform::Windows, &item("process", false), false, THERE, &dirs, "https://p", "tok");
    assert_eq!(step, Restart::Nothing);
    assert_eq!(status_of(&report), "stopped");
}
