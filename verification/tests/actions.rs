use conectdesk_agent::actions::{
    action_outcome, cleanup_entry, command_ack, exec_remote_action, remote_command, temp_dirs,
    ActionPlan, RemoteCommand, Removal, DEEP_CLEAN_SCRIPT, PRINT_CLEAR_SCRIPT, RESTART_AGENT_SCRIPT,
};
use conectdesk_agent::command::{Platform, Step};
use conectdesk_agent::json::Json;

fn strings(list: &[&str]) -> Vec<String> {
    list.iter().map(|s| s.to_string()).collect()
}

fn run(program: &str, args: &[&str]) -> Step {
    Step::Run { program: program.to_string(), args: strings(args) }
}

fn plan(action: &str, arg: &str) -> ActionPlan {
    exec_remote_action(Platform::Windows, action, arg)
}

fn done(steps: Vec<Step>, message: &str) -> ActionPlan {
    ActionPlan::Do { steps, message: message.to_string() }
}

fn tried(step: Step, done: &str, failed: &str) -> ActionPlan {
    ActionPlan::Try { step, done: done.to_string(), failed: failed.to_string() }
}

fn refused(message: &str) -> ActionPlan {
    ActionPlan::Refuse { message: message.to_string() }
}

#[test]
fn actions_without_arguments() {
    assert_eq!(plan("cancel_reboot", ""), done(vec![run("shutdown.exe", &["/a"])], "reboot cancelado"));
    assert_eq!(
        plan("print_clear", "ignored"),
        done(
            vec![run("powershell.exe", &["-NoProfile", "-Command", PRINT_CLEAR_SCRIPT])],
            "fila de impressão limpa + spooler reiniciado"
        )
    );
    assert_eq!(
        plan("windows_update", ""),
        done(vec![run("UsoClient.exe", &["StartInstall"])], "Windows Update disparado")
    );
    assert_eq!(plan("logoff", ""), done(vec![run("shutdown.exe", &["/l"])], "logoff solicitado"));
    assert_eq!(
        plan("lock", ""),
        done(
            vec![run("rundll32.exe", &["user32.dll,LockWorkStation"])],
            "bloqueio de tela solicitado"
        )
    );
    assert_eq!(
        plan("restart_agent", ""),
        done(
            vec![Step::Spawn {
                program: "powershell.exe".to_string(),
                args: strings(&["-NoProfile", "-Command", RESTART_AGENT_SCRIPT]),
            }],
            "agente ConectDesk reiniciando"
        )
    );
    assert_eq!(
        plan("flush_dns", ""),
        done(
            vec![run("ipconfig.exe", &["/flushdns"]), run("ipconfig.exe", &["/registerdns"])],
            "DNS limpo + registrado"
        )
    );
    assert_eq!(
        plan("deep_clean", ""),
        done(
            vec![run("powershell.exe", &["-NoProfile", "-Command", DEEP_CLEAN_SCRIPT])],
            "limpeza profunda concluída (temp, lixeira, cache de update, prefetch)"
        )
    );
    assert_eq!(
        plan("chkdsk", ""),
        done(vec![run("chkdsk.exe", &["C:", "/scan"])], "chkdsk (scan online) executado")
    );
    assert_eq!(plan("sfc", ""), done(vec![run("sfc.exe", &["/scannow"])], "sfc /scannow executado"));
    assert_eq!(plan("cleanup_temp", ""), ActionPlan::CleanTemp);
}

#[test]
fn scripts_are_one_line() {
    assert_eq!(
        PRINT_CLEAR_SCRIPT,
        "Stop-Service Spooler -Force -ErrorAction SilentlyContinue; Remove-Item \"$env:SystemRoot\\System32\\spool\\PRINTERS\\*\" -Force -ErrorAction SilentlyContinue; Start-Service Spooler -ErrorAction SilentlyContinue"
    );
    for script in [PRINT_CLEAR_SCRIPT, RESTART_AGENT_SCRIPT, DEEP_CLEAN_SCRIPT] {
        assert!(!script.contains('\n') && !script.contains("  "));
    }
}

#[test]
fn actions_whose_exit_status_decides() {
    assert_eq!(
        plan("reboot", ""),
        tried(
            run(
                "shutdown.exe",
                &["/r", "/t", "30", "/c", "ConectDesk: reinicio remoto solicitado pelo suporte"]
            ),
            "reboot agendado (30s)",
            "falha ao agendar reboot"
        )
    );
    assert_eq!(
        plan("shutdown", ""),
        tried(
            run(
                "shutdown.exe",
                &["/s", "/t", "30", "/c", "ConectDesk: desligamento solicitado pelo suporte"]
            ),
            "desligamento agendado (30s)",
            "falha ao desligar"
        )
    );
    assert_eq!(
        plan("kill_process", " Chrome.EXE\n"),
        tried(
            run("taskkill.exe", &["/F", "/IM", "Chrome.EXE"]),
            "Chrome.EXE encerrado",
            "falha ao encerrar Chrome.EXE"
        )
    );
}

#[test]
fn names_of_programs_are_checked() {
    for bad in ["", "  ", "chrome", "a b.exe", "a\".exe", "c:\\x.exe", "é.exe", "chrome.exe;", "*.exe"] {
        assert_eq!(plan("kill_process", bad), refused("nome de processo inválido"), "{}", bad);
    }
    for good in [".exe", "a-b_c.1.exe"] {
        assert!(matches!(plan("kill_process", good), ActionPlan::Try { .. }), "{}", good);
    }
}

#[test]
fn services() {
    assert_eq!(
        plan("service_start", " Spooler "),
        done(vec![run("sc.exe", &["start", "Spooler"])], "serviço Spooler iniciado")
    );
    assert_eq!(
        plan("service_stop", "a.b-c_1"),
        done(vec![run("sc.exe", &["stop", "a.b-c_1"])], "serviço a.b-c_1 parado")
    );
    assert_eq!(
        plan("service_restart", "X"),
        done(
            vec![run("sc.exe", &["stop", "X"]), Step::Pause { secs: 3 }, run("sc.exe", &["start", "X"])],
            "serviço X reiniciado"
        )
    );
    for action in ["service_start", "service_stop", "service_restart"] {
        for bad in ["", " \t", "a b", "a\"", "serviço", "a&b", "a/b"] {
            assert_eq!(plan(action, bad), refused("nome de serviço inválido"), "{} {}", action, bad);
        }
    }
}

#[test]
fn scheduled_restart() {
    let script = "$t=[datetime]::Today.AddHours(03).AddMinutes(59); if($t -lt (Get-Date)){$t=$t.AddDays(1)}; $s=[int]($t-(Get-Date)).TotalSeconds; shutdown /r /t $s /c 'ConectDesk: reinicio agendado pelo suporte'";
    assert_eq!(
        plan("schedule_reboot", " 03:59 "),
        done(
            vec![run("powershell.exe", &["-NoProfile", "-Command", script])],
            "reinício agendado para 03:59"
        )
    );
    for good in ["00:00", "23:59", "09:05"] {
        assert!(matches!(plan("schedule_reboot", good), ActionPlan::Do { .. }), "{}", good);
    }
    for bad in ["", "24:00", "12:60", "1:30", "12-30", "12:3", "12:300", "ab:cd", "é:30", "-1:00", "1é:0", "+1:30", "01:+2", "+1:+2", "٠١:30", "1 :30"] {
        assert_eq!(plan("schedule_reboot", bad), refused("horário inválido (use HH:MM)"), "{}", bad);
    }
}

#[test]
fn messages() {
    assert_eq!(
        plan("message", "olá\r\nmundo "),
        done(vec![run("msg.exe", &["*", "/TIME:60", "olámundo "])], "mensagem enviada ao cliente")
    );
    for empty in ["", " \t ", "\r\n", "\u{3000}\n"] {
        assert_eq!(plan("message", empty), refused("mensagem vazia"));
    }
    let long: String = "é\n".repeat(300);
    assert_eq!(
        plan("message", &long),
        done(vec![run("msg.exe", &["*", "/TIME:60", &"é".repeat(220)])], "mensagem enviada ao cliente")
    );
    let late = format!("{}x", " ".repeat(220));
    assert_eq!(plan("message", &late), refused("mensagem vazia"));
}

#[test]
fn unknown_actions_are_refused() {
    assert_eq!(plan("format", "C:"), refused("ação desconhecida: format"));
    assert_eq!(plan("", ""), refused("ação desconhecida: "));
    assert_eq!(plan("Reboot", ""), refused("ação desconhecida: Reboot"));
}

#[test]
fn other_platforms_have_no_actions() {
    for action in ["reboot", "sfc", "message", "nothing"] {
        assert_eq!(exec_remote_action(Platform::Other, action, "x"), refused("não suportado"));
    }
}

#[test]
fn outcomes() {
    let reboot = plan("reboot", "");
    assert_eq!(action_outcome(&reboot, true, 0), (true, "reboot agendado (30s)".to_string()));
    assert_eq!(action_outcome(&reboot, false, 0), (false, "falha ao agendar reboot".to_string()));
    let sfc = plan("sfc", "");
    assert_eq!(action_outcome(&sfc, false, 0), (true, "sfc /scannow executado".to_string()));
    assert_eq!(action_outcome(&refused("não"), true, 0), (false, "não".to_string()));
    let clean = ActionPlan::CleanTemp;
    assert_eq!(
        action_outcome(&clean, false, 3 * 1048576 + 1048575),
        (true, "temp limpo (~3 MB liberados)".to_string())
    );
    assert_eq!(action_outcome(&clean, true, 0), (true, "temp limpo (~0 MB liberados)".to_string()));
}

#[test]
fn temporary_directories() {
    assert_eq!(temp_dirs(Some("D:\\T".to_string())), strings(&["D:\\T", "C:\\Windows\\Temp"]));
    assert_eq!(temp_dirs(None), strings(&["C:\\Windows\\Temp"]));
}

#[test]
fn entries_are_removed_by_what_they_are() {
    assert_eq!(cleanup_entry(true, false, true, 9, 5), (Removal::Link, 5));
    assert_eq!(cleanup_entry(true, true, false, 9, 5), (Removal::Link, 5));
    assert_eq!(cleanup_entry(false, true, false, 9, 5), (Removal::File, 14));
    assert_eq!(cleanup_entry(false, false, true, 9, 5), (Removal::Tree, 5));
    assert_eq!(cleanup_entry(false, false, false, 9, 5), (Removal::Keep, 5));
    assert_eq!(cleanup_entry(false, false, true, u64::MAX, 5), (Removal::Tree, 5));
}

#[test]
fn commands_in_the_queue() {
    let cmd = Json::parse(b"{\"id\":\"7\",\"action\":\"sfc\",\"arg\":\"a\"}").unwrap();
    assert_eq!(
        remote_command(&cmd),
        Some(RemoteCommand { id: "7".to_string(), action: "sfc".to_string(), arg: "a".to_string() })
    );
    let bare = Json::parse(b"{\"id\":\"7\",\"arg\":5}").unwrap();
    assert_eq!(
        remote_command(&bare),
        Some(RemoteCommand { id: "7".to_string(), action: String::new(), arg: String::new() })
    );
    for none in ["{}", "{\"id\":\"\"}", "{\"id\":7,\"action\":\"sfc\"}", "[]"] {
        assert_eq!(remote_command(&Json::parse(none.as_bytes()).unwrap()), None);
    }
}

#[test]
fn reports_on_commands() {
    assert_eq!(
        command_ack("7", false, "falha"),
        Json::Object(vec![
            ("id".to_string(), Json::Text("7".to_string())),
            ("ok".to_string(), Json::Bool(false)),
            ("message".to_string(), Json::Text("falha".to_string())),
        ])
    );
}
