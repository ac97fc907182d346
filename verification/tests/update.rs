use conectdesk_agent::api::{Method, Request};
use conectdesk_agent::command::{Platform, Step};
use conectdesk_agent::json::Json;
use conectdesk_agent::update::{
    digest_matches, hex_chars, installer, maybe_update, on_digest, on_download, on_feed, progress,
    report_update_status, Fetched, Offer, UpdateAction, UpdateEvent, Updater,
};

const ABC_DIGEST: &str = "ddaf35a193617abacc417349ae20413112e6fa4e89a97ea20a9eeee64b55d39a2192992a274fc1a836ba3c23a3feebbd454d4423643ce80e2a9ac94fa54ca49f";
const EMPTY_DIGEST: &str = "cf83e1357eefb8bdf1542850d66d8007d620e4050b5715dc83f4a921d36ce9ce47d0d13c5d85f2b0ff8318d2877eec2f63b931bd47417a81a538327af927da3e";

fn offer(sha512: Option<&str>) -> Offer {
    Offer {
        build_id: 12,
        version: "1.0".to_string(),
        exe: "a.exe".to_string(),
        sha512: sha512.map(|s| s.to_string()),
    }
}

fn stop(status: &str, message: &str) -> UpdateAction {
    UpdateAction::Stop { status: status.to_string(), message: message.to_string() }
}

fn save(body: &[u8]) -> UpdateAction {
    UpdateAction::Save { file_name: "ConectDesk-Update-12.exe".to_string(), body: body.to_vec() }
}

fn begun(local: u64) -> Updater {
    maybe_update(Platform::Windows, "https://p", local).unwrap().0
}

fn feed(sha512: &str) -> UpdateEvent {
    let text = format!("build_id: 12\nversion: 1.0\nexe: a.exe\nsha512: {}", sha512);
    UpdateEvent::Feed { text: Some(text) }
}

fn fetched(body: &[u8]) -> UpdateEvent {
    UpdateEvent::Installer { fetched: Fetched::Body(body.to_vec()) }
}

fn saved(saved: bool) -> UpdateEvent {
    UpdateEvent::Saved { saved, path: "C:\\T\\u.exe".to_string() }
}

#[test]
fn update_begins_with_the_feed() {
    assert_eq!(
        maybe_update(Platform::Windows, "https://p", 1).unwrap().1,
        UpdateAction::Check {
            feed: Request {
                method: Method::Get,
                url: "https://p/updates/fork-latest.yml".to_string(),
                header: None,
                body: None,
                timeout_secs: 30,
            },
            message: "Verificando fork-latest.yml".to_string(),
        }
    );
    assert_eq!(maybe_update(Platform::Other, "https://p", 1), None);
}

#[test]
fn newer_build_is_fetched() {
    let feed = "build_id: 12\nversion: 1.0\nexe: a.exe\nsha512: ff";
    assert_eq!(
        on_feed(11, Some(feed)),
        UpdateAction::Download {
            offer: offer(Some("ff")),
            message: "Baixando 1.0 (build 12)".to_string(),
        }
    );
}

#[test]
fn installed_build_is_not_fetched() {
    let feed = "build_id: 12\nversion: 1.0\nexe: a.exe\nsha512: ff";
    assert_eq!(on_feed(12, Some(feed)), stop("done", "Já está em 1.0 (12)"));
    assert_eq!(on_feed(13, Some(feed)), stop("done", "Já está em 1.0 (13)"));
}

#[test]
fn feeds_that_cannot_be_used() {
    assert_eq!(on_feed(1, None), stop("failed", "Falha ao buscar feed"));
    assert_eq!(on_feed(1, Some("version: 2")), stop("failed", "Feed inválido"));
    assert_eq!(on_feed(1, Some("")), stop("failed", "Feed inválido"));
}

#[test]
fn address_of_the_installer() {
    assert_eq!(
        installer("https://p", "Conect Desk Setup.exe").url,
        "https://p/updates/Conect%20Desk%20Setup.exe"
    );
    assert_eq!(installer("https://p", "a.exe").timeout_secs, 30);
}

#[test]
fn hexadecimal_digits() {
    let chars: String = hex_chars(&[0x00, 0x0f, 0xa5, 0xff]).into_iter().collect();
    assert_eq!(chars, "000fa5ff");
    assert!(digest_matches(&[0xab, 0x0c], " AB0c\n"));
    assert!(!digest_matches(&[0xab, 0x0c], "ab0d"));
    assert!(!digest_matches(&[0xab, 0x0c], "ab0c00"));
    assert!(!digest_matches(&[0xab], ""));
    assert!(digest_matches(&[], "  "));
}

#[test]
fn installer_with_the_right_digest_is_saved() {
    let abc = || Fetched::Body(b"abc".to_vec());
    assert_eq!(on_download(&offer(Some(ABC_DIGEST)), abc()), save(b"abc"));
    assert_eq!(on_download(&offer(Some(&ABC_DIGEST.to_uppercase())), abc()), save(b"abc"));
    assert_eq!(on_download(&offer(Some(EMPTY_DIGEST)), Fetched::Body(vec![])), save(b""));
    assert_eq!(on_digest(&offer(Some("0a")), &[0x0a], vec![7]), save(&[7]));
}

#[test]
fn installer_with_another_digest_is_refused() {
    let message = "Integridade do download falhou (SHA-512) — atualização abortada";
    let body = Fetched::Body(b"abd".to_vec());
    assert_eq!(on_download(&offer(Some(ABC_DIGEST)), body), stop("failed", message));
    assert_eq!(on_digest(&offer(Some("0a")), &[0x0b], vec![]), stop("failed", message));
}

#[test]
fn feed_without_digest_is_refused() {
    assert_eq!(
        on_download(&offer(None), Fetched::Body(b"abc".to_vec())),
        stop("failed", "Feed sem checksum — atualização recusada")
    );
}

#[test]
fn downloads_that_fail() {
    assert_eq!(on_download(&offer(None), Fetched::Failed), stop("failed", "Download falhou"));
    assert_eq!(
        on_download(&offer(Some(ABC_DIGEST)), Fetched::Broken),
        stop("failed", "Falha ao ler corpo do download")
    );
}

#[test]
fn checked_installer_is_started() {
    let script = "Start-Process powershell -WindowStyle Hidden -ArgumentList '-NoProfile','-ExecutionPolicy','Bypass','-Command',\"& 'C:\\T\\u.exe' --silent-install; Start-Sleep -Seconds 12; for ($i=0; $i -lt 6; $i++){ $s=Get-Service ConectDesk -ErrorAction SilentlyContinue; if($s -and $s.Status -eq 'Running'){break}; Start-Service ConectDesk -ErrorAction SilentlyContinue; Start-Sleep -Seconds 5 }\"";
    let mut updater = begun(11);
    let download = updater.step(feed(ABC_DIGEST)).unwrap();
    assert_eq!(
        download,
        UpdateAction::Download {
            offer: offer(Some(ABC_DIGEST)),
            message: "Baixando 1.0 (build 12)".to_string(),
        }
    );
    assert_eq!(updater.step(fetched(b"abc")), Some(save(b"abc")));
    assert_eq!(
        updater.step(saved(true)),
        Some(UpdateAction::Install {
            message: "Instalando 1.0 (silent)".to_string(),
            step: Step::Spawn {
                program: "powershell.exe".to_string(),
                args: ["-NoProfile", "-ExecutionPolicy", "Bypass", "-Command", script]
                    .iter()
                    .map(|s| s.to_string())
                    .collect(),
            },
        })
    );
    assert_eq!(updater.step(saved(true)), None);
}

#[test]
fn installer_that_was_not_saved_is_not_started() {
    let mut updater = begun(11);
    updater.step(feed(ABC_DIGEST));
    updater.step(fetched(b"abc"));
    assert_eq!(
        updater.step(saved(false)),
        Some(stop("failed", "Falha ao gravar instalador temporário"))
    );
    assert_eq!(updater.step(saved(true)), None);
}

#[test]
fn unchecked_installer_is_never_started() {
    let mut updater = begun(11);
    updater.step(feed(ABC_DIGEST));
    assert!(matches!(updater.step(fetched(b"abd")), Some(UpdateAction::Stop { .. })));
    assert_eq!(updater.step(saved(true)), None);
    let mut updater = begun(11);
    updater.step(feed(""));
    assert!(matches!(updater.step(fetched(b"abc")), Some(UpdateAction::Stop { .. })));
    assert_eq!(updater.step(saved(true)), None);
}

#[test]
fn events_out_of_order_end_the_update() {
    let mut updater = begun(11);
    assert_eq!(updater.step(saved(true)), None);
    assert_eq!(updater.step(feed(ABC_DIGEST)), None);
    let mut updater = begun(11);
    assert_eq!(updater.step(fetched(b"abc")), None);
    let mut updater = begun(11);
    updater.step(feed(ABC_DIGEST));
    assert_eq!(updater.step(saved(true)), None);
    assert_eq!(updater.step(fetched(b"abc")), None);
    let mut updater = begun(12);
    assert_eq!(updater.step(feed(ABC_DIGEST)), Some(stop("done", "Já está em 1.0 (12)")));
    assert_eq!(updater.step(fetched(b"abc")), None);
}

#[test]
fn progress_goes_to_the_panel() {
    let told = |a: &UpdateAction| progress(a).map(|(s, m)| format!("{}: {}", s, m));
    let (mut updater, check) = maybe_update(Platform::Windows, "https://p", 1).unwrap();
    assert_eq!(told(&check), Some("checking: Verificando fork-latest.yml".to_string()));
    let download = updater.step(feed(ABC_DIGEST)).unwrap();
    assert_eq!(told(&download), Some("downloading: Baixando 1.0 (build 12)".to_string()));
    assert_eq!(told(&on_feed(1, None)), Some("failed: Falha ao buscar feed".to_string()));
    assert_eq!(told(&updater.step(fetched(b"abc")).unwrap()), None);
    assert_eq!(
        told(&updater.step(saved(true)).unwrap()),
        Some("installing: Instalando 1.0 (silent)".to_string())
    );
}

#[test]
fn progress_reports() {
    let request = report_update_status("https://p", "tok", "done", "ok").unwrap();
    assert_eq!(request.url, "https://p/api/agents/me/update-status");
    assert_eq!(
        request.body,
        Some(Json::Object(vec![
            ("status".to_string(), Json::Text("done".to_string())),
            ("message".to_string(), Json::Text("ok".to_string())),
        ]))
    );
    assert_eq!(report_update_status("https://p", "", "done", "ok"), None);
}
