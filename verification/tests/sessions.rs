use conectdesk_agent::json::Json;
use conectdesk_agent::sessions::{
    clear_active_session, decide_sessions, photo_file, photo_jobs, photo_missing, plan_sessions,
    read_active_sessions, set_sessions_names, stamp, sync_active_sessions, sync_session_history,
    PhotoJob, Session, ShownSessions,
};
use conectdesk_agent::settings::Writes;

fn json(text: &str) -> Json {
    Json::parse(text.as_bytes()).unwrap()
}

fn session(id: &str, technician: &str) -> Session {
    (id.to_string(), technician.to_string())
}

fn text(key: &str, value: &str) -> (String, String) {
    (key.to_string(), value.to_string())
}

fn list(technicians: &str) -> (String, String) {
    text("cd_active_sessions", technicians)
}

fn shown(ids: &str, technicians: &str, photo: &str) -> ShownSessions {
    ShownSessions {
        ids: ids.to_string(),
        technicians: technicians.to_string(),
        photo: photo.to_string(),
    }
}

fn cleared() -> Writes {
    vec![
        text("cd_active_session_id", ""),
        text("cd_active_session_tech_name", ""),
        text("cd_active_session_tech_photo_path", ""),
        text("cd_active_sessions", ""),
    ]
}

const TWO: &str = "{\"activeSessions\":[{\"id\":\"s1\",\"technician\":\"Ana\"},{\"technician\":\"x\"},{\"id\":\"s2\",\"technician\":\"Bia\"}]}";

fn two_names() -> Writes {
    vec![
        text("cd_active_session_id", "s1,s2"),
        list("[{\"name\":\"Ana\",\"photoPath\":\"\"},{\"name\":\"Bia\",\"photoPath\":\"\"}]"),
        text("cd_active_session_tech_name", "Ana"),
        text("cd_active_session_tech_photo_path", ""),
    ]
}

#[test]
fn sessions_of_a_reply() {
    assert_eq!(
        read_active_sessions(&json(TWO)),
        Some(vec![session("s1", "Ana"), session("s2", "Bia")])
    );
    assert_eq!(
        read_active_sessions(&json("{\"activeSession\":{\"id\":\"s\",\"technician\":\"Ana\"}}")),
        Some(vec![session("s", "Ana")])
    );
    assert_eq!(read_active_sessions(&json("{\"activeSession\":5}")), Some(vec![]));
    assert_eq!(read_active_sessions(&json("{\"activeSession\":null}")), None);
    assert_eq!(read_active_sessions(&json("{}")), None);
}

#[test]
fn list_counts_before_the_single_session() {
    let both = "{\"activeSessions\":[],\"activeSession\":{\"id\":\"s\"}}";
    assert_eq!(read_active_sessions(&json(both)), None);
    let odd = "{\"activeSessions\":7,\"activeSession\":{\"id\":\"s\"}}";
    assert_eq!(read_active_sessions(&json(odd)), Some(vec![session("s", "")]));
}

#[test]
fn ids_with_commas() {
    assert_eq!(stamp(&vec![]), "");
    assert_eq!(stamp(&vec![session("a", "x")]), "a");
    assert_eq!(stamp(&vec![session("a", "x"), session("b", "y"), session("c", "z")]), "a,b,c");
}

#[test]
fn names_at_once() {
    assert_eq!(set_sessions_names(&vec![session("s1", "Ana"), session("s2", "Bia")]), two_names());
    assert_eq!(
        set_sessions_names(&vec![]),
        vec![
            text("cd_active_session_id", ""),
            list("[]"),
            text("cd_active_session_tech_name", ""),
            text("cd_active_session_tech_photo_path", ""),
        ]
    );
}

fn two() -> Option<Vec<Session>> {
    Some(vec![session("s1", "Ana"), session("s2", "Bia")])
}

const BOTH_PHOTOS: &str =
    "[{\"name\":\"Ana\",\"photoPath\":\"a.png\"},{\"name\":\"Bia\",\"photoPath\":\"b.png\"}]";
const ONE_PHOTO: &str =
    "[{\"name\":\"Ana\",\"photoPath\":\"a.png\"},{\"name\":\"Bia\",\"photoPath\":\"\"}]";

#[test]
fn new_sessions_write_names_and_ask_for_photos() {
    assert_eq!(plan_sessions(&json(TWO), &shown("", "", "")), (two_names(), two()));
    assert_eq!(plan_sessions(&json(TWO), &shown("s1", BOTH_PHOTOS, "a.png")), (two_names(), two()));
}

#[test]
fn same_sessions_write_nothing() {
    assert_eq!(plan_sessions(&json(TWO), &shown("s1,s2", BOTH_PHOTOS, "a.png")), (vec![], None));
}

#[test]
fn photos_are_fetched_while_one_is_missing() {
    assert_eq!(plan_sessions(&json(TWO), &shown("s1,s2", ONE_PHOTO, "a.png")), (vec![], two()));
    assert_eq!(plan_sessions(&json(TWO), &shown("s1,s2", BOTH_PHOTOS, "")), (vec![], two()));
    assert_eq!(plan_sessions(&json(TWO), &shown("s1,s2", "", "a.png")), (vec![], two()));
    assert_eq!(plan_sessions(&json(TWO), &shown("s1,s2", "oops", "a.png")), (vec![], two()));
    let read = Some(json(ONE_PHOTO));
    assert_eq!(decide_sessions(&json(TWO), "s1,s2", &read, "a.png"), (vec![], two()));
    assert!(photo_missing(&read));
    assert!(!photo_missing(&Some(json(BOTH_PHOTOS))));
    assert!(photo_missing(&Some(json("{}"))) && photo_missing(&None));
}

#[test]
fn ended_sessions_are_cleared_once() {
    assert_eq!(plan_sessions(&json("{}"), &shown("s1", BOTH_PHOTOS, "a.png")), (cleared(), None));
    assert_eq!(plan_sessions(&json("{}"), &shown("", "", "")), (vec![], None));
    assert_eq!(clear_active_session(), cleared());
}

#[test]
fn sessions_without_ids_ask_for_no_photos() {
    let reply = json("{\"activeSessions\":[{\"technician\":\"x\"}]}");
    assert_eq!(plan_sessions(&reply, &shown("", "", "")), (vec![], None));
    assert_eq!(plan_sessions(&reply, &shown("s1", "", "")), (set_sessions_names(&vec![]), None));
}

#[test]
fn names_of_photo_files() {
    assert_eq!(photo_file("abcdefghij"), "session_tech_abcdefgh.png");
    assert_eq!(photo_file("12-34/56\\789"), "session_tech_123456.png");
    assert_eq!(photo_file("../../x"), "session_tech_x.png");
    assert_eq!(photo_file("çé٣½ab"), "session_tech_çé٣½ab.png");
    assert_eq!(photo_file(""), "session_tech_.png");
}

#[test]
fn photos_of_a_reply() {
    let reply = json(
        "{\"sessions\":[{\"sessionId\":\"s1\",\"technician\":\"Ana\",\"photo\":\"data:image/png;base64, Zm9v \"},{\"sessionId\":\"s2\",\"technician\":\"Bia\",\"photo\":\" Zm8= \"},{\"technician\":\"Caio\",\"photo\":\"\"},{\"technician\":\"Davi\",\"photo\":\"***\"},{\"sessionId\":\"s5\",\"photo\":\"xbase64,Zg==base64,\"}]}",
    );
    let job = |name: &str, file: Option<(&str, &[u8])>| PhotoJob {
        name: name.to_string(),
        file: file.map(|(f, b)| (f.to_string(), b.to_vec())),
    };
    let jobs = photo_jobs(&reply).unwrap();
    assert_eq!(jobs[0], job("Ana", Some(("session_tech_s1.png", b"foo"))));
    assert_eq!(jobs[1], job("Bia", Some(("session_tech_s2.png", b"fo"))));
    assert_eq!(jobs[2], job("Caio", None));
    assert_eq!(jobs[3], job("Davi", None));
    assert_eq!(jobs[4], job("", None));
    assert_eq!(jobs.len(), 5);
    assert_eq!(photo_jobs(&json("{\"sessions\":{}}")), None);
    assert_eq!(photo_jobs(&json("{\"sessions\":[]}")), Some(vec![]));
}

fn jobs(names: &[&str]) -> Vec<PhotoJob> {
    names.iter().map(|name| PhotoJob { name: name.to_string(), file: None }).collect()
}

fn paths(list: &[&str]) -> Vec<String> {
    list.iter().map(|path| path.to_string()).collect()
}

fn photos_shown(technicians: &str, name: &str, photo: &str) -> Writes {
    vec![
        list(technicians),
        text("cd_active_session_tech_name", name),
        text("cd_active_session_tech_photo_path", photo),
    ]
}

#[test]
fn saved_photos_are_shown() {
    assert_eq!(
        sync_active_sessions(&two().unwrap(), &jobs(&["Ana", "Bia"]), &paths(&["a.png", "b.png"])),
        photos_shown(BOTH_PHOTOS, "Ana", "a.png")
    );
    assert_eq!(
        sync_active_sessions(&two().unwrap(), &jobs(&["Ana", "Bia"]), &paths(&["a.png", ""])),
        photos_shown(ONE_PHOTO, "Ana", "a.png")
    );
    assert_eq!(sync_active_sessions(&two().unwrap(), &vec![], &vec![]), vec![]);
}

#[test]
fn first_technician_has_no_photo_of_another() {
    let second = "[{\"name\":\"Ana\",\"photoPath\":\"\"},{\"name\":\"Bia\",\"photoPath\":\"b.png\"}]";
    assert_eq!(
        sync_active_sessions(&two().unwrap(), &jobs(&["Ana", "Bia"]), &paths(&["", "b.png"])),
        photos_shown(second, "Ana", "")
    );
}

#[test]
fn photos_are_matched_by_technician() {
    assert_eq!(
        sync_active_sessions(
            &two().unwrap(),
            &jobs(&["Caio", "Bia", "Ana", "Ana"]),
            &paths(&["c.png", "b.png", "", "a.png"])
        ),
        photos_shown(BOTH_PHOTOS, "Ana", "a.png")
    );
    let nobody = "[{\"name\":\"Ana\",\"photoPath\":\"\"},{\"name\":\"Bia\",\"photoPath\":\"\"}]";
    assert_eq!(
        sync_active_sessions(&two().unwrap(), &jobs(&["Caio"]), &paths(&["c.png"])),
        photos_shown(nobody, "Ana", "")
    );
}

#[test]
fn history_keeps_small_fields() {
    let reply = json(
        "{\"sessions\":[{\"client_ip\":\"10.0.0.1\",\"id\":7,\"technician\":null,\"technician_photo\":\"AAAA\",\"reason\":\"r\",\"created_at\":1,\"started_at\":1.5,\"ended_at\":2},{}]}",
    );
    assert_eq!(
        sync_session_history(&reply),
        vec![text(
            "cd_session_history",
            "[{\"ended_at\":2,\"id\":7,\"reason\":\"r\",\"started_at\":1.5,\"technician\":null},{}]"
        )]
    );
    assert_eq!(sync_session_history(&json("{}")), vec![]);
}

#[test]
fn history_has_fifteen_sessions() {
    let items: Vec<Json> = (0..50)
        .map(|i| Json::Object(vec![("id".to_string(), Json::Unsigned(i))]))
        .collect();
    let reply = Json::Object(vec![("sessions".to_string(), Json::Array(items.clone()))]);
    let kept = Json::Array(items[..15].to_vec()).to_text();
    assert_eq!(sync_session_history(&reply), vec![text("cd_session_history", &kept)]);
}
