use conectdesk_agent::command::{
    borrowed, migrate_stock_service, output_text, run, service_query, spawn, Platform, Step,
};

fn strings(list: &[&str]) -> Vec<String> {
    list.iter().map(|s| s.to_string()).collect()
}

#[test]
fn steps_name_their_program() {
    assert_eq!(
        run("a.exe", &["x", "y"]),
        Step::Run { program: "a.exe".to_string(), args: strings(&["x", "y"]) }
    );
    assert_eq!(spawn("b.exe", &[]), Step::Spawn { program: "b.exe".to_string(), args: vec![] });
    assert_eq!(
        service_query("RustDesk"),
        Step::Run { program: "sc.exe".to_string(), args: strings(&["query", "RustDesk"]) }
    );
}

#[test]
fn output_is_read_as_text() {
    assert_eq!(output_text(None), None);
    assert_eq!(output_text(Some("olá €".as_bytes())), Some("olá €".to_string()));
    assert_eq!(output_text(Some(&[b'a', 0xff, b'b'])), Some("a\u{fffd}b".to_string()));
    assert_eq!(output_text(Some(&[])), Some(String::new()));
    assert_eq!(borrowed(&Some(vec![1, 2])), Some(&[1u8, 2][..]));
    assert_eq!(borrowed(&None), None);
}

#[test]
fn stock_service_is_removed_beside_the_own_one() {
    let steps = vec![
        Step::Run { program: "sc.exe".to_string(), args: strings(&["stop", "RustDesk"]) },
        Step::Pause { secs: 2 },
        Step::Run { program: "sc.exe".to_string(), args: strings(&["delete", "RustDesk"]) },
    ];
    assert_eq!(migrate_stock_service(Platform::Windows, true, true), steps);
    assert_eq!(migrate_stock_service(Platform::Windows, false, true), vec![]);
    assert_eq!(migrate_stock_service(Platform::Windows, true, false), vec![]);
    assert_eq!(migrate_stock_service(Platform::Other, true, true), vec![]);
}
