use conectdesk_agent::command::Platform;
use conectdesk_agent::settings::{
    apply_approve_mode, cd_shared_dir, SharedBase, Writes,
};

fn writes(list: &[(&str, &str)]) -> Writes {
    list.iter().map(|(k, v)| (k.to_string(), v.to_string())).collect()
}

#[test]
fn approval_with_a_click_shows_the_window() {
    let mut mode = None;
    let click = writes(&[("approve-mode", "click"), ("allow-hide-cm", "N"), ("hide_cm", "false")]);
    assert_eq!(apply_approve_mode(&mut mode, true), click);
    assert_eq!(mode, Some(true));
}

#[test]
fn password_hides_the_window() {
    let mut mode = Some(true);
    let password = writes(&[("approve-mode", "password"), ("allow-hide-cm", "Y"), ("hide_cm", "true")]);
    assert_eq!(apply_approve_mode(&mut mode, false), password);
    assert_eq!(mode, Some(false));
}

#[test]
fn same_mode_is_written_once() {
    let mut mode = None;
    assert_eq!(apply_approve_mode(&mut mode, false).len(), 3);
    assert_eq!(apply_approve_mode(&mut mode, false), vec![]);
    assert_eq!(apply_approve_mode(&mut mode, true).len(), 3);
    assert_eq!(apply_approve_mode(&mut mode, true), vec![]);
}

#[test]
fn shared_directory() {
    assert_eq!(cd_shared_dir(Platform::Windows, true, true), SharedBase::ProgramData);
    assert_eq!(cd_shared_dir(Platform::Windows, false, true), SharedBase::AllUsers);
    assert_eq!(cd_shared_dir(Platform::Windows, false, false), SharedBase::Temp);
    assert_eq!(cd_shared_dir(Platform::Other, true, true), SharedBase::VarLib);
}
