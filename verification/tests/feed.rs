use conectdesk_agent::feed::{local_build_id, parse_fork_feed};

fn some(
    build_id: u64,
    version: &str,
    exe: &str,
    sha512: Option<&str>,
) -> Option<(u64, String, String, Option<String>)> {
    Some((build_id, version.to_string(), exe.to_string(), sha512.map(|s| s.to_string())))
}

#[test]
fn build_id_of_text() {
    assert_eq!(local_build_id("1780797000"), 1780797000);
    assert_eq!(local_build_id("+5"), 5);
    assert_eq!(local_build_id("abc"), 0);
    assert_eq!(local_build_id(""), 0);
    assert_eq!(local_build_id(" 5"), 0);
    assert_eq!(local_build_id("18446744073709551616"), 0);
}

#[test]
fn published_feed() {
    let feed = "build_id: 1780797000\nversion: 1.4.7-cd-20260607\nexe: ConectDesk-Setup.exe\nsha512: ab12\n";
    assert_eq!(
        parse_fork_feed(feed),
        some(1780797000, "1.4.7-cd-20260607", "ConectDesk-Setup.exe", Some("ab12"))
    );
}

#[test]
fn quotes_and_spaces_come_off() {
    let feed = "  build_id:  '12'\r\n version: \"1.0\" \r\nexe:'a b.exe'\r\n";
    assert_eq!(parse_fork_feed(feed), some(12, "1.0", "a b.exe", None));
    assert_eq!(parse_fork_feed("build_id: '\"3\"'\nexe: '\"x\"'"), some(3, "", "x", None));
    assert_eq!(parse_fork_feed("build_id:4\nexe: \"'y'\""), some(4, "", "'y'", None));
}

#[test]
fn feed_without_exe() {
    assert!(parse_fork_feed("build_id: 5").is_none());
}

#[test]
fn feed_without_build_id() {
    assert!(parse_fork_feed("exe: a.exe").is_none());
    assert!(parse_fork_feed("build_id: x\nexe: a.exe").is_none());
    assert!(parse_fork_feed("").is_none());
}

#[test]
fn last_line_of_a_key_counts() {
    let feed = "build_id: 1\nbuild_id: 2\nexe: a\nexe: b\nversion: 1\nversion: 2\nsha512: c\nsha512: d";
    assert_eq!(parse_fork_feed(feed), some(2, "2", "b", Some("d")));
    assert!(parse_fork_feed("build_id: 1\nbuild_id: x\nexe: a").is_none());
}

#[test]
fn empty_digest_is_none_and_keeps_the_last() {
    assert_eq!(parse_fork_feed("build_id: 1\nexe:\nsha512: ''"), some(1, "", "", None));
    assert_eq!(parse_fork_feed("build_id: 1\nexe: a\nsha512: c\nsha512:"), some(1, "", "a", Some("c")));
}

#[test]
fn other_lines_are_passed_over() {
    let feed = "# comment\nbuild_id : 9\nbuild_id: 1\nexe: a:b\nnotes: exe: c";
    assert_eq!(parse_fork_feed(feed), some(1, "", "a:b", None));
}
