use conectdesk_agent::command::{Platform, Step};
use conectdesk_agent::json::Json;
use conectdesk_agent::processes::{collect_processes, processes_query, report_processes};

fn process(name: &str, mem_mb: u64) -> Json {
    Json::Object(vec![
        ("name".to_string(), Json::Text(name.to_string())),
        ("memMB".to_string(), Json::Unsigned(mem_mb)),
    ])
}

fn line(name: &str, memory: &str) -> String {
    format!("\"{}\",\"123\",\"Console\",\"1\",\"{}\"\r\n", name, memory)
}

#[test]
fn memory_of_a_name_is_added_up() {
    let list = format!(
        "{}{}{}{}",
        line("a.exe", "10.240 K"),
        line("b.exe", "1,048,576 K"),
        line("a.exe", "20.480 K"),
        line("c.exe", "2.047 K")
    );
    assert_eq!(
        collect_processes(Platform::Windows, Some(list.as_bytes())),
        Some(Json::Array(vec![process("b.exe", 1024), process("a.exe", 30), process("c.exe", 1)]))
    );
}

#[test]
fn lines_with_too_few_cells() {
    let list = format!("INFO\r\n\"x\",\"1\",\"2\",\"3\"\r\n\r\n{}", line("a.exe", "N/A"));
    assert_eq!(report_processes(&list), Some(Json::Array(vec![process("a.exe", 0)])));
}

#[test]
fn memory_that_is_no_number() {
    let list = line("a.exe", "99999999999999999999999 K");
    assert_eq!(report_processes(&list), Some(Json::Array(vec![process("a.exe", 0)])));
}

#[test]
fn names_up_to_the_limit() {
    let list: String = (0..40u64).map(|i| line(&format!("p{}", i), &format!("{} K", i * 1024))).collect();
    let report = report_processes(&list).unwrap();
    let wanted: Vec<Json> = (10..40u64).rev().map(|i| process(&format!("p{}", i), i)).collect();
    assert_eq!(report, Json::Array(wanted));
}

#[test]
fn names_with_the_same_memory() {
    let list = format!("{}{}{}", line("a", "1024 K"), line("b", "1024 K"), line("c", "2048 K"));
    let report = report_processes(&list).unwrap();
    let items = report.as_array().unwrap();
    assert_eq!(items.len(), 3);
    assert_eq!(items[0], process("c", 2));
    assert!(items.contains(&process("a", 1)) && items.contains(&process("b", 1)));
}

#[test]
fn memory_that_cannot_be_counted() {
    let most = line("a", "18446744073709551615 K");
    assert_eq!(
        report_processes(&most),
        Some(Json::Array(vec![process("a", 18014398509481983)]))
    );
    assert_eq!(report_processes(&format!("{}{}", most, line("a", "1 K"))), None);
    assert!(report_processes(&format!("{}{}", most, line("b", "1 K"))).is_some());
}

#[test]
fn without_a_list() {
    assert_eq!(collect_processes(Platform::Windows, None), Some(Json::Array(vec![])));
    assert_eq!(collect_processes(Platform::Other, Some(line("a", "1 K").as_bytes())), Some(Json::Array(vec![])));
    assert_eq!(
        processes_query(),
        Step::Run {
            program: "tasklist".to_string(),
            args: ["/FO", "CSV", "/NH"].iter().map(|s| s.to_string()).collect(),
        }
    );
}
