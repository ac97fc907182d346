use conectdesk_agent::command::{Platform, Step};
use conectdesk_agent::disks::{collect_disks, disks_query, report_disks};
use conectdesk_agent::json::Json;

fn disk(mount: &str, total_gb: u64, used_pct: u64) -> Json {
    Json::Object(vec![
        ("mount".to_string(), Json::Text(mount.to_string())),
        ("totalGB".to_string(), Json::Unsigned(total_gb)),
        ("usedPct".to_string(), Json::Unsigned(used_pct)),
    ])
}

#[test]
fn table_of_disks() {
    let table = "Node,Caption,FreeSpace,Size\r\nPC1,C:,53687091200,107374182400\r\nPC1, D: , 0 , 1073741823 \r\n";
    assert_eq!(
        collect_disks(Platform::Windows, Some(table.as_bytes())),
        Json::Array(vec![disk("C:", 100, 50), disk("D:", 0, 100)])
    );
}

#[test]
fn lines_without_a_disk() {
    let table = "heading\n\na,b,c\nPC1,,1,2\nPC1,C:,1,0\nPC1,C:,1,x\nPC1,E:,x,3\nPC1,F:,9,3,more";
    assert_eq!(report_disks(table), Json::Array(vec![disk("E:", 0, 100), disk("F:", 0, 0)]));
}

#[test]
fn first_line_is_the_heading() {
    assert_eq!(report_disks("PC1,C:,1,2"), Json::Array(vec![]));
    assert_eq!(report_disks(""), Json::Array(vec![]));
}

#[test]
fn share_is_cut_to_whole_per_cent() {
    assert_eq!(report_disks("h\np,C:,1,3"), Json::Array(vec![disk("C:", 0, 66)]));
}

#[test]
fn very_large_disks() {
    assert_eq!(
        report_disks("h\np,C:,0,18446744073709551615\np,D:,9223372036854775808,18446744073709551615"),
        Json::Array(vec![disk("C:", 17179869183, 100), disk("D:", 17179869183, 49)])
    );
}

#[test]
fn without_a_table() {
    assert_eq!(collect_disks(Platform::Windows, None), Json::Array(vec![]));
    assert_eq!(collect_disks(Platform::Other, Some(b"h\np,C:,1,3")), Json::Array(vec![]));
}

#[test]
fn program_that_writes_the_table() {
    assert_eq!(
        disks_query(),
        Step::Run {
            program: "wmic".to_string(),
            args: ["logicaldisk", "where", "drivetype=3", "get", "Caption,Size,FreeSpace", "/FORMAT:CSV"]
                .iter()
                .map(|s| s.to_string())
                .collect(),
        }
    );
}
