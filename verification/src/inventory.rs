//! What the agent tells the panel about the machine.

use vstd::prelude::*;
use vstd::utf8::encode_utf8;
use crate::command::{
    output_text, output_view, run, script_step, script_view, Platform, Step, StepView,
};
use crate::json::{json_of_bytes, push_field, push_item, Json, JsonView};
use crate::text::{
    begins_with, chars_of, contains, ends_in, has, has_char, is_white_space,
    law_beginnings_and_endings, law_white_space_around_is_trimmed, lemma_first_part, lemma_only_part, lemma_stands_between,
    lemma_trimmed_already, line_seq, lines, pieces, replace, replaced, split, split_at_each,
    starts_with, string_of, trim, trim_back, trim_end_text, trim_front, trim_suffix, trimmed, white,
    white_space,
};

verus! {

/// The script that lists the services.
pub const SERVICES_SCRIPT: &'static str =
    "Get-Service | Sort-Object Status,DisplayName | Select-Object -First 200 Name,DisplayName,Status | ConvertTo-Json -Compress";

/// The script that lists the processes by the processor time they took.
pub const PROCESSES_CPU_SCRIPT: &'static str =
    "Get-Process | Sort-Object CPU -Descending | Select-Object -First 15 Name,@{n='cpuSec';e={[int]($_.CPU)}},@{n='memMB';e={[int]($_.WS/1MB)}} | ConvertTo-Json -Compress";

/// The most services that are reported.
pub const SERVICES_LIMIT: usize = 120;

/// The most processes that are reported.
pub const PROCESSES_LIMIT: usize = 30;

/// The bytes of a gibibyte.
pub const GIBIBYTE: u64 = 1073741824;

// ---------------------------------------------------------------------------------------------
// JSON that a script wrote
// ---------------------------------------------------------------------------------------------

/// The JSON value that a text holds, apart from white space around it.
pub open spec fn json_in(text: Seq<char>) -> Option<JsonView> {
    json_of_bytes(encode_utf8(trimmed(text)))
}

/// The JSON value that a program wrote.
pub open spec fn written_json(text: Option<Seq<char>>) -> Option<JsonView> {
    match text {
        Some(chars) => json_in(chars),
        None => None,
    }
}

/// Reads the JSON value that a program wrote.
pub fn read_json(output: Option<&[u8]>) -> (value: Option<Json>)
    ensures
        value.deep_view() == written_json(output_view(output)),
{
    match output_text(output) {
        Some(text) => {
            let chars = chars_of(text.as_str());
            let inner = string_of(trim(chars.as_slice()));
            Json::parse(inner.as_str().as_bytes())
        },
        None => None,
    }
}

/// A value, null in the place of none.
pub open spec fn or_null(value: Option<JsonView>) -> JsonView {
    match value {
        Some(json) => json,
        None => JsonView::Null,
    }
}

/// The value that a script wrote, null where it wrote none.
pub fn ps_json(output: Option<&[u8]>) -> (value: Json)
    ensures
        value@ == or_null(written_json(output_view(output))),
{
    match read_json(output) {
        Some(value) => value,
        None => Json::Null,
    }
}

/// A value as a list: a list stays, null is the empty list, and any other value is a list of one.
pub open spec fn listed(value: JsonView) -> JsonView {
    match value {
        JsonView::Null => JsonView::Array(Seq::empty()),
        JsonView::Array(items) => value,
        _ => JsonView::Array(seq![value]),
    }
}

/// A value as a list.
pub fn as_array(value: Json) -> (list: Json)
    ensures
        list@ == listed(value@),
{
    match value {
        Json::Null => Json::empty_array(),
        Json::Array(items) => Json::Array(items),
        other => single(other),
    }
}

/// A list of one value.
fn single(value: Json) -> (list: Json)
    ensures
        list@ == JsonView::Array(seq![value@]),
{
    let mut items: Vec<Json> = Vec::new();
    push_item(&mut items, value);
    assert(items.deep_view() =~= seq![value@]);
    Json::array(items)
}

// ---------------------------------------------------------------------------------------------
// Services
// ---------------------------------------------------------------------------------------------

/// The program that lists the services.
pub fn services_query() -> (step: Step)
    ensures
        step.deep_view() == script_view(SERVICES_SCRIPT@),
{
    script_step(SERVICES_SCRIPT)
}

/// What is reported of a service: it runs where its status is four.
pub open spec fn service_report(item: JsonView) -> JsonView {
    JsonView::Object(
        seq![
            ("name"@, JsonView::Text(item.text_field("Name"@))),
            ("display"@, JsonView::Text(item.text_field("DisplayName"@))),
            ("running"@, JsonView::Bool(item.integer_field("Status"@) == Some(4i64))),
        ],
    )
}

/// A list stays, and any other value is a list of one.
pub open spec fn items_or_self(value: JsonView) -> Seq<JsonView> {
    match value {
        JsonView::Array(items) => items,
        _ => seq![value],
    }
}

/// What is reported of the services on a list: the first ones, up to the limit.
pub open spec fn services_report(value: JsonView) -> JsonView {
    let items = items_or_self(value);
    let count = if items.len() <= SERVICES_LIMIT {
        items.len() as int
    } else {
        SERVICES_LIMIT as int
    };
    JsonView::Array(items.take(count).map_values(|item: JsonView| service_report(item)))
}

/// What is reported of the services.
pub open spec fn services_view(platform: Platform, value: Option<JsonView>) -> JsonView {
    match value {
        Some(json) => if platform == Platform::Windows {
            services_report(json)
        } else {
            JsonView::Array(Seq::empty())
        },
        None => JsonView::Array(Seq::empty()),
    }
}

/// What is reported of one service.
fn report_service(item: &Json) -> (report: Json)
    ensures
        report@ == service_report(item@),
{
    let running = match item.integer_field("Status") {
        Some(status) => status == 4,
        None => false,
    };
    let mut fields: Vec<(String, Json)> = Vec::new();
    push_field(&mut fields, "name", Json::Text(item.text_field("Name")));
    push_field(&mut fields, "display", Json::Text(item.text_field("DisplayName")));
    push_field(&mut fields, "running", Json::Bool(running));
    assert(fields.deep_view() =~= service_report(item@)->Object_0);
    Json::object(fields)
}

/// What is reported of the services on a list.
pub fn report_services(value: &Json) -> (report: Json)
    ensures
        report@ == services_report(value@),
{
    let mut reports: Vec<Json> = Vec::new();
    match value.as_array() {
        Some(items) => {
            let count: usize = if items.len() <= SERVICES_LIMIT {
                items.len()
            } else {
                SERVICES_LIMIT
            };
            for i in 0..count
                invariant
                    count <= items@.len(),
                    reports@.len() == i,
                    forall|j: int|
                        0 <= j < i ==> (#[trigger] reports@[j])@ == service_report(items@[j]@),
            {
                reports.push(report_service(&items[i]));
            }
            assert(reports.deep_view() =~= services_report(value@)->Array_0);
        },
        None => {
            reports.push(report_service(value));
            assert(items_or_self(value@) =~= seq![value@]);
            assert(reports.deep_view() =~= services_report(value@)->Array_0);
        },
    }
    Json::array(reports)
}

/// What is reported of the services, by what the script wrote.
pub fn collect_services(platform: Platform, output: Option<&[u8]>) -> (report: Json)
    ensures
        report@ == services_view(platform, written_json(output_view(output))),
{
    if platform == Platform::Other {
        return Json::empty_array();
    }
    match read_json(output) {
        Some(value) => report_services(&value),
        None => Json::empty_array(),
    }
}

// ---------------------------------------------------------------------------------------------
// Processes by processor time
// ---------------------------------------------------------------------------------------------

/// The program that lists the processes by the processor time they took.
pub fn processes_cpu_query() -> (step: Step)
    ensures
        step.deep_view() == script_view(PROCESSES_CPU_SCRIPT@),
{
    script_step(PROCESSES_CPU_SCRIPT)
}

/// What is reported of the processes by processor time: the list that the script wrote.
pub open spec fn processes_cpu_view(platform: Platform, value: Option<JsonView>) -> JsonView {
    match value {
        Some(json) => if platform == Platform::Windows {
            JsonView::Array(items_or_self(json))
        } else {
            JsonView::Array(Seq::empty())
        },
        None => JsonView::Array(Seq::empty()),
    }
}

/// What is reported of the processes by processor time, out of the value that the script wrote.
pub fn report_processes_cpu(value: Json) -> (report: Json)
    ensures
        report@ == JsonView::Array(items_or_self(value@)),
{
    match value {
        Json::Array(items) => Json::Array(items),
        other => single(other),
    }
}

/// What is reported of the processes by processor time, by what the script wrote.
pub fn collect_processes_cpu(platform: Platform, output: Option<&[u8]>) -> (report: Json)
    ensures
        report@ == processes_cpu_view(platform, written_json(output_view(output))),
{
    if platform == Platform::Other {
        return Json::empty_array();
    }
    match read_json(output) {
        Some(value) => report_processes_cpu(value),
        None => Json::empty_array(),
    }
}

// ---------------------------------------------------------------------------------------------
// Memory
// ---------------------------------------------------------------------------------------------

/// How much of the memory is in use, in whole per cent, cut to 32 bits. No memory is all free.
pub open spec fn used_percent(used: u64, total: u64) -> nat {
    if total > 0 {
        ((used as nat * 100 / total as nat) % 0x1_0000_0000) as nat
    } else {
        0
    }
}

/// How much of the memory is in use, in per cent.
pub fn memory_percent(used: u64, total: u64) -> (percent: u32)
    ensures
        percent == used_percent(used, total),
{
    if total > 0 {
        let percent: u128 = used as u128 * 100 / total as u128;
        (percent % 0x1_0000_0000) as u32
    } else {
        0
    }
}

// ---------------------------------------------------------------------------------------------
// Network interface
// ---------------------------------------------------------------------------------------------

/// What stands between the first colon of a line and the second.
pub open spec fn after_colon(line: Seq<char>) -> Option<Seq<char>> {
    let parts = split(line, seq![':']);
    if parts.len() > 1 {
        Some(parts[1])
    } else {
        None
    }
}

/// The line names a hardware address.
pub open spec fn is_hardware_line(line: Seq<char>) -> bool {
    contains(line, "Physical Address"@) || contains(line, "Endereço Físico"@)
}

/// The line names an address on the network.
pub open spec fn is_address_line(line: Seq<char>) -> bool {
    begins_with(line, "IPv4"@) || begins_with(line, "Endereço IPv4"@)
}

/// A hardware address as it is written on a line, with colons for hyphens.
pub open spec fn hardware_text(value: Seq<char>) -> Seq<char> {
    replaced(trimmed(value), '-', seq![':'])
}

/// An address on the network without the word that may follow it.
pub open spec fn address_text(value: Seq<char>) -> Seq<char> {
    trimmed(trim_suffix(trim_suffix(trimmed(value), "(Preferred)"@), "(Preferencial)"@))
}

/// The hardware address on a line, if it has eleven bytes at least.
pub open spec fn hardware_on(line: Seq<char>) -> Option<Seq<char>> {
    let l = trimmed(line);
    match after_colon(l) {
        Some(value) => if is_hardware_line(l) && encode_utf8(hardware_text(value)).len() >= 11 {
            Some(hardware_text(value))
        } else {
            None
        },
        None => None,
    }
}

/// The address on the network that a line names.
pub open spec fn address_on(line: Seq<char>) -> Option<Seq<char>> {
    let l = trimmed(line);
    match after_colon(l) {
        Some(value) => if !is_hardware_line(l) && is_address_line(l) && address_text(value).len()
            > 0 {
            Some(address_text(value))
        } else {
            None
        },
        None => None,
    }
}

/// The first hardware address on the lines, empty if there is none.
pub open spec fn first_hardware(lines: Seq<Seq<char>>) -> Seq<char>
    decreases lines.len(),
{
    if lines.len() == 0 {
        Seq::empty()
    } else {
        match hardware_on(lines[0]) {
            Some(text) => text,
            None => first_hardware(lines.drop_first()),
        }
    }
}

/// The first address on the network on the lines, empty if there is none.
pub open spec fn first_address(lines: Seq<Seq<char>>) -> Seq<char>
    decreases lines.len(),
{
    if lines.len() == 0 {
        Seq::empty()
    } else {
        match address_on(lines[0]) {
            Some(text) => text,
            None => first_address(lines.drop_first()),
        }
    }
}

/// The line is the heading of an interface: it stands at the margin, and it ends in a colon or has
/// none.
pub open spec fn is_heading(line: Seq<char>) -> bool {
    line.len() > 0 && !is_white_space(line[0]) && (trimmed(line).last() == ':' || !line.contains(
        ':',
    ))
}

/// How many lines stand before the next heading.
pub open spec fn block_len(lines: Seq<Seq<char>>) -> nat
    decreases lines.len(),
{
    if lines.len() == 0 || is_heading(lines[0]) {
        0
    } else {
        1 + block_len(lines.drop_first())
    }
}

/// The hardware address and the address on the network in the lines of one interface, where it has
/// both.
pub open spec fn block_iface(block: Seq<Seq<char>>) -> Option<(Seq<char>, Seq<char>)> {
    if first_hardware(block).len() > 0 && first_address(block).len() > 0 {
        Some((first_hardware(block), first_address(block)))
    } else {
        None
    }
}

/// Both addresses of the first interface that has both.
pub open spec fn first_pair(lines: Seq<Seq<char>>) -> Option<(Seq<char>, Seq<char>)>
    decreases lines.len(),
{
    let n = block_len(lines) as int;
    match block_iface(lines.take(n)) {
        Some(pair) => Some(pair),
        None => if n < lines.len() {
            first_pair(lines.skip(n + 1))
        } else {
            None
        },
    }
}

/// Both addresses of the first interface that has both. Where none has, the first hardware address
/// alone, and where there is no such address, the first address on the network alone.
pub open spec fn iface_on(lines: Seq<Seq<char>>) -> (Seq<char>, Seq<char>) {
    match first_pair(lines) {
        Some(pair) => pair,
        None => if first_hardware(lines).len() > 0 {
            (first_hardware(lines), Seq::empty())
        } else {
            (Seq::empty(), first_address(lines))
        },
    }
}

/// The hardware address and the address on the network of the machine, by what `ipconfig` wrote.
pub open spec fn iface_view(platform: Platform, text: Option<Seq<char>>) -> (Seq<char>, Seq<char>) {
    match text {
        Some(chars) => if platform == Platform::Windows {
            iface_on(line_seq(chars))
        } else {
            (Seq::empty(), Seq::empty())
        },
        None => (Seq::empty(), Seq::empty()),
    }
}

/// The program that lists the network interfaces.
pub open spec fn ifaces_query_view() -> StepView {
    StepView::Run { program: "ipconfig"@, args: seq!["/all"@] }
}

/// The program that lists the network interfaces.
pub fn ifaces_query() -> (step: Step)
    ensures
        step.deep_view() == ifaces_query_view(),
{
    let step = run("ipconfig", &["/all"]);
    assert(step.deep_view() =~~= ifaces_query_view());
    step
}

/// The value after the first colon.
fn value_after_colon<'a>(line: &'a [char]) -> (value: Option<&'a [char]>)
    ensures
        (match value {
            Some(chars) => Some(chars@),
            None => None,
        }) == after_colon(line@),
{
    let colon: [char; 1] = [':'];
    assert(colon@ =~= seq![':']);
    let parts = split_at_each(line, &colon);
    assert(pieces(parts@).len() == parts@.len());
    if parts.len() > 1 {
        assert(pieces(parts@)[1] == parts@[1]@);
        Some(parts[1])
    } else {
        None
    }
}

/// The hardware address on a line.
fn read_hardware(line: &[char]) -> (text: Option<String>)
    ensures
        text.deep_view() == hardware_on(line@),
{
    let l = trim(line);
    let physical = chars_of("Physical Address");
    let fisico = chars_of("Endereço Físico");
    if !(has(l, physical.as_slice()) || has(l, fisico.as_slice())) {
        return None;
    }
    match value_after_colon(l) {
        Some(value) => {
            let colon: [char; 1] = [':'];
            assert(colon@ =~= seq![':']);
            let text = string_of(replace(trim(value), '-', &colon).as_slice());
            if text.as_str().as_bytes().len() >= 11 {
                Some(text)
            } else {
                None
            }
        },
        None => None,
    }
}

/// The address on the network on a line.
fn read_address(line: &[char]) -> (text: Option<String>)
    ensures
        text.deep_view() == address_on(line@),
{
    let l = trim(line);
    let physical = chars_of("Physical Address");
    let fisico = chars_of("Endereço Físico");
    let ipv4 = chars_of("IPv4");
    let endereco = chars_of("Endereço IPv4");
    if has(l, physical.as_slice()) || has(l, fisico.as_slice()) || !(starts_with(
        l,
        ipv4.as_slice(),
    ) || starts_with(l, endereco.as_slice())) {
        return None;
    }
    match value_after_colon(l) {
        Some(value) => {
            let preferred = chars_of("(Preferred)");
            let preferencial = chars_of("(Preferencial)");
            let bare = trim(
                trim_end_text(
                    trim_end_text(trim(value), preferred.as_slice()),
                    preferencial.as_slice(),
                ),
            );
            if bare.len() > 0 {
                Some(string_of(bare))
            } else {
                None
            }
        },
        None => None,
    }
}

/// Whether the line is the heading of an interface.
fn heading(line: &[char]) -> (yes: bool)
    ensures
        yes == is_heading(line@),
{
    if line.len() == 0 || white_space(line[0]) {
        return false;
    }
    let l = trim(line);
    proof {
        lemma_trimmed_not_empty(line@);
    }
    l[l.len() - 1] == ':' || !has_char(line, ':')
}

/// A line that does not begin with white space is not empty when it is trimmed.
proof fn lemma_trimmed_not_empty(line: Seq<char>)
    requires
        line.len() > 0,
        !is_white_space(line[0]),
    ensures
        trimmed(line).len() > 0,
{
    reveal_with_fuel(trim_front, 2);
    lemma_trim_back_keeps_front(line);
}

/// What begins with no white space still does when its end is trimmed.
proof fn lemma_trim_back_keeps_front(line: Seq<char>)
    requires
        line.len() > 0,
        !is_white_space(line[0]),
    ensures
        trim_back(line, white()).len() > 0,
        trim_back(line, white())[0] == line[0],
    decreases line.len(),
{
    if is_white_space(line.last()) {
        lemma_trim_back_keeps_front(line.drop_last());
    }
}

/// The end of the lines from `from` on that belong to one interface.
fn block_end(parts: &Vec<&[char]>, from: usize) -> (end: usize)
    requires
        from <= parts@.len(),
    ensures
        from <= end <= parts@.len(),
        end - from == block_len(pieces(parts@).skip(from as int)),
{
    let ghost all = pieces(parts@);
    let mut end: usize = from;
    while end < parts.len()
        invariant
            from <= end <= parts@.len(),
            all == pieces(parts@),
            block_len(all.skip(from as int)) == end - from + block_len(all.skip(end as int)),
        ensures
            from <= end <= parts@.len(),
            block_len(all.skip(from as int)) == end - from,
        decreases parts@.len() - end,
    {
        assert(all.skip(end as int)[0] == parts@[end as int]@);
        assert(all.skip(end as int).drop_first() =~= all.skip(end as int + 1));
        if heading(parts[end]) {
            break;
        }
        end = end + 1;
    }
    end
}

/// The addresses of an interface, in the lines from `from` to `end`: empty where it has none.
fn read_block(parts: &Vec<&[char]>, from: usize, end: usize) -> (found: (String, String))
    requires
        from <= end <= parts@.len(),
    ensures
        found.0@ == first_hardware(pieces(parts@).subrange(from as int, end as int)),
        found.1@ == first_address(pieces(parts@).subrange(from as int, end as int)),
{
    let ghost block = pieces(parts@).subrange(from as int, end as int);
    let mut mac: Option<String> = None;
    let mut ip4: Option<String> = None;
    assert(block.skip(0) =~= block);
    for i in from..end
        invariant
            from <= end <= parts@.len(),
            block == pieces(parts@).subrange(from as int, end as int),
            first_hardware(block) == (match mac {
                Some(found) => found@,
                None => first_hardware(block.skip(i - from)),
            }),
            first_address(block) == (match ip4 {
                Some(found) => found@,
                None => first_address(block.skip(i - from)),
            }),
    {
        assert(block.skip(i - from)[0] == parts@[i as int]@);
        assert(block.skip(i - from).drop_first() =~= block.skip(i - from + 1));
        if mac.is_none() {
            mac = read_hardware(parts[i]);
        }
        if ip4.is_none() {
            ip4 = read_address(parts[i]);
        }
    }
    assert(block.skip(end - from) =~= Seq::<Seq<char>>::empty());
    let found_mac = match mac {
        Some(text) => text,
        None => String::new(),
    };
    let found_ip4 = match ip4 {
        Some(text) => text,
        None => String::new(),
    };
    (found_mac, found_ip4)
}

/// Both addresses of the first interface that has both.
fn read_pair(parts: &Vec<&[char]>) -> (found: Option<(String, String)>)
    ensures
        found.deep_view() == first_pair(pieces(parts@)),
{
    let ghost all = pieces(parts@);
    let mut from: usize = 0;
    assert(all.skip(0) =~= all);
    loop
        invariant
            from <= parts@.len(),
            all == pieces(parts@),
            first_pair(all) == first_pair(all.skip(from as int)),
        decreases parts@.len() - from,
    {
        let end: usize = block_end(parts, from);
        let (mac, ip4) = read_block(parts, from, end);
        assert(all.skip(from as int).take(end - from) =~= all.subrange(from as int, end as int));
        if !mac.as_str().is_empty() && !ip4.as_str().is_empty() {
            return Some((mac, ip4));
        }
        if end >= parts.len() {
            return None;
        }
        assert(all.skip(from as int).skip(end - from + 1) =~= all.skip(end as int + 1));
        from = end + 1;
    }
}

/// The hardware address and the address on the network of the machine, by the text that `ipconfig`
/// wrote.
pub fn iface_in(text: &str) -> (found: (String, String))
    ensures
        found.deep_view() == iface_on(line_seq(text@)),
{
    let chars = chars_of(text);
    let parts = lines(chars.as_slice());
    if let Some(pair) = read_pair(&parts) {
        return pair;
    }
    let (mac, ip4) = read_block(&parts, 0, parts.len());
    let ghost all = pieces(parts@);
    assert(all.subrange(0, all.len() as int) =~= all);
    if mac.as_str().is_empty() {
        let found = (String::new(), ip4);
        assert(found.deep_view().0 =~= Seq::<char>::empty());
        found
    } else {
        let found = (mac, String::new());
        assert(found.deep_view().1 =~= Seq::<char>::empty());
        found
    }
}

/// The hardware address and the address on the network of the machine, by what `ipconfig` wrote.
pub fn first_iface(platform: Platform, output: Option<&[u8]>) -> (found: (String, String))
    ensures
        found.deep_view() == iface_view(platform, output_view(output)),
{
    if platform == Platform::Other {
        return (String::new(), String::new());
    }
    match output_text(output) {
        Some(text) => iface_in(text.as_str()),
        None => (String::new(), String::new()),
    }
}

/// At most 120 services are reported.
pub proof fn law_services_report_is_short(value: JsonView)
    ensures
        services_report(value)->Array_0.len() <= 120,
{
}

/// Two addresses of different interfaces are never reported together: where both are there, they
/// are found in the same lines, among which no heading stands.
pub proof fn law_addresses_are_of_one_interface(lines: Seq<Seq<char>>)
    requires
        iface_on(lines).0.len() > 0,
        iface_on(lines).1.len() > 0,
    ensures
        exists|from: int, end: int|
            0 <= from <= end <= lines.len() && block_iface(#[trigger] lines.subrange(from, end))
                == Some(iface_on(lines)) && has_no_heading(lines.subrange(from, end)),
{
    assert(first_pair(lines) is Some);
    lemma_pair_is_of_one_interface(lines);
}

/// A hardware address is reported wherever there is one.
pub proof fn law_hardware_address_is_reported(lines: Seq<Seq<char>>)
    requires
        first_hardware(lines).len() > 0,
    ensures
        iface_on(lines).0.len() > 0,
{
    if first_pair(lines) is Some {
        lemma_pair_is_of_one_interface(lines);
    }
}

/// The pair that is found is that of one interface.
proof fn lemma_pair_is_of_one_interface(lines: Seq<Seq<char>>)
    requires
        first_pair(lines) is Some,
    ensures
        exists|from: int, end: int|
            0 <= from <= end <= lines.len() && block_iface(#[trigger] lines.subrange(from, end))
                == first_pair(lines) && has_no_heading(lines.subrange(from, end)),
    decreases lines.len(),
{
    let n = block_len(lines) as int;
    lemma_block_has_no_heading(lines);
    if block_iface(lines.take(n)) is Some {
        assert(lines.take(n) =~= lines.subrange(0, n));
    } else {
        let rest = lines.skip(n + 1);
        lemma_pair_is_of_one_interface(rest);
        let (from, end) = choose|from: int, end: int|
            0 <= from <= end <= rest.len() && block_iface(#[trigger] rest.subrange(from, end))
                == first_pair(rest) && has_no_heading(rest.subrange(from, end));
        assert(rest.subrange(from, end) =~= lines.subrange(from + n + 1, end + n + 1));
    }
}

/// No line is a heading.
pub open spec fn has_no_heading(lines: Seq<Seq<char>>) -> bool {
    forall|i: int| 0 <= i < lines.len() ==> !is_heading(#[trigger] lines[i])
}

/// The lines before the next heading hold no heading.
proof fn lemma_block_has_no_heading(lines: Seq<Seq<char>>)
    ensures
        block_len(lines) <= lines.len(),
        has_no_heading(lines.take(block_len(lines) as int)),
    decreases lines.len(),
{
    if lines.len() > 0 && !is_heading(lines[0]) {
        let rest = lines.drop_first();
        lemma_block_has_no_heading(rest);
        let block = lines.take(block_len(lines) as int);
        assert forall|i: int| 0 <= i < block.len() implies !is_heading(#[trigger] block[i]) by {
            if i > 0 {
                assert(block[i] == rest.take(block_len(rest) as int)[i - 1]);
            }
        }
    }
}

/// Each service is reported in its place with its name, and it runs exactly where its status is four:
/// all of them up to 120, and a single one that is no list as well.
pub proof fn law_every_service_is_reported(value: JsonView, items: Seq<JsonView>, i: int)
    requires
        value == JsonView::Array(items) || (!(value is Array) && items == seq![value]),
        0 <= i < items.len(),
        i < 120,
    ensures
        ({
            let reports = services_view(Platform::Windows, Some(value))->Array_0;
            let fields = reports[i]->Object_0;
            &&& services_view(Platform::Windows, Some(value)) is Array
            &&& reports.len() == (if items.len() < 120 {
                items.len()
            } else {
                120
            })
            &&& reports[i] is Object && fields.len() == 3
            &&& fields[0] == ("name"@, JsonView::Text(items[i].text_field("Name"@)))
            &&& fields[1] == ("display"@, JsonView::Text(items[i].text_field("DisplayName"@)))
            &&& fields[2] == (
                "running"@,
                JsonView::Bool(
                    items[i].field("Status"@) == Some(JsonView::Unsigned(4))
                        || items[i].field("Status"@) == Some(JsonView::Negative(4)),
                ),
            )
        }),
        services_view(Platform::Other, Some(value)) == JsonView::Array(Seq::empty()),
        services_view(Platform::Windows, None) == JsonView::Array(Seq::empty()),
{
}

/// What the script wrote of processes by processor time is reported as it is: a list as that list,
/// and any other value as a list of one.
pub proof fn law_processes_by_time_are_reported_as_written(items: Seq<JsonView>, value: JsonView)
    ensures
        processes_cpu_view(Platform::Windows, Some(JsonView::Array(items))) == JsonView::Array(
            items,
        ),
        !(value is Array) ==> processes_cpu_view(Platform::Windows, Some(value)) == JsonView::Array(
            seq![value],
        ),
        processes_cpu_view(Platform::Windows, None) == JsonView::Array(Seq::empty()),
        processes_cpu_view(Platform::Other, Some(value)) == JsonView::Array(Seq::empty()),
{
}

/// A value as a list: a list stays, null is the empty list, and any other value is a list of one.
pub proof fn law_values_become_lists(value: JsonView)
    ensures
        value is Array ==> listed(value) == value,
        value == JsonView::Null ==> listed(value) == JsonView::Array(Seq::empty()),
        !(value is Array) && value != JsonView::Null ==> listed(value) == JsonView::Array(
            seq![value],
        ),
        or_null(Some(value)) == value,
        or_null(None) == JsonView::Null,
{
}

/// The share of memory in use is the largest whole percentage that does not exceed it.
pub proof fn law_share_of_memory_is_in_whole_per_cent(used: u64, total: u64)
    requires
        used <= total,
        total > 0,
    ensures
        used_percent(used, total) * total <= used * 100,
        used * 100 < (used_percent(used, total) + 1) * total,
        used_percent(used, 0) == 0,
{
    let u = used as int;
    let t = total as int;
    let q = u * 100 / t;
    assert(0 <= q <= 100 && q * t <= u * 100 && u * 100 < (q + 1) * t) by (nonlinear_arith)
        requires
            q == u * 100 / t,
            0 <= u <= t,
            t > 0,
    ;
    assert(used_percent(used, total) == q);
}

/// A line of `ipconfig`: a label, a colon, and a value, with white space around the line and around
/// the value.
pub open spec fn is_labelled(
    before: Seq<char>,
    label: Seq<char>,
    gap: Seq<char>,
    value: Seq<char>,
    after: Seq<char>,
) -> bool {
    &&& forall|i: int| 0 <= i < before.len() ==> is_white_space(#[trigger] before[i])
    &&& forall|i: int| 0 <= i < gap.len() ==> is_white_space(#[trigger] gap[i])
    &&& forall|i: int| 0 <= i < after.len() ==> is_white_space(#[trigger] after[i])
    &&& label.len() > 0 && !is_white_space(label[0]) && !label.contains(':')
    &&& value.len() > 0 && !is_white_space(value[0]) && !is_white_space(value.last())
    &&& !value.contains(':')
}

/// The value of a labelled line stands behind its colon.
proof fn lemma_labelled(
    before: Seq<char>,
    label: Seq<char>,
    gap: Seq<char>,
    value: Seq<char>,
    after: Seq<char>,
)
    requires
        is_labelled(before, label, gap, value, after),
    ensures
        ({
            let line = before + (label + seq![':'] + (gap + value)) + after;
            &&& trimmed(line) == label + seq![':'] + (gap + value)
            &&& after_colon(trimmed(line)) == Some(gap + value)
            &&& trimmed(gap + value) == value
        }),
{
    let tail = gap + value;
    let inner = label + seq![':'] + tail;
    assert(inner[0] == label[0] && inner.last() == value.last());
    law_white_space_around_is_trimmed(before, inner, after);
    law_white_space_around_is_trimmed(gap, value, Seq::empty());
    assert(gap + value + Seq::<char>::empty() =~= tail);
    lemma_first_part(label, ':', tail);
    assert(!tail.contains(':')) by {
        if tail.contains(':') {
            let i = choose|i: int| 0 <= i < tail.len() && tail[i] == ':';
            if i < gap.len() {
                assert(is_white_space(gap[i]));
            } else {
                assert(value[i - gap.len()] == ':');
            }
        }
    }
    lemma_only_part(tail, ':');
    assert(split(inner, seq![':']) =~= seq![label, tail]);
}

/// The hardware address is read on every line whose label names one, in either language, whatever
/// else the label says: with colons for hyphens, if it has eleven bytes at least.
pub proof fn law_hardware_address_is_read(
    before: Seq<char>,
    a: Seq<char>,
    b: Seq<char>,
    gap: Seq<char>,
    value: Seq<char>,
    after: Seq<char>,
)
    requires
        is_labelled(before, a + "Physical Address"@ + b, gap, value, after) || is_labelled(
            before,
            a + "Endereço Físico"@ + b,
            gap,
            value,
            after,
        ),
    ensures
        ({
            let mac = replaced(value, '-', seq![':']);
            let read = if encode_utf8(mac).len() >= 11 {
                Some(mac)
            } else {
                None
            };
            &&& is_labelled(before, a + "Physical Address"@ + b, gap, value, after) ==> hardware_on(
                before + (a + "Physical Address"@ + b + seq![':'] + (gap + value)) + after,
            ) == read
            &&& is_labelled(before, a + "Endereço Físico"@ + b, gap, value, after) ==> hardware_on(
                before + (a + "Endereço Físico"@ + b + seq![':'] + (gap + value)) + after,
            ) == read
        }),
{
    if is_labelled(before, a + "Physical Address"@ + b, gap, value, after) {
        lemma_labelled(before, a + "Physical Address"@ + b, gap, value, after);
        let inner = a + "Physical Address"@ + b + seq![':'] + (gap + value);
        lemma_stands_between(a, "Physical Address"@, b + seq![':'] + (gap + value));
        assert(inner =~= a + "Physical Address"@ + (b + seq![':'] + (gap + value)));
    }
    if is_labelled(before, a + "Endereço Físico"@ + b, gap, value, after) {
        lemma_labelled(before, a + "Endereço Físico"@ + b, gap, value, after);
        let inner = a + "Endereço Físico"@ + b + seq![':'] + (gap + value);
        lemma_stands_between(a, "Endereço Físico"@, b + seq![':'] + (gap + value));
        assert(inner =~= a + "Endereço Físico"@ + (b + seq![':'] + (gap + value)));
    }
}

/// The address on the network is read on every line whose label begins with "IPv4", in either
/// language, whatever else the label says, without the word that may follow it.
pub proof fn law_network_address_is_read(
    before: Seq<char>,
    b: Seq<char>,
    gap: Seq<char>,
    ip: Seq<char>,
    after: Seq<char>,
    portuguese: bool,
    remark: int,
)
    requires
        ({
            let label = (if portuguese {
                "Endereço IPv4"@
            } else {
                "IPv4"@
            }) + b;
            let word = if remark == 1 {
                "(Preferred)"@
            } else if remark == 2 {
                "(Preferencial)"@
            } else {
                Seq::empty()
            };
            &&& is_labelled(before, label, gap, ip + word, after)
            &&& !is_hardware_line(label + seq![':'] + (gap + (ip + word)))
        }),
        0 <= remark <= 2,
        ip.len() > 0 && !is_white_space(ip[0]) && !is_white_space(ip.last()),
        ip.last() != ')',
    ensures
        ({
            let label = (if portuguese {
                "Endereço IPv4"@
            } else {
                "IPv4"@
            }) + b;
            let word = if remark == 1 {
                "(Preferred)"@
            } else if remark == 2 {
                "(Preferencial)"@
            } else {
                Seq::empty()
            };
            address_on(before + (label + seq![':'] + (gap + (ip + word))) + after) == Some(ip)
        }),
{
    let head = if portuguese {
        "Endereço IPv4"@
    } else {
        "IPv4"@
    };
    let word = if remark == 1 {
        "(Preferred)"@
    } else if remark == 2 {
        "(Preferencial)"@
    } else {
        Seq::empty()
    };
    let label = head + b;
    let value = ip + word;
    lemma_labelled(before, label, gap, value, after);
    let inner = label + seq![':'] + (gap + value);
    assert(inner.subrange(0, head.len() as int) =~= head);
    assert(begins_with(inner, head));
    reveal_strlit("(Preferred)");
    reveal_strlit("(Preferencial)");
    lemma_no_remark(ip, "(Preferred)"@);
    lemma_no_remark(ip, "(Preferencial)"@);
    lemma_trimmed_already(ip);
    if remark == 1 {
        assert(value.subrange(ip.len() as int, value.len() as int) =~= word);
        assert(value.take(ip.len() as int) =~= ip);
    } else if remark == 2 {
        assert(value.subrange(ip.len() as int, value.len() as int) =~= word);
        assert(value.take(ip.len() as int) =~= ip);
        if ends_in(value, "(Preferred)"@) {
            let n = value.len() - 11;
            assert(value.subrange(n, n + 11)[9] == "(Preferred)"@[9]);
            assert(value[n + 9] == word[12]);
        }
    } else {
        assert(value =~= ip);
    }
}

/// A text that does not end in a bracket does not end in a remark.
proof fn lemma_no_remark(ip: Seq<char>, word: Seq<char>)
    requires
        ip.len() > 0,
        ip.last() != ')',
        word.len() > 0 && word.last() == ')',
    ensures
        trim_suffix(ip, word) == ip,
{
    if ends_in(ip, word) {
        let n = ip.len() - word.len();
        assert(ip.subrange(n, n + word.len())[word.len() - 1] == word[word.len() - 1]);
    }
}

/// The first line with an address counts, whatever follows it, and lines without one are passed over.
pub proof fn law_first_address_counts(
    before: Seq<Seq<char>>,
    line: Seq<char>,
    behind: Seq<Seq<char>>,
)
    ensures
        (forall|i: int| 0 <= i < before.len() ==> hardware_on(#[trigger] before[i]) is None) && (
        hardware_on(line) matches Some(mac)) ==> first_hardware(before + seq![line] + behind)
            == hardware_on(line)->0,
        (forall|i: int| 0 <= i < before.len() ==> address_on(#[trigger] before[i]) is None) && (
        address_on(line) matches Some(ip)) ==> first_address(before + seq![line] + behind)
            == address_on(line)->0,
        first_hardware(Seq::empty()) == Seq::<char>::empty(),
        first_address(Seq::empty()) == Seq::<char>::empty(),
        (forall|i: int| 0 <= i < before.len() ==> hardware_on(#[trigger] before[i]) is None)
            ==> first_hardware(before) == Seq::<char>::empty(),
        (forall|i: int| 0 <= i < before.len() ==> address_on(#[trigger] before[i]) is None)
            ==> first_address(before) == Seq::<char>::empty(),
    decreases before.len(),
{
    let all = before + seq![line] + behind;
    if before.len() == 0 {
        assert(all[0] == line);
    } else {
        let rest = before.drop_first();
        law_first_address_counts(rest, line, behind);
        assert(all[0] == before[0]);
        assert(all.drop_first() =~= rest + seq![line] + behind);
        assert forall|i: int| 0 <= i < rest.len() implies #[trigger] rest[i] == before[i + 1] by {}
    }
}

/// The first interface that has both addresses counts: one before it that lacks one of them is passed
/// over, and what follows it changes nothing.
pub proof fn law_first_complete_interface_counts(
    block: Seq<Seq<char>>,
    heading: Seq<char>,
    rest: Seq<Seq<char>>,
)
    requires
        has_no_heading(block),
        is_heading(heading),
    ensures
        first_hardware(block).len() > 0 && first_address(block).len() > 0 ==> iface_on(
            block + seq![heading] + rest,
        ) == (first_hardware(block), first_address(block)) && iface_on(block) == (
            first_hardware(block),
            first_address(block),
        ),
        first_hardware(block).len() == 0 || first_address(block).len() == 0 ==> (first_pair(rest)
            matches Some(pair) ==> iface_on(block + seq![heading] + rest) == pair),
{
    let all = block + seq![heading] + rest;
    lemma_block_ends_at_heading(block, heading, rest);
    assert(all.take(block.len() as int) =~= block);
    assert(all.skip(block.len() as int + 1) =~= rest);
    assert(block.take(block.len() as int) =~= block);
}

/// A block ends at the heading behind it, or at the end of the lines.
proof fn lemma_block_ends_at_heading(
    block: Seq<Seq<char>>,
    heading: Seq<char>,
    rest: Seq<Seq<char>>,
)
    requires
        has_no_heading(block),
        is_heading(heading),
    ensures
        block_len(block + seq![heading] + rest) == block.len(),
        block_len(block) == block.len(),
    decreases block.len(),
{
    let all = block + seq![heading] + rest;
    if block.len() == 0 {
        assert(all[0] == heading);
    } else {
        let less = block.drop_first();
        assert forall|i: int| 0 <= i < less.len() implies !is_heading(#[trigger] less[i]) by {
            assert(less[i] == block[i + 1]);
        }
        lemma_block_ends_at_heading(less, heading, rest);
        assert(all[0] == block[0]);
        assert(!is_heading(block[0]));
        assert(all.drop_first() =~= less + seq![heading] + rest);
    }
}

/// A line at the margin that ends in a colon is a heading, and an indented line is none.
pub proof fn law_headings_stand_at_the_margin(name: Seq<char>, blank: char, line: Seq<char>)
    requires
        name.len() > 0 && !is_white_space(name[0]),
        is_white_space(blank),
    ensures
        is_heading(name.push(':')),
        !is_heading(seq![blank] + line),
        !is_heading(Seq::empty()),
{
    let heading = name.push(':');
    assert(heading[0] == name[0]);
    lemma_trimmed_already(heading);
    assert((seq![blank] + line)[0] == blank);
}

/// On other platforms nothing is known of the interface, nor where `ipconfig` could not be run.
pub proof fn law_only_windows_knows_the_interface(text: Seq<char>)
    ensures
        iface_view(Platform::Other, Some(text)) == (Seq::<char>::empty(), Seq::<char>::empty()),
        iface_view(Platform::Windows, None) == (Seq::<char>::empty(), Seq::<char>::empty()),
        iface_view(Platform::Windows, Some(text)) == iface_on(line_seq(text)),
{
}

/// Only a line that begins with "IPv4", in either language, and names no hardware address gives an
/// address on the network, and only one whose label names a hardware address gives such an address.
/// A line without a colon gives neither.
pub proof fn law_other_lines_give_no_address(line: Seq<char>)
    ensures
        address_on(line) is Some ==> {
            &&& trimmed(line).contains(':')
            &&& (exists|rest: Seq<char>| trimmed(line) == #[trigger] ("IPv4"@ + rest)) || (exists|
                rest: Seq<char>,
            | trimmed(line) == #[trigger] ("Endereço IPv4"@ + rest))
            &&& forall|a: Seq<char>, b: Seq<char>|
                trimmed(line) != #[trigger] (a + "Physical Address"@ + b)
            &&& forall|a: Seq<char>, b: Seq<char>|
                trimmed(line) != #[trigger] (a + "Endereço Físico"@ + b)
            &&& address_on(line)->0.len() > 0
        },
        hardware_on(line) is Some ==> {
            &&& trimmed(line).contains(':')
            &&& contains(trimmed(line), "Physical Address"@) || contains(
                trimmed(line),
                "Endereço Físico"@,
            )
            &&& !hardware_on(line)->0.contains('-')
        },
{
    let l = trimmed(line);
    if !l.contains(':') {
        lemma_only_part(l, ':');
    }
    law_beginnings_and_endings(l, "IPv4"@);
    law_beginnings_and_endings(l, "Endereço IPv4"@);
    if address_on(line) is Some {
        assert forall|a: Seq<char>, b: Seq<char>| l != #[trigger] (a + "Physical Address"@ + b) by {
            lemma_stands_between(a, "Physical Address"@, b);
        }
        assert forall|a: Seq<char>, b: Seq<char>| l != #[trigger] (a + "Endereço Físico"@ + b) by {
            lemma_stands_between(a, "Endereço Físico"@, b);
        }
    }
    if let Some(value) = after_colon(l) {
        lemma_replaced_is_gone(trimmed(value), '-', ':');
    }
}

/// A character that is replaced by another is gone.
proof fn lemma_replaced_is_gone(s: Seq<char>, c: char, other: char)
    requires
        c != other,
    ensures
        !replaced(s, c, seq![other]).contains(c),
    decreases s.len(),
{
    if s.len() > 0 {
        let front = replaced(s.drop_last(), c, seq![other]);
        lemma_replaced_is_gone(s.drop_last(), c, other);
        let whole = replaced(s, c, seq![other]);
        assert(whole =~= front.push(if s.last() == c {
            other
        } else {
            s.last()
        }));
        assert forall|i: int| 0 <= i < whole.len() implies whole[i] != c by {
            if i < front.len() {
                assert(front[i] != c);
            }
        }
    }
}

/// The interfaces are listed by `ipconfig` in full, and the services and the processes by these
/// scripts.
pub proof fn law_lists_are_written_by_these_programs()
    ensures
        ifaces_query_view() matches StepView::Run { program, args } && program == "ipconfig"@ && args
            == seq!["/all"@],
        SERVICES_SCRIPT@
            == "Get-Service | Sort-Object Status,DisplayName | Select-Object -First 200 Name,DisplayName,Status | ConvertTo-Json -Compress"@,
        PROCESSES_CPU_SCRIPT@
            == "Get-Process | Sort-Object CPU -Descending | Select-Object -First 15 Name,@{n='cpuSec';e={[int]($_.CPU)}},@{n='memMB';e={[int]($_.WS/1MB)}} | ConvertTo-Json -Compress"@,
{
}

} // verus!
