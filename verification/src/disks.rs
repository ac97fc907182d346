//! The disks of the machine, out of the table that `wmic` writes.

use vstd::prelude::*;
use crate::command::{output_text, output_view, run, Platform, Step, StepView};
use crate::inventory::GIBIBYTE;
use crate::json::{push_field, push_item, Json, JsonView};
use crate::text::{
    chars_of, decimal, is_digit, is_white_space, law_decimal_is_digits, law_decimal_parses_back,
    law_lines_end_at_line_feeds, law_other_texts_are_no_numerals,
    law_white_space_around_is_trimmed, lemma_first_part, lemma_only_part, line_seq, lines, parse,
    parsed, pieces, split, split_at_each, string_of, trim, trimmed,
};

verus! {

/// One disk: where it is mounted, its bytes, and how many of them are free.
pub struct DiskView {
    pub mount: Seq<char>,
    pub free: u64,
    pub total: u64,
}

impl DiskView {
    /// The bytes in use.
    pub open spec fn used(self) -> int {
        if self.free <= self.total {
            self.total - self.free
        } else {
            0
        }
    }

    /// What is reported of the disk.
    pub open spec fn report(self) -> JsonView {
        JsonView::Object(
            seq![
                ("mount"@, JsonView::Text(self.mount)),
                ("totalGB"@, JsonView::Unsigned(self.total / GIBIBYTE)),
                ("usedPct"@, JsonView::Unsigned((self.used() * 100 / self.total as int) as u64)),
            ],
        )
    }
}

/// The number in a cell, zero where it holds none.
pub open spec fn number_in(cell: Seq<char>) -> u64 {
    match parsed(trimmed(cell), 10, u64::MAX as int) {
        Some(n) => n as u64,
        None => 0,
    }
}

/// The disk on a line of the table: the second cell is where it is mounted, the third its free
/// bytes, the fourth its bytes. A line with fewer cells, without a mount or without bytes is none.
pub open spec fn disk_on(line: Seq<char>) -> Option<DiskView> {
    let cells = split(line, seq![',']);
    if cells.len() < 4 {
        None
    } else {
        let mount = trimmed(cells[1]);
        let total = number_in(cells[3]);
        if total == 0 || mount.len() == 0 {
            None
        } else {
            Some(DiskView { mount, free: number_in(cells[2]), total })
        }
    }
}

/// The disks on the lines.
pub open spec fn disks_on(lines: Seq<Seq<char>>) -> Seq<DiskView>
    decreases lines.len(),
{
    if lines.len() == 0 {
        Seq::empty()
    } else {
        match disk_on(lines.last()) {
            Some(disk) => disks_on(lines.drop_last()).push(disk),
            None => disks_on(lines.drop_last()),
        }
    }
}

/// The disks in the table. Its first line is the heading.
pub open spec fn disks_in(text: Seq<char>) -> Seq<DiskView> {
    let all = line_seq(text);
    if all.len() == 0 {
        Seq::empty()
    } else {
        disks_on(all.drop_first())
    }
}

/// What is reported of disks.
pub open spec fn disk_reports(disks: Seq<DiskView>) -> JsonView {
    JsonView::Array(disks.map_values(|disk: DiskView| disk.report()))
}

/// What is reported of the disks, by the table.
pub open spec fn disks_view(platform: Platform, text: Option<Seq<char>>) -> JsonView {
    match text {
        Some(chars) => if platform == Platform::Windows {
            disk_reports(disks_in(chars))
        } else {
            JsonView::Array(Seq::empty())
        },
        None => JsonView::Array(Seq::empty()),
    }
}

/// The program that writes the table.
pub open spec fn disks_query_view() -> StepView {
    StepView::Run {
        program: "wmic"@,
        args: seq![
            "logicaldisk"@,
            "where"@,
            "drivetype=3"@,
            "get"@,
            "Caption,Size,FreeSpace"@,
            "/FORMAT:CSV"@,
        ],
    }
}

/// The program that writes the table.
pub fn disks_query() -> (step: Step)
    ensures
        step.deep_view() == disks_query_view(),
{
    let step = run(
        "wmic",
        &["logicaldisk", "where", "drivetype=3", "get", "Caption,Size,FreeSpace", "/FORMAT:CSV"],
    );
    assert(step.deep_view() =~~= disks_query_view());
    step
}

/// The number in a cell.
fn cell_number(cell: &[char]) -> (number: u64)
    ensures
        number == number_in(cell@),
{
    match parse(trim(cell), 10, u64::MAX) {
        Some(n) => n,
        None => 0,
    }
}

/// The bytes in use, in whole per cent of all.
fn percent_of(used: u64, total: u64) -> (percent: u64)
    requires
        used <= total,
        total > 0,
    ensures
        percent == used * 100 / total as int,
{
    assert(0 <= used * 100 / total as int <= 100) by (nonlinear_arith)
        requires
            0 <= used <= total,
            total > 0,
    ;
    (used as u128 * 100 / total as u128) as u64
}

/// Reads a line of the table: the report on its disk, if it has one.
fn read_line(line: &[char]) -> (found: Option<Json>)
    ensures
        found.deep_view() == (match disk_on(line@) {
            Some(disk) => Some(disk.report()),
            None => None,
        }),
{
    let comma: [char; 1] = [','];
    assert(comma@ =~= seq![',']);
    let cells = split_at_each(line, &comma);
    assert(pieces(cells@).len() == cells@.len());
    if cells.len() < 4 {
        return None;
    }
    assert(pieces(cells@)[1] == cells@[1]@);
    assert(pieces(cells@)[2] == cells@[2]@);
    assert(pieces(cells@)[3] == cells@[3]@);
    let mount = trim(cells[1]);
    let free: u64 = cell_number(cells[2]);
    let total: u64 = cell_number(cells[3]);
    if total == 0 || mount.len() == 0 {
        return None;
    }
    let ghost disk = DiskView { mount: mount@, free, total };
    let used: u64 = total.saturating_sub(free);
    assert(used == disk.used());
    let mut fields: Vec<(String, Json)> = Vec::new();
    push_field(&mut fields, "mount", Json::Text(string_of(mount)));
    push_field(&mut fields, "totalGB", Json::Unsigned(total / GIBIBYTE));
    push_field(&mut fields, "usedPct", Json::Unsigned(percent_of(used, total)));
    assert(fields.deep_view() =~= disk.report()->Object_0);
    Some(Json::object(fields))
}

/// What is reported of the disks in a table.
pub fn report_disks(text: &str) -> (report: Json)
    ensures
        report@ == disk_reports(disks_in(text@)),
{
    let chars = chars_of(text);
    let parts = lines(chars.as_slice());
    let ghost all = pieces(parts@);
    let ghost rest = all.drop_first();
    let mut reports: Vec<Json> = Vec::new();
    if parts.len() == 0 {
        assert(disk_reports(disks_in(text@))->Array_0 =~= Seq::empty());
        return Json::empty_array();
    }
    assert(reports.deep_view() =~= disk_reports(disks_on(rest.take(0)))->Array_0);
    for i in 1..parts.len()
        invariant
            parts@.len() > 0,
            all == pieces(parts@),
            rest == all.drop_first(),
            reports.deep_view() == disk_reports(disks_on(rest.take(i - 1)))->Array_0,
    {
        assert(rest[i - 1] == parts@[i as int]@);
        assert(rest.take(i as int).drop_last() =~= rest.take(i - 1));
        if let Some(report) = read_line(parts[i]) {
            push_item(&mut reports, report);
        }
        assert(reports.deep_view() =~= disk_reports(disks_on(rest.take(i as int)))->Array_0);
    }
    assert(rest.take(rest.len() as int) =~= rest);
    Json::array(reports)
}

/// What is reported of the disks, by what `wmic` wrote.
pub fn collect_disks(platform: Platform, output: Option<&[u8]>) -> (report: Json)
    ensures
        report@ == disks_view(platform, output_view(output)),
{
    if platform == Platform::Windows {
        if let Some(text) = output_text(output) {
            return report_disks(text.as_str());
        }
    }
    Json::empty_array()
}

/// The share of a disk that is in use is a percentage.
pub proof fn law_used_share_is_a_percentage(disk: DiskView)
    requires
        disk.total > 0,
    ensures
        0 <= disk.used() * 100 / disk.total as int <= 100,
{
    let used = disk.used();
    let total = disk.total as int;
    assert(0 <= used * 100 / total <= 100) by (nonlinear_arith)
        requires
            0 <= used <= total,
            total > 0,
    ;
}

/// A cell: a text with white space around it, none of which is a comma.
pub open spec fn is_cell(before: Seq<char>, inner: Seq<char>, after: Seq<char>) -> bool {
    &&& forall|i: int| 0 <= i < before.len() ==> is_white_space(#[trigger] before[i])
    &&& forall|i: int| 0 <= i < after.len() ==> is_white_space(#[trigger] after[i])
    &&& inner.len() > 0 ==> !is_white_space(inner[0]) && !is_white_space(inner.last())
    &&& !inner.contains(',')
}

/// A cell has no comma in it and is read without the white space around it.
proof fn lemma_cell(before: Seq<char>, inner: Seq<char>, after: Seq<char>)
    requires
        is_cell(before, inner, after),
    ensures
        trimmed(before + inner + after) == inner,
        !(before + inner + after).contains(','),
{
    law_white_space_around_is_trimmed(before, inner, after);
    let cell = before + inner + after;
    if cell.contains(',') {
        let i = choose|i: int| 0 <= i < cell.len() && cell[i] == ',';
        if i < before.len() {
            assert(is_white_space(before[i]));
        } else if i < before.len() + inner.len() {
            assert(inner[i - before.len()] == ',');
        } else {
            assert(is_white_space(after[i - before.len() - inner.len()]));
        }
    }
}

/// A decimal numeral is a cell.
proof fn lemma_number_cell(before: Seq<char>, n: u64, after: Seq<char>)
    requires
        is_cell(before, Seq::empty(), after),
    ensures
        !(before + decimal(n as nat) + after).contains(','),
        number_in(before + decimal(n as nat) + after) == n,
{
    let digits = decimal(n as nat);
    law_decimal_is_digits(n as nat);
    assert(is_digit(digits[0]) && is_digit(digits[digits.len() - 1]));
    if digits.contains(',') {
        let i = choose|i: int| 0 <= i < digits.len() && digits[i] == ',';
        assert(is_digit(digits[i]));
    }
    lemma_cell(before, digits, after);
    law_decimal_parses_back(n as nat, u64::MAX as int);
}

/// The line of every disk is read, whatever machine it names, whatever white space stands around its
/// cells, and whatever further cells follow: where it is mounted, its free bytes, and its bytes.
pub proof fn law_line_of_every_disk_is_read(
    node: Seq<char>,
    mount: Seq<char>,
    free: u64,
    total: u64,
    before: Seq<char>,
    after: Seq<char>,
    rest: Seq<char>,
)
    requires
        !node.contains(','),
        is_cell(before, mount, after),
        is_cell(before, Seq::empty(), after),
        rest.len() == 0 || rest[0] == ',',
    ensures
        ({
            let line = node + seq![','] + (before + mount + after + seq![','] + (before + decimal(
                free as nat,
            ) + after + seq![','] + (before + decimal(total as nat) + after + rest)));
            disk_on(line) == (if mount.len() > 0 && total > 0 {
                Some(DiskView { mount, free, total })
            } else {
                None
            })
        }),
{
    let m = before + mount + after;
    let f = before + decimal(free as nat) + after;
    let t = before + decimal(total as nat) + after;
    lemma_cell(before, mount, after);
    lemma_number_cell(before, free, after);
    lemma_number_cell(before, total, after);
    let line = node + seq![','] + (m + seq![','] + (f + seq![','] + (t + rest)));
    lemma_first_part(node, ',', m + seq![','] + (f + seq![','] + (t + rest)));
    lemma_first_part(m, ',', f + seq![','] + (t + rest));
    lemma_first_part(f, ',', t + rest);
    let cells = split(line, seq![',']);
    if rest.len() == 0 {
        assert(t + rest =~= t);
        lemma_only_part(t, ',');
        assert(cells =~= seq![node, m, f, t]);
    } else {
        assert(t + rest =~= t + seq![','] + rest.drop_first());
        lemma_first_part(t, ',', rest.drop_first());
        assert(cells =~= seq![node, m, f, t] + split(rest.drop_first(), seq![',']));
    }
    assert(cells[1] == m && cells[2] == f && cells[3] == t);
}

/// Each line of the table gives its disk, if it has one, in its order. The first line is the heading
/// and gives none.
pub proof fn law_disks_are_read_line_by_line(
    heading: Seq<char>,
    before: Seq<Seq<char>>,
    line: Seq<char>,
    behind: Seq<Seq<char>>,
    rest: Seq<char>,
)
    requires
        !heading.contains('\n'),
    ensures
        disks_on(before + seq![line] + behind) == disks_on(before) + (match disk_on(line) {
            Some(disk) => seq![disk],
            None => Seq::empty(),
        }) + disks_on(behind),
        disks_on(Seq::empty()) == Seq::<DiskView>::empty(),
        disks_in(heading + seq!['\r', '\n'] + rest) == disks_on(line_seq(rest)),
    decreases behind.len(),
{
    let all = before + seq![line] + behind;
    let one = match disk_on(line) {
        Some(disk) => seq![disk],
        None => Seq::empty(),
    };
    law_lines_end_at_line_feeds(heading, rest);
    let text = heading + seq!['\r', '\n'] + rest;
    assert(line_seq(text).drop_first() =~= line_seq(rest));
    if behind.len() == 0 {
        assert(all.drop_last() =~= before);
        assert(all.last() == line);
        assert(disks_on(all) =~= disks_on(before) + one + disks_on(behind));
    } else {
        law_disks_are_read_line_by_line(heading, before, line, behind.drop_last(), rest);
        assert(all.drop_last() =~= before + seq![line] + behind.drop_last());
        assert(all.last() == behind.last());
        assert(disks_on(all) =~= disks_on(before) + one + disks_on(behind));
    }
}

/// What is reported of each disk: where it is mounted, its whole gibibytes, and the whole per cent of
/// its bytes that are in use, none where more are free than there are.
pub proof fn law_report_says_how_full_a_disk_is(disks: Seq<DiskView>, i: int)
    requires
        0 <= i < disks.len(),
        disks[i].total > 0,
    ensures
        ({
            let reports = disk_reports(disks)->Array_0;
            let fields = reports[i]->Object_0;
            let disk = disks[i];
            let used = if disk.free <= disk.total {
                disk.total - disk.free
            } else {
                0
            };
            &&& disk_reports(disks) is Array && reports.len() == disks.len()
            &&& reports[i] is Object && fields.len() == 3
            &&& fields[0] == ("mount"@, JsonView::Text(disk.mount))
            &&& fields[1].0 == "totalGB"@ && fields[1].1 is Unsigned
            &&& fields[1].1->Unsigned_0 * 1073741824 <= disk.total < (fields[1].1->Unsigned_0 + 1)
                * 1073741824
            &&& fields[2].0 == "usedPct"@ && fields[2].1 is Unsigned
            &&& fields[2].1->Unsigned_0 * disk.total <= used * 100
            &&& used * 100 < (fields[2].1->Unsigned_0 + 1) * disk.total
        }),
{
    let disk = disks[i];
    let used = disk.used();
    let total = disk.total as int;
    law_used_share_is_a_percentage(disk);
    let q = used * 100 / total;
    assert(q * total <= used * 100 && used * 100 < (q + 1) * total) by (nonlinear_arith)
        requires
            q == used * 100 / total,
            total > 0,
    ;
}

/// A cell that spells no number counts as zero: a disk without free bytes then has none, and a line
/// without bytes gives no disk.
pub proof fn law_cells_without_numbers_count_as_zero(
    before: Seq<char>,
    inner: Seq<char>,
    after: Seq<char>,
    i: int,
)
    requires
        is_cell(before, inner, after),
        inner.len() == 0 || (0 <= i < inner.len() && !('0' <= inner[i] <= '9') && (i > 0 || inner[i]
            != '+')),
    ensures
        number_in(before + inner + after) == 0,
{
    lemma_cell(before, inner, after);
    law_other_texts_are_no_numerals(inner, i, u64::MAX as int);
}

/// The disks are reported on Windows, where the table came, and nowhere else. An empty table has
/// none. The table is that of the fixed disks, one line for each with commas between its cells.
pub proof fn law_only_windows_knows_the_disks(text: Seq<char>)
    ensures
        disks_view(Platform::Windows, Some(text)) == disk_reports(disks_in(text)),
        disks_view(Platform::Other, Some(text)) == JsonView::Array(Seq::empty()),
        disks_view(Platform::Windows, None) == JsonView::Array(Seq::empty()),
        disks_view(Platform::Other, None) == JsonView::Array(Seq::empty()),
        text.len() == 0 ==> disks_in(text) == Seq::<DiskView>::empty(),
        disks_query_view() matches StepView::Run { program, args } && program == "wmic"@ && args
            == seq![
            "logicaldisk"@,
            "where"@,
            "drivetype=3"@,
            "get"@,
            "Caption,Size,FreeSpace"@,
            "/FORMAT:CSV"@,
        ],
{
}

} // verus!
