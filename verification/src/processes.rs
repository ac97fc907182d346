//! The processes that take the most memory, out of the list that `tasklist` writes.

use vstd::prelude::*;
use crate::command::{output_text, output_view, run, Platform, Step, StepView};
use crate::inventory::PROCESSES_LIMIT;
use crate::json::{first_value, push_field, Json, JsonView};
use crate::text::{
    chars_of, decimal, digit, is_digit, is_first_mark, law_decimal_is_digits,
    law_first_mark_is_found, law_missing_mark_is_not_found, law_numerals_are_read,
    law_other_texts_are_no_numerals, lemma_trim_both, line_seq, lines, only, parse, parsed, pieces,
    same_text, split, split_at_each, string_of, trim_both, trim_char,
};

verus! {

/// A process by its name, with its memory in kibibytes.
pub struct Row {
    pub name: Seq<char>,
    pub memory: u64,
}

/// The ASCII digits, as a predicate.
pub open spec fn digits() -> spec_fn(char) -> bool {
    |c: char| is_digit(c)
}

/// The number that the digits in a cell make up, zero where they make up none that 64 bits hold.
pub open spec fn memory_in(cell: Seq<char>) -> u64 {
    match parsed(cell.filter(digits()), 10, u64::MAX as int) {
        Some(n) => n as u64,
        None => 0,
    }
}

/// The row on a line: its cells stand in quotes with commas between them, the first is the name and
/// the fifth the memory. A line with fewer cells has none.
pub open spec fn row_on(line: Seq<char>) -> Option<Row> {
    let cells = split(line, seq!['"', ',', '"']);
    if cells.len() < 5 {
        None
    } else {
        Some(
            Row {
                name: trim_both(cells[0], only('"')),
                memory: memory_in(trim_both(cells[4], only('"'))),
            },
        )
    }
}

/// The rows on the lines.
pub open spec fn rows_on(lines: Seq<Seq<char>>) -> Seq<Row>
    decreases lines.len(),
{
    if lines.len() == 0 {
        Seq::empty()
    } else {
        match row_on(lines.last()) {
            Some(row) => rows_on(lines.drop_last()).push(row),
            None => rows_on(lines.drop_last()),
        }
    }
}

/// The memory of all rows with a name together.
pub open spec fn memory_of(rows: Seq<Row>, name: Seq<char>) -> int
    decreases rows.len(),
{
    if rows.len() == 0 {
        0
    } else {
        memory_of(rows.drop_last(), name) + (if rows.last().name == name {
            rows.last().memory as int
        } else {
            0
        })
    }
}

/// A row has the name.
pub open spec fn is_named(rows: Seq<Row>, name: Seq<char>) -> bool {
    exists|i: int| 0 <= i < rows.len() && (#[trigger] rows[i]).name == name
}

/// No name takes more memory than 64 bits can count.
pub open spec fn is_countable(rows: Seq<Row>) -> bool {
    forall|name: Seq<char>| #[trigger] memory_of(rows, name) <= u64::MAX
}

/// Each name stands on the list once, with its memory.
pub open spec fn is_tally(list: Seq<Row>, rows: Seq<Row>) -> bool {
    &&& forall|i: int|
        0 <= i < list.len() ==> is_named(rows, (#[trigger] list[i]).name) && list[i].memory
            == memory_of(rows, list[i].name)
    &&& forall|i: int, j: int|
        0 <= i < j < list.len() ==> (#[trigger] list[i]).name != (#[trigger] list[j]).name
    &&& forall|name: Seq<char>| is_named(rows, name) ==> #[trigger] is_named(list, name)
}

/// Names with more memory stand first.
pub open spec fn is_descending(list: Seq<Row>) -> bool {
    forall|i: int, j: int|
        0 <= i <= j < list.len() ==> (#[trigger] list[i]).memory >= (#[trigger] list[j]).memory
}

/// What is reported of a name: its memory in whole mebibytes.
pub open spec fn row_report(row: Row) -> JsonView {
    JsonView::Object(
        seq![
            ("name"@, JsonView::Text(row.name)),
            ("memMB"@, JsonView::Unsigned(row.memory / 1024)),
        ],
    )
}

/// What is reported of a list: the first names, up to the limit.
pub open spec fn top_report(list: Seq<Row>) -> JsonView {
    let count = if list.len() <= PROCESSES_LIMIT {
        list.len() as int
    } else {
        PROCESSES_LIMIT as int
    };
    JsonView::Array(list.take(count).map_values(|row: Row| row_report(row)))
}

/// The report is on the names that take the most memory. Which of two names with the same memory
/// stands first is left open.
pub open spec fn is_report_on(report: JsonView, rows: Seq<Row>) -> bool {
    exists|list: Seq<Row>|
        is_tally(list, rows) && is_descending(list) && report == #[trigger] top_report(list)
}

/// What may be reported of the processes, by the text that `tasklist` wrote: nothing where 64 bits
/// cannot count the memory of a name.
pub open spec fn is_processes_report(
    platform: Platform,
    text: Option<Seq<char>>,
    report: Option<JsonView>,
) -> bool {
    match text {
        Some(chars) => if platform == Platform::Windows {
            let rows = rows_on(line_seq(chars));
            &&& report is Some <==> is_countable(rows)
            &&& report matches Some(json) ==> is_report_on(json, rows)
        } else {
            report == Some(JsonView::Array(Seq::empty()))
        },
        None => report == Some(JsonView::Array(Seq::empty())),
    }
}

/// The program that writes the list.
pub open spec fn processes_query_view() -> StepView {
    StepView::Run { program: "tasklist"@, args: seq!["/FO"@, "CSV"@, "/NH"@] }
}

/// The program that writes the list.
pub fn processes_query() -> (step: Step)
    ensures
        step.deep_view() == processes_query_view(),
{
    let step = run("tasklist", &["/FO", "CSV", "/NH"]);
    assert(step.deep_view() =~~= processes_query_view());
    step
}

// ---------------------------------------------------------------------------------------------
// Reading the list
// ---------------------------------------------------------------------------------------------

/// The number that the digits in a cell make up.
fn read_memory(cell: &[char]) -> (memory: u64)
    ensures
        memory == memory_in(cell@),
{
    let mut kept: Vec<char> = Vec::new();
    assert(cell@.take(0).filter(digits()) =~= Seq::<char>::empty()) by {
        reveal(Seq::filter);
    }
    for i in 0..cell.len()
        invariant
            kept@ == cell@.take(i as int).filter(digits()),
    {
        proof {
            reveal(Seq::filter);
            assert(cell@.take(i as int + 1).drop_last() =~= cell@.take(i as int));
        }
        if digit(cell[i]) {
            kept.push(cell[i]);
        }
    }
    assert(cell@.take(cell@.len() as int) =~= cell@);
    match parse(kept.as_slice(), 10, u64::MAX) {
        Some(n) => n,
        None => 0,
    }
}

/// A name with its memory.
struct Entry {
    name: String,
    memory: u64,
}

/// The row that an entry stands for.
spec fn row(entry: Entry) -> Row {
    Row { name: entry.name@, memory: entry.memory }
}

/// The rows that entries stand for.
spec fn rows_of(entries: Seq<Entry>) -> Seq<Row> {
    entries.map_values(|entry: Entry| row(entry))
}

/// Reads a line of the list.
fn read_row(line: &[char]) -> (found: Option<Entry>)
    ensures
        (match found {
            Some(entry) => Some(row(entry)),
            None => None,
        }) == row_on(line@),
{
    let mark: [char; 3] = ['"', ',', '"'];
    assert(mark@ =~= seq!['"', ',', '"']);
    let cells = split_at_each(line, &mark);
    assert(pieces(cells@).len() == cells@.len());
    if cells.len() < 5 {
        return None;
    }
    assert(pieces(cells@)[0] == cells@[0]@);
    assert(pieces(cells@)[4] == cells@[4]@);
    let name = string_of(trim_char(cells[0], '"'));
    let memory: u64 = read_memory(trim_char(cells[4], '"'));
    Some(Entry { name, memory })
}

// ---------------------------------------------------------------------------------------------
// Adding up
// ---------------------------------------------------------------------------------------------

/// More rows do not take memory away, and memory is not negative.
proof fn lemma_memory_grows(rows: Seq<Row>, n: int, name: Seq<char>)
    requires
        0 <= n <= rows.len(),
    ensures
        0 <= memory_of(rows.take(n), name) <= memory_of(rows, name),
    decreases rows.len(),
{
    if rows.len() > 0 {
        if n < rows.len() {
            lemma_memory_grows(rows.drop_last(), n, name);
            assert(rows.drop_last().take(n) =~= rows.take(n));
        } else {
            assert(rows.take(n) =~= rows);
            lemma_memory_grows(rows.drop_last(), 0, name);
        }
    } else {
        assert(rows.take(n) =~= rows);
    }
}

/// A name that no row has takes no memory.
proof fn lemma_unnamed_takes_nothing(rows: Seq<Row>, name: Seq<char>)
    requires
        !is_named(rows, name),
    ensures
        memory_of(rows, name) == 0,
    decreases rows.len(),
{
    if rows.len() > 0 {
        assert(rows[rows.len() - 1].name != name);
        assert(!is_named(rows.drop_last(), name)) by {
            if is_named(rows.drop_last(), name) {
                let i = choose|i: int|
                    0 <= i < rows.drop_last().len() && (#[trigger] rows.drop_last()[i]).name == name;
                assert(rows[i].name == name);
            }
        }
        lemma_unnamed_takes_nothing(rows.drop_last(), name);
    }
}

/// The rows on the first lines are the first rows.
proof fn lemma_rows_on_prefix(lines: Seq<Seq<char>>, n: int)
    requires
        0 <= n <= lines.len(),
    ensures
        rows_on(lines.take(n)).len() <= rows_on(lines).len(),
        rows_on(lines).take(rows_on(lines.take(n)).len() as int) == rows_on(lines.take(n)),
    decreases lines.len(),
{
    if n < lines.len() {
        lemma_rows_on_prefix(lines.drop_last(), n);
        assert(lines.drop_last().take(n) =~= lines.take(n));
        assert(rows_on(lines).take(rows_on(lines.take(n)).len() as int) =~= rows_on(
            lines.drop_last(),
        ).take(rows_on(lines.take(n)).len() as int));
    } else {
        assert(lines.take(n) =~= lines);
        assert(rows_on(lines).take(rows_on(lines).len() as int) =~= rows_on(lines));
    }
}

/// A tally stays one when a row with a known name is added to it.
proof fn lemma_tally_known(list: Seq<Row>, rows: Seq<Row>, new: Row, k: int, sum: u64)
    requires
        is_tally(list, rows),
        0 <= k < list.len(),
        list[k].name == new.name,
        sum == list[k].memory + new.memory,
    ensures
        is_tally(list.update(k, Row { name: new.name, memory: sum }), rows.push(new)),
{
    let more = rows.push(new);
    let next = list.update(k, Row { name: new.name, memory: sum });
    assert(more.drop_last() =~= rows);
    assert(more[rows.len() as int].name == new.name);
    assert forall|i: int| 0 <= i < next.len() implies is_named(more, (#[trigger] next[i]).name)
        && next[i].memory == memory_of(more, next[i].name) by {
        assert(is_named(rows, list[i].name));
        let w = choose|w: int| 0 <= w < rows.len() && (#[trigger] rows[w]).name == list[i].name;
        assert(more[w].name == list[i].name);
        if i != k {
            if i < k {
                assert(list[i].name != list[k].name);
            } else {
                assert(list[k].name != list[i].name);
            }
        }
    }
    assert forall|i: int, j: int| 0 <= i < j < next.len() implies (#[trigger] next[i]).name != (
    #[trigger] next[j]).name by {
        assert(list[i].name != list[j].name);
    }
    assert forall|name: Seq<char>| is_named(more, name) implies #[trigger] is_named(next, name) by {
        let w = choose|w: int| 0 <= w < more.len() && (#[trigger] more[w]).name == name;
        if w < rows.len() {
            assert(rows[w].name == name);
            assert(is_named(list, name));
            let v = choose|v: int| 0 <= v < list.len() && (#[trigger] list[v]).name == name;
            assert(next[v].name == name);
        } else {
            assert(next[k].name == name);
        }
    }
}

/// A tally stays one when a row with a new name is added to it.
proof fn lemma_tally_new(list: Seq<Row>, rows: Seq<Row>, new: Row)
    requires
        is_tally(list, rows),
        forall|i: int| 0 <= i < list.len() ==> (#[trigger] list[i]).name != new.name,
    ensures
        is_tally(list.push(new), rows.push(new)),
{
    let more = rows.push(new);
    let next = list.push(new);
    assert(more.drop_last() =~= rows);
    assert(more[rows.len() as int].name == new.name);
    assert(!is_named(list, new.name));
    assert(!is_named(rows, new.name));
    lemma_unnamed_takes_nothing(rows, new.name);
    assert forall|i: int| 0 <= i < next.len() implies is_named(more, (#[trigger] next[i]).name)
        && next[i].memory == memory_of(more, next[i].name) by {
        if i < list.len() {
            assert(is_named(rows, list[i].name));
            let w = choose|w: int| 0 <= w < rows.len() && (#[trigger] rows[w]).name == list[i].name;
            assert(more[w].name == list[i].name);
        }
    }
    assert forall|name: Seq<char>| is_named(more, name) implies #[trigger] is_named(next, name) by {
        let w = choose|w: int| 0 <= w < more.len() && (#[trigger] more[w]).name == name;
        if w < rows.len() {
            assert(rows[w].name == name);
            assert(is_named(list, name));
            let v = choose|v: int| 0 <= v < list.len() && (#[trigger] list[v]).name == name;
            assert(next[v].name == name);
        } else {
            assert(next[list.len() as int].name == name);
        }
    }
}

/// The place of a name on the list.
fn place_of(list: &Vec<Entry>, name: &str) -> (place: Option<usize>)
    ensures
        place matches Some(k) ==> k < list@.len() && rows_of(list@)[k as int].name == name@,
        place is None ==> forall|i: int|
            0 <= i < list@.len() ==> (#[trigger] rows_of(list@)[i]).name != name@,
{
    for i in 0..list.len()
        invariant
            forall|j: int| 0 <= j < i ==> (#[trigger] rows_of(list@)[j]).name != name@,
    {
        if same_text(list[i].name.as_str(), name) {
            return Some(i);
        }
    }
    None
}

/// Adds up the memory by name: nothing where 64 bits cannot count it.
fn tally(text: &str) -> (list: Option<Vec<Entry>>)
    ensures
        list is None ==> !is_countable(rows_on(line_seq(text@))),
        list matches Some(entries) ==> is_tally(rows_of(entries@), rows_on(line_seq(text@))),
{
    let chars = chars_of(text);
    let parts = lines(chars.as_slice());
    let ghost all = pieces(parts@);
    let mut list: Vec<Entry> = Vec::new();
    assert(rows_of(list@) =~= Seq::<Row>::empty());
    assert(all.take(0) =~= Seq::<Seq<char>>::empty());
    for i in 0..parts.len()
        invariant
            all == pieces(parts@),
            all == line_seq(text@),
            is_tally(rows_of(list@), rows_on(all.take(i as int))),
    {
        let ghost rows = rows_on(all.take(i as int));
        assert(all.take(i as int + 1).drop_last() =~= all.take(i as int));
        assert(all.take(i as int + 1).last() == parts@[i as int]@);
        if let Some(entry) = read_row(parts[i]) {
            let ghost new = row(entry);
            let ghost before = rows_of(list@);
            match place_of(&list, entry.name.as_str()) {
                Some(k) => {
                    let known: u64 = list[k].memory;
                    assert(before[k as int].memory == known);
                    match known.checked_add(entry.memory) {
                        Some(sum) => {
                            proof {
                                lemma_tally_known(before, rows, new, k as int, sum);
                            }
                            list.set(k, Entry { name: entry.name, memory: sum });
                            assert(rows_of(list@) =~= before.update(
                                k as int,
                                Row { name: new.name, memory: sum },
                            ));
                        },
                        None => {
                            proof {
                                lemma_rows_on_prefix(all, i as int + 1);
                                let whole = rows_on(all);
                                let part = rows_on(all.take(i as int + 1));
                                assert(part.drop_last() =~= rows);
                                lemma_memory_grows(whole, part.len() as int, new.name);
                                assert(memory_of(whole, new.name) > u64::MAX);
                            }
                            return None;
                        },
                    }
                },
                None => {
                    proof {
                        lemma_tally_new(before, rows, new);
                    }
                    list.push(entry);
                    assert(rows_of(list@) =~= before.push(new));
                },
            }
        }
    }
    assert(all.take(parts@.len() as int) =~= all);
    Some(list)
}

// ---------------------------------------------------------------------------------------------
// Ranking
// ---------------------------------------------------------------------------------------------

/// The rows in the order that the places give.
spec fn arranged(list: Seq<Row>, order: Seq<usize>) -> Seq<Row> {
    Seq::new(order.len(), |i: int| list[order[i] as int])
}

/// The first `n` places, each once, with more memory first.
spec fn is_order(list: Seq<Row>, order: Seq<usize>, n: int) -> bool {
    &&& order.len() == n
    &&& forall|i: int| 0 <= i < n ==> 0 <= #[trigger] order[i] < n
    &&& forall|i: int, j: int| 0 <= i < j < n ==> order[i] != order[j]
    &&& forall|p: int| 0 <= p < n ==> order.contains(#[trigger] (p as usize))
    &&& is_descending(arranged(list, order))
}

/// One more place keeps the order, put behind those with as much memory and before those with less.
proof fn lemma_insert_keeps_order(list: Seq<Row>, order: Seq<usize>, n: usize, at: int)
    requires
        is_order(list, order, n as int),
        n < list.len(),
        0 <= at <= order.len(),
        forall|i: int|
            0 <= i < at ==> (#[trigger] arranged(list, order)[i]).memory >= list[n as int].memory,
        forall|i: int|
            at <= i < order.len() ==> (#[trigger] arranged(list, order)[i]).memory
                <= list[n as int].memory,
    ensures
        is_order(list, order.insert(at, n), n as int + 1),
{
    let old_rows = arranged(list, order);
    let next = order.insert(at, n);
    let rows = arranged(list, next);
    assert forall|i: int| 0 <= i < next.len() implies 0 <= #[trigger] next[i] < n + 1 by {
        if i < at {
            assert(next[i] == order[i]);
        } else if i > at {
            assert(next[i] == order[i - 1]);
        }
    }
    assert forall|i: int, j: int| 0 <= i < j < next.len() implies next[i] != next[j] by {
        if j < at {
            assert(next[i] == order[i] && next[j] == order[j]);
        } else if j == at {
            assert(next[i] == order[i]);
        } else if i < at {
            assert(next[i] == order[i] && next[j] == order[j - 1]);
        } else if i == at {
            assert(next[j] == order[j - 1]);
        } else {
            assert(next[i] == order[i - 1] && next[j] == order[j - 1]);
        }
    }
    assert forall|p: int| 0 <= p < n + 1 implies next.contains(#[trigger] (p as usize)) by {
        if p < n {
            assert(order.contains(p as usize));
            let i = choose|i: int| 0 <= i < order.len() && order[i] == p as usize;
            if i < at {
                assert(next[i] == p as usize);
            } else {
                assert(next[i + 1] == p as usize);
            }
        } else {
            assert(next[at] == p as usize);
        }
    }
    assert forall|i: int, j: int| 0 <= i <= j < rows.len() implies (#[trigger] rows[i]).memory >= (
    #[trigger] rows[j]).memory by {
        if i < at {
            assert(rows[i] == old_rows[i]);
        } else if i > at {
            assert(rows[i] == old_rows[i - 1]);
        } else {
            assert(rows[i] == list[n as int]);
        }
        if j < at {
            assert(rows[j] == old_rows[j]);
        } else if j > at {
            assert(rows[j] == old_rows[j - 1]);
        } else {
            assert(rows[j] == list[n as int]);
        }
    }
}

/// The places of the entries, with more memory first.
fn ranking(entries: &Vec<Entry>) -> (order: Vec<usize>)
    ensures
        is_order(rows_of(entries@), order@, entries@.len() as int),
{
    let ghost list = rows_of(entries@);
    let mut order: Vec<usize> = Vec::new();
    for n in 0..entries.len()
        invariant
            list == rows_of(entries@),
            is_order(list, order@, n as int),
    {
        let memory: u64 = entries[n].memory;
        let mut at: usize = 0;
        while at < order.len() && entries[order[at]].memory >= memory
            invariant
                list == rows_of(entries@),
                n < entries@.len(),
                is_order(list, order@, n as int),
                memory == list[n as int].memory,
                at <= order@.len(),
                forall|i: int|
                    0 <= i < at ==> (#[trigger] arranged(list, order@)[i]).memory >= memory,
            decreases order@.len() - at,
        {
            assert(arranged(list, order@)[at as int].memory == list[order@[at as int] as int].memory);
            at = at + 1;
        }
        proof {
            let rows = arranged(list, order@);
            assert forall|i: int| at <= i < order@.len() implies (#[trigger] rows[i]).memory
                <= memory by {
                assert(rows[at as int].memory >= rows[i].memory);
                assert(rows[at as int].memory == entries@[order@[at as int] as int].memory);
            }
            lemma_insert_keeps_order(list, order@, n, at as int);
        }
        order.insert(at, n);
    }
    order
}

/// A tally stays one in another order.
proof fn lemma_arranged_tally(list: Seq<Row>, order: Seq<usize>, rows: Seq<Row>)
    requires
        is_tally(list, rows),
        is_order(list, order, list.len() as int),
        list.len() <= usize::MAX,
    ensures
        is_tally(arranged(list, order), rows),
{
    let next = arranged(list, order);
    assert forall|i: int, j: int| 0 <= i < j < next.len() implies (#[trigger] next[i]).name != (
    #[trigger] next[j]).name by {
        let a = order[i] as int;
        let b = order[j] as int;
        assert(a != b);
        if a < b {
            assert(list[a].name != list[b].name);
        } else {
            assert(list[b].name != list[a].name);
        }
    }
    assert forall|name: Seq<char>| is_named(rows, name) implies #[trigger] is_named(next, name) by {
        assert(is_named(list, name));
        let v = choose|v: int| 0 <= v < list.len() && (#[trigger] list[v]).name == name;
        assert(order.contains(v as usize));
        let i = choose|i: int| 0 <= i < order.len() && order[i] == v as usize;
        assert(next[i].name == name);
    }
}

// ---------------------------------------------------------------------------------------------
// The report
// ---------------------------------------------------------------------------------------------

/// What is reported of a name.
fn report_entry(entry: &Entry) -> (report: Json)
    ensures
        report@ == row_report(row(*entry)),
{
    let mut fields: Vec<(String, Json)> = Vec::new();
    push_field(&mut fields, "name", Json::text(entry.name.as_str()));
    push_field(&mut fields, "memMB", Json::Unsigned(entry.memory / 1024));
    assert(fields.deep_view() =~= row_report(row(*entry))->Object_0);
    Json::object(fields)
}

/// What is reported of the processes on a list: nothing where 64 bits cannot count the memory of a
/// name.
pub fn report_processes(text: &str) -> (report: Option<Json>)
    ensures
        report is Some <==> is_countable(rows_on(line_seq(text@))),
        report matches Some(json) ==> is_report_on(json@, rows_on(line_seq(text@))),
{
    let ghost rows = rows_on(line_seq(text@));
    match tally(text) {
        Some(entries) => {
            let order = ranking(&entries);
            let ghost list = rows_of(entries@);
            let ghost ranked = arranged(list, order@);
            let total: usize = entries.len();
            proof {
                lemma_arranged_tally(list, order@, rows);
                lemma_tally_counts(list, rows);
            }
            let count: usize = if order.len() <= PROCESSES_LIMIT {
                order.len()
            } else {
                PROCESSES_LIMIT
            };
            let mut reports: Vec<Json> = Vec::new();
            for i in 0..count
                invariant
                    count <= order@.len(),
                    list == rows_of(entries@),
                    ranked == arranged(list, order@),
                    is_order(list, order@, entries@.len() as int),
                    reports@.len() == i,
                    forall|j: int|
                        0 <= j < i ==> (#[trigger] reports@[j])@ == row_report(ranked[j]),
            {
                let place: usize = order[i];
                reports.push(report_entry(&entries[place]));
            }
            let report = Json::array(reports);
            assert(report@->Array_0 =~= top_report(ranked)->Array_0);
            assert(report@ == top_report(ranked));
            Some(report)
        },
        None => None,
    }
}

/// What has a tally can be counted.
proof fn lemma_tally_counts(list: Seq<Row>, rows: Seq<Row>)
    requires
        is_tally(list, rows),
    ensures
        is_countable(rows),
{
    assert forall|name: Seq<char>| #[trigger] memory_of(rows, name) <= u64::MAX by {
        if is_named(rows, name) {
            assert(is_named(list, name));
            let v = choose|v: int| 0 <= v < list.len() && (#[trigger] list[v]).name == name;
            assert(list[v].memory == memory_of(rows, name));
        } else {
            lemma_unnamed_takes_nothing(rows, name);
        }
    }
}

/// What is reported of the processes, by what `tasklist` wrote.
pub fn collect_processes(platform: Platform, output: Option<&[u8]>) -> (report: Option<Json>)
    ensures
        is_processes_report(platform, output_view(output), report.deep_view()),
{
    if platform == Platform::Windows {
        if let Some(text) = output_text(output) {
            return report_processes(text.as_str());
        }
    }
    Some(Json::empty_array())
}

/// At most thirty names are reported. A name is left out only where there are thirty others, and
/// none of those takes fewer mebibytes than it.
pub proof fn law_names_left_out_take_no_more(
    report: JsonView,
    rows: Seq<Row>,
    name: Seq<char>,
    i: int,
)
    requires
        is_report_on(report, rows),
        is_named(rows, name),
        forall|j: int|
            0 <= j < report->Array_0.len() ==> (#[trigger] report->Array_0[j]).text_field("name"@)
                != name,
        0 <= i < report->Array_0.len(),
    ensures
        report->Array_0.len() == 30,
        report->Array_0[i].unsigned_field("memMB"@) matches Some(mebibytes) && mebibytes
            >= memory_of(rows, name) / 1024,
{
    let list = choose|list: Seq<Row>|
        is_tally(list, rows) && is_descending(list) && report == #[trigger] top_report(list);
    assert(is_named(list, name));
    let v = choose|v: int| 0 <= v < list.len() && (#[trigger] list[v]).name == name;
    reveal_strlit("name");
    reveal_strlit("memMB");
    reveal_with_fuel(first_value, 3);
    let kept = report->Array_0;
    if v < kept.len() {
        assert(kept[v] == row_report(list[v]));
        assert(kept[v].text_field("name"@) == name);
    }
    assert(kept[i] == row_report(list[i]));
    assert("name"@.len() != "memMB"@.len());
    let fields = kept[i]->Object_0;
    assert(fields.drop_first()[0] == fields[1]);
    assert(kept[i].unsigned_field("memMB"@) == Some(list[i].memory / 1024));
    assert(list[i].memory >= list[v].memory);
}

/// A line of the list as `tasklist` writes it: five cells in quotes, with commas between them.
pub open spec fn list_line(
    name: Seq<char>,
    pid: Seq<char>,
    session: Seq<char>,
    number: Seq<char>,
    memory: Seq<char>,
) -> Seq<char> {
    let mark = seq!['"', ',', '"'];
    seq!['"'] + name + mark + (pid + mark + (session + mark + (number + mark + (memory + seq!['"']))))
}

/// The line of every process is read: its name and its memory count, whatever its other cells hold.
/// The cells have no quotes in them, and the name is not a single comma.
pub proof fn law_line_of_every_process_is_read(
    name: Seq<char>,
    pid: Seq<char>,
    session: Seq<char>,
    number: Seq<char>,
    memory: Seq<char>,
)
    requires
        !name.contains('"') && name != seq![','],
        !pid.contains('"'),
        !session.contains('"'),
        !number.contains('"'),
        !memory.contains('"'),
    ensures
        row_on(list_line(name, pid, session, number, memory)) == Some(
            Row { name, memory: memory_in(memory) },
        ),
        is_named(rows_on(seq![list_line(name, pid, session, number, memory)]), name),
{
    let mark = seq!['"', ',', '"'];
    let first = seq!['"'] + name;
    let last = memory + seq!['"'];
    lemma_name_is_first(name);
    lemma_cell_is_first(pid);
    lemma_cell_is_first(session);
    lemma_cell_is_first(number);
    law_first_mark_is_found(
        first,
        mark,
        pid + mark + (session + mark + (number + mark + last)),
    );
    law_first_mark_is_found(pid, mark, session + mark + (number + mark + last));
    law_first_mark_is_found(session, mark, number + mark + last);
    law_first_mark_is_found(number, mark, last);
    assert forall|j: int| 0 <= j <= last.len() - mark.len() implies #[trigger] last.subrange(
        j,
        j + mark.len(),
    ) != mark by {
        assert(last.subrange(j, j + mark.len())[0] == memory[j]);
    }
    law_missing_mark_is_not_found(last, mark);
    let line = list_line(name, pid, session, number, memory);
    let cells = split(line, mark);
    assert(cells =~= seq![first, pid, session, number, last]);
    let none = Seq::<char>::empty();
    if name.len() > 0 {
        assert(name[0] != '"' && name.last() != '"') by {
            assert(name.contains(name[0]) && name.contains(name[name.len() - 1]));
        }
    }
    if memory.len() > 0 {
        assert(memory[0] != '"' && memory.last() != '"') by {
            assert(memory.contains(memory[0]) && memory.contains(memory[memory.len() - 1]));
        }
    }
    lemma_trim_both(seq!['"'], name, none, only('"'));
    assert(seq!['"'] + name + none =~= first);
    lemma_trim_both(none, memory, seq!['"'], only('"'));
    assert(none + memory + seq!['"'] =~= last);
    let one = seq![line];
    assert(one.drop_last() =~= Seq::empty());
    reveal_with_fuel(rows_on, 2);
    assert(rows_on(one)[0].name == name);
}

/// A name without quotes that is not a single comma ends at the first mark behind it.
proof fn lemma_name_is_first(name: Seq<char>)
    requires
        !name.contains('"') && name != seq![','],
    ensures
        is_first_mark(seq!['"'] + name, seq!['"', ',', '"']),
{
    let mark = seq!['"', ',', '"'];
    let first = seq!['"'] + name;
    assert forall|j: int| 0 <= j < first.len() implies #[trigger] (first + mark).subrange(
        j,
        j + mark.len(),
    ) != mark by {
        let part = (first + mark).subrange(j, j + mark.len());
        assert(part[0] == (first + mark)[j] && part[1] == (first + mark)[j + 1] && part[2] == (
        first + mark)[j + 2]);
        if j > 0 {
            assert(first[j] == name[j - 1]);
        } else if part == mark {
            if name.len() == 0 {
                assert((first + mark)[1] == '"');
            } else {
                assert(name[0] == ',');
                if name.len() == 1 {
                    assert(name =~= seq![',']);
                } else {
                    assert((first + mark)[2] == name[1]);
                }
            }
        }
    }
}

/// Cells behind the fifth change nothing, whatever they hold.
pub proof fn law_further_cells_change_nothing(
    name: Seq<char>,
    pid: Seq<char>,
    session: Seq<char>,
    number: Seq<char>,
    memory: Seq<char>,
    rest: Seq<char>,
)
    requires
        !name.contains('"') && name != seq![','],
        !pid.contains('"'),
        !session.contains('"'),
        !number.contains('"'),
        !memory.contains('"'),
    ensures
        row_on(list_line(name, pid, session, number, memory) + seq![',', '"'] + rest)
            == row_on(list_line(name, pid, session, number, memory)),
{
    let mark = seq!['"', ',', '"'];
    let first = seq!['"'] + name;
    let fifth = memory + mark + rest;
    lemma_name_is_first(name);
    lemma_cell_is_first(pid);
    lemma_cell_is_first(session);
    lemma_cell_is_first(number);
    lemma_cell_is_first(memory);
    law_first_mark_is_found(first, mark, pid + mark + (session + mark + (number + mark + fifth)));
    law_first_mark_is_found(pid, mark, session + mark + (number + mark + fifth));
    law_first_mark_is_found(session, mark, number + mark + fifth);
    law_first_mark_is_found(number, mark, fifth);
    law_first_mark_is_found(memory, mark, rest);
    let line = list_line(name, pid, session, number, memory) + seq![',', '"'] + rest;
    assert(line =~= first + mark + (pid + mark + (session + mark + (number + mark + fifth))));
    let cells = split(line, mark);
    assert(cells =~= seq![first, pid, session, number, memory] + split(rest, mark));
    assert(cells[0] == first && cells[4] == memory);
    let none = Seq::<char>::empty();
    if name.len() > 0 {
        assert(name.contains(name[0]) && name.contains(name[name.len() - 1]));
    }
    if memory.len() > 0 {
        assert(memory.contains(memory[0]) && memory.contains(memory[memory.len() - 1]));
    }
    lemma_trim_both(seq!['"'], name, none, only('"'));
    assert(seq!['"'] + name + none =~= first);
    lemma_trim_both(none, memory, none, only('"'));
    assert(none + memory + none =~= memory);
    law_line_of_every_process_is_read(name, pid, session, number, memory);
}

/// A cell without quotes ends at the first mark behind it.
proof fn lemma_cell_is_first(cell: Seq<char>)
    requires
        !cell.contains('"'),
    ensures
        is_first_mark(cell, seq!['"', ',', '"']),
{
    let mark = seq!['"', ',', '"'];
    assert forall|j: int| 0 <= j < cell.len() implies #[trigger] (cell + mark).subrange(
        j,
        j + mark.len(),
    ) != mark by {
        assert((cell + mark).subrange(j, j + mark.len())[0] == cell[j]);
    }
}

/// Each line gives its row, if it has one, behind the rows of the lines before it and before those
/// of the lines behind it.
pub proof fn law_lines_are_read_one_by_one(
    before: Seq<Seq<char>>,
    line: Seq<char>,
    behind: Seq<Seq<char>>,
)
    ensures
        rows_on(before + seq![line] + behind) == rows_on(before) + (match row_on(line) {
            Some(row) => seq![row],
            None => Seq::empty(),
        }) + rows_on(behind),
        rows_on(Seq::empty()) == Seq::<Row>::empty(),
    decreases behind.len(),
{
    let all = before + seq![line] + behind;
    let one = match row_on(line) {
        Some(row) => seq![row],
        None => Seq::empty(),
    };
    if behind.len() == 0 {
        assert(all.drop_last() =~= before);
        assert(all.last() == line);
        assert(rows_on(all) =~= rows_on(before) + one + rows_on(behind));
    } else {
        law_lines_are_read_one_by_one(before, line, behind.drop_last());
        assert(all.drop_last() =~= before + seq![line] + behind.drop_last());
        assert(all.last() == behind.last());
        assert(rows_on(all) =~= rows_on(before) + one + rows_on(behind));
    }
}

/// The memory in a cell is the number that its digits spell, whatever stands between them: none is
/// zero, and so is one that 64 bits do not hold.
pub proof fn law_memory_is_what_the_digits_spell(n: nat, a: Seq<char>, c: char, b: Seq<char>)
    requires
        !('0' <= c <= '9'),
    ensures
        memory_in(a + seq![c] + b) == memory_in(a + b),
        memory_in(decimal(n)) == (if n <= u64::MAX {
            n as u64
        } else {
            0
        }),
        memory_in(Seq::empty()) == 0,
{
    lemma_filter_apart(a + seq![c], b);
    lemma_filter_apart(a, seq![c]);
    lemma_filter_apart(a, b);
    assert(seq![c].filter(digits()) =~= Seq::<char>::empty()) by {
        reveal(Seq::filter);
        let one = seq![c];
        let none = Seq::<char>::empty();
        assert(none.filter(digits()) =~= none);
        assert(one.drop_last() =~= none);
        assert(one.last() == c);
    }
    assert(a.filter(digits()) + Seq::<char>::empty() =~= a.filter(digits()));
    law_decimal_is_digits(n);
    lemma_filter_all(decimal(n));
    law_numerals_are_read(n, 0, u64::MAX as int);
    assert(Seq::new(0, |i: int| '0') + decimal(n) =~= decimal(n));
    assert(Seq::<char>::empty().filter(digits()) =~= Seq::<char>::empty()) by {
        reveal(Seq::filter);
    }
    law_other_texts_are_no_numerals(Seq::empty(), 0, u64::MAX as int);
}

/// Keeping digits goes through the parts of a text one by one.
proof fn lemma_filter_apart(a: Seq<char>, b: Seq<char>)
    ensures
        (a + b).filter(digits()) == a.filter(digits()) + b.filter(digits()),
    decreases b.len(),
{
    reveal(Seq::filter);
    if b.len() == 0 {
        assert(a + b =~= a);
        assert(a.filter(digits()) + b.filter(digits()) =~= a.filter(digits()));
    } else {
        assert((a + b).drop_last() =~= a + b.drop_last());
        assert((a + b).last() == b.last());
        lemma_filter_apart(a, b.drop_last());
        assert((a + b).filter(digits()) =~= a.filter(digits()) + b.filter(digits()));
    }
}

/// Digits are all kept.
proof fn lemma_filter_all(s: Seq<char>)
    requires
        forall|i: int| 0 <= i < s.len() ==> is_digit(#[trigger] s[i]),
    ensures
        s.filter(digits()) == s,
    decreases s.len(),
{
    reveal(Seq::filter);
    if s.len() > 0 {
        assert(is_digit(s[s.len() - 1]));
        assert forall|i: int| 0 <= i < s.drop_last().len() implies is_digit(
            #[trigger] s.drop_last()[i],
        ) by {
            assert(s.drop_last()[i] == s[i]);
        }
        lemma_filter_all(s.drop_last());
    }
    assert(s.filter(digits()) =~= s);
}

/// The memory of a name is that of all its rows together: one more row adds its memory to its own
/// name, and to no other.
pub proof fn law_memory_of_a_name_adds_up(a: Seq<Row>, row: Row, b: Seq<Row>, name: Seq<char>)
    ensures
        memory_of(a + seq![row] + b, name) == memory_of(a + b, name) + (if row.name == name {
            row.memory as int
        } else {
            0
        }),
        memory_of(Seq::empty(), name) == 0,
    decreases b.len(),
{
    let all = a + seq![row] + b;
    if b.len() == 0 {
        assert(all.drop_last() =~= a);
        assert(all.last() == row);
        assert(a + b =~= a);
    } else {
        assert(all.drop_last() =~= a + seq![row] + b.drop_last());
        assert((a + b).drop_last() =~= a + b.drop_last());
        assert(all.last() == b.last() && (a + b).last() == b.last());
        law_memory_of_a_name_adds_up(a, row, b.drop_last(), name);
    }
}

/// What is reported of a name is its memory in whole mebibytes, each name once, and names with more
/// memory first.
pub proof fn law_report_says_what_names_take(report: JsonView, rows: Seq<Row>, i: int, j: int)
    requires
        is_report_on(report, rows),
        0 <= i < j < report->Array_0.len(),
    ensures
        ({
            let a = report->Array_0[i].text_field("name"@);
            let b = report->Array_0[j].text_field("name"@);
            &&& a != b
            &&& is_named(rows, a) && is_named(rows, b)
            &&& memory_of(rows, a) >= memory_of(rows, b)
            &&& report->Array_0[i].field("memMB"@) == Some(
                JsonView::Unsigned((memory_of(rows, a) / 1024) as u64),
            )
            &&& report->Array_0[j].field("memMB"@) == Some(
                JsonView::Unsigned((memory_of(rows, b) / 1024) as u64),
            )
            &&& report->Array_0.len() <= 30
        }),
{
    let list = choose|list: Seq<Row>|
        is_tally(list, rows) && is_descending(list) && report == #[trigger] top_report(list);
    assert(report->Array_0[i] == row_report(list[i]));
    assert(report->Array_0[j] == row_report(list[j]));
    lemma_row_report(list[i]);
    lemma_row_report(list[j]);
    assert(list[i].memory >= list[j].memory);
}

/// The first name on a report takes what the report says.
pub proof fn law_first_name_takes_the_most(report: JsonView, rows: Seq<Row>, name: Seq<char>)
    requires
        is_report_on(report, rows),
        is_named(rows, name),
    ensures
        report->Array_0.len() > 0,
        ({
            let first = report->Array_0[0].text_field("name"@);
            &&& is_named(rows, first)
            &&& memory_of(rows, first) >= memory_of(rows, name)
            &&& report->Array_0[0].field("memMB"@) == Some(
                JsonView::Unsigned((memory_of(rows, first) / 1024) as u64),
            )
        }),
{
    let list = choose|list: Seq<Row>|
        is_tally(list, rows) && is_descending(list) && report == #[trigger] top_report(list);
    assert(is_named(list, name));
    let v = choose|v: int| 0 <= v < list.len() && (#[trigger] list[v]).name == name;
    assert(list[0].memory >= list[v].memory);
    assert(report->Array_0[0] == row_report(list[0]));
    lemma_row_report(list[0]);
    assert(list[v].memory == memory_of(rows, list[v].name));
}

/// Every name is reported, unless thirty others are.
pub proof fn law_every_name_is_reported(report: JsonView, rows: Seq<Row>, name: Seq<char>)
    requires
        is_report_on(report, rows),
        is_named(rows, name),
    ensures
        report->Array_0.len() == 30 || exists|i: int|
            0 <= i < report->Array_0.len() && (#[trigger] report->Array_0[i]).text_field("name"@)
                == name,
{
    let list = choose|list: Seq<Row>|
        is_tally(list, rows) && is_descending(list) && report == #[trigger] top_report(list);
    assert(is_named(list, name));
    let v = choose|v: int| 0 <= v < list.len() && (#[trigger] list[v]).name == name;
    let kept = report->Array_0;
    if v < kept.len() {
        assert(kept[v] == row_report(list[v]));
        lemma_row_report(list[v]);
        assert(kept[v].text_field("name"@) == name);
    }
}

/// What stands in the report on a name.
proof fn lemma_row_report(row: Row)
    ensures
        row_report(row).text_field("name"@) == row.name,
        row_report(row).field("memMB"@) == Some(JsonView::Unsigned(row.memory / 1024)),
{
    reveal_strlit("name");
    reveal_strlit("memMB");
    reveal_with_fuel(first_value, 3);
    assert("name"@.len() != "memMB"@.len());
    let fields = row_report(row)->Object_0;
    assert(fields.drop_first()[0] == fields[1]);
}

/// On other platforms, and where the list did not come, no process is reported. Otherwise the report
/// is on the names on the lines, and it is left out only where their memory cannot be counted.
pub proof fn law_only_windows_knows_the_processes(text: Seq<char>, report: Option<JsonView>)
    ensures
        is_processes_report(Platform::Other, Some(text), report) <==> report == Some(
            JsonView::Array(Seq::empty()),
        ),
        is_processes_report(Platform::Windows, None, report) <==> report == Some(
            JsonView::Array(Seq::empty()),
        ),
        is_processes_report(Platform::Windows, Some(text), None) <==> !is_countable(
            rows_on(line_seq(text)),
        ),
        report is Some && is_processes_report(Platform::Windows, Some(text), report) ==> is_report_on(
            report->0,
            rows_on(line_seq(text)),
        ),
        processes_query_view() matches StepView::Run { program, args } && program == "tasklist"@
            && args == seq!["/FO"@, "CSV"@, "/NH"@],
{
}

} // verus!
