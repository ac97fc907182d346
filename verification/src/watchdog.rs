//! Services and processes that the panel has the agent watch.

use vstd::prelude::*;
use vstd::slice::slice_subrange;
use crate::api::{agent_request, agent_request_view, Endpoint, Request};
use crate::command::{
    output_text, output_view, run, service_query, service_query_view, spawn, Platform, Step,
    StepView,
};
use crate::json::{push_field, Json, JsonView};
use crate::outside::{to_lowercase, unicode_lowercase};
use crate::text::{
    chars_of, contains, ends_in, ends_with, glue, has, has_char, law_beginnings_and_endings,
    law_contains_is_to_stand_between, law_marks_at_the_end_are_trimmed,
    law_replacing_goes_by_characters, lemma_first_part, lemma_only_part, lemma_replaced_nowhere,
    lemma_stands_between, only, pieces, replace, replaced, same_chars, same_text, split,
    split_at_each, string_of, trim_back, trim_end_char,
};
use crate::wol::joined;

verus! {

// ---------------------------------------------------------------------------------------------
// Whether something runs
// ---------------------------------------------------------------------------------------------

/// How it is found out whether something runs: by asking a program, or not at all.
pub open spec fn alive_query_view(platform: Platform, kind: Seq<char>, name: Seq<char>) -> Option<
    StepView,
> {
    if platform == Platform::Other {
        None
    } else if kind == "service"@ {
        Some(service_query_view(name))
    } else if kind == "process"@ {
        Some(
            StepView::Run {
                program: "tasklist"@,
                args: seq!["/NH"@, "/FI"@, "IMAGENAME eq "@ + name],
            },
        )
    } else {
        None
    }
}

/// The program that is asked whether something runs.
pub fn alive_query(platform: Platform, kind: &str, name: &str) -> (step: Option<Step>)
    ensures
        step.deep_view() == alive_query_view(platform, kind@, name@),
{
    if platform == Platform::Other {
        None
    } else if same_text(kind, "service") {
        Some(service_query(name))
    } else if same_text(kind, "process") {
        let filter = glue("IMAGENAME eq ", name);
        let step = run("tasklist", &["/NH", "/FI", filter.as_str()]);
        assert(step.deep_view() =~~= alive_query_view(platform, kind@, name@)->0);
        Some(step)
    } else {
        None
    }
}

/// Whether something runs, by what the program said: a service whose state is "RUNNING", a process
/// that is on the list under its name in any case of letters. Elsewhere than on Windows everything
/// is taken to run.
pub open spec fn alive(
    platform: Platform,
    kind: Seq<char>,
    name: Seq<char>,
    output: Option<Seq<char>>,
) -> bool {
    if platform == Platform::Other {
        true
    } else if kind == "service"@ {
        output matches Some(text) && contains(text, "RUNNING"@)
    } else if kind == "process"@ {
        output matches Some(text) && contains(unicode_lowercase(text), unicode_lowercase(name))
    } else {
        false
    }
}

/// Whether something runs, by the text that the program wrote.
pub fn alive_by_text(platform: Platform, kind: &str, name: &str, output: Option<&str>) -> (yes: bool)
    ensures
        yes == alive(platform, kind@, name@, output.deep_view()),
{
    if platform == Platform::Other {
        return true;
    }
    match output {
        Some(text) => {
            if same_text(kind, "service") {
                let chars = chars_of(text);
                let word = chars_of("RUNNING");
                has(chars.as_slice(), word.as_slice())
            } else if same_text(kind, "process") {
                let chars = chars_of(to_lowercase(text).as_str());
                let word = chars_of(to_lowercase(name).as_str());
                has(chars.as_slice(), word.as_slice())
            } else {
                false
            }
        },
        None => false,
    }
}

/// Whether something runs, by what the program wrote. `output` is nothing where the program could
/// not be run.
pub fn check_alive(platform: Platform, kind: &str, name: &str, output: Option<&[u8]>) -> (yes: bool)
    ensures
        yes == alive(platform, kind@, name@, output_view(output)),
{
    match output_text(output) {
        Some(text) => alive_by_text(platform, kind, name, Some(text.as_str())),
        None => alive_by_text(platform, kind, name, None),
    }
}

// ---------------------------------------------------------------------------------------------
// Starting it again
// ---------------------------------------------------------------------------------------------

/// What the host finds out about the path of a program.
#[derive(Debug, Clone, Copy, PartialEq, Eq, Structural)]
pub struct PathFacts {
    /// The path is absolute.
    pub absolute: bool,
    /// A file lies there.
    pub is_file: bool,
}

/// The directories for programs and for the system, as the environment names them.
#[derive(Debug, PartialEq)]
pub struct SystemDirs {
    pub program_files: Option<String>,
    pub program_files_x86: Option<String>,
    pub system_root: Option<String>,
}

/// The mathematical value of a `SystemDirs`.
pub struct SystemDirsView {
    pub program_files: Option<Seq<char>>,
    pub program_files_x86: Option<Seq<char>>,
    pub system_root: Option<Seq<char>>,
}

impl DeepView for SystemDirs {
    type V = SystemDirsView;

    open spec fn deep_view(&self) -> SystemDirsView {
        SystemDirsView {
            program_files: self.program_files.deep_view(),
            program_files_x86: self.program_files_x86.deep_view(),
            system_root: self.system_root.deep_view(),
        }
    }
}

/// The directory that the environment names, or the usual one.
pub open spec fn dir_or(named: Option<Seq<char>>, usual: Seq<char>) -> Seq<char> {
    match named {
        Some(dir) => dir,
        None => usual,
    }
}

/// The directories that only an administrator writes to, in lower case.
pub open spec fn protected_roots(dirs: SystemDirsView) -> Seq<Seq<char>> {
    seq![
        unicode_lowercase(dir_or(dirs.program_files, "C:\\Program Files"@)),
        unicode_lowercase(dir_or(dirs.program_files_x86, "C:\\Program Files (x86)"@)),
        unicode_lowercase(dir_or(dirs.system_root, "C:\\Windows"@)),
        "c:\\programdata\\conectdesk"@,
    ]
}

/// The directories for the profiles of services, in lower case.
pub open spec fn service_profiles(dirs: SystemDirsView) -> Seq<Seq<char>> {
    let root = unicode_lowercase(dir_or(dirs.system_root, "C:\\Windows"@));
    seq![root + "\\serviceprofiles"@, root + "\\system32\\config\\systemprofile"@]
}

/// Points and spaces, as a predicate.
pub open spec fn points_and_spaces() -> spec_fn(char) -> bool {
    |c: char| c == '.' || c == ' '
}

/// The name that a component stands for: without points and spaces at its end, unless it has
/// nothing else.
pub open spec fn name_of_part(part: Seq<char>) -> Seq<char> {
    let name = trim_back(part, points_and_spaces());
    if name.len() == 0 {
        part
    } else {
        name
    }
}

/// Where components lead, the first of which stays as it is: an empty one and a single point lead
/// nowhere, two points lead up, and any other leads to its name. Spaces at the end do not count.
pub open spec fn resolved(parts: Seq<Seq<char>>) -> Seq<Seq<char>>
    decreases parts.len(),
{
    if parts.len() <= 1 {
        parts
    } else {
        let front = resolved(parts.drop_last());
        let part = trim_back(parts.last(), only(' '));
        if part.len() == 0 || part == "."@ {
            front
        } else if part == ".."@ {
            if front.len() > 1 {
                front.drop_last()
            } else {
                front
            }
        } else {
            front.push(name_of_part(part))
        }
    }
}

/// The components of the place that a path leads to. The separators are backslashes and slashes.
pub open spec fn path_parts(path: Seq<char>) -> Seq<Seq<char>> {
    resolved(split(replaced(path, '/', seq!['\\']), seq!['\\']))
}

/// The path lies below the directory, by whole components. The directory is not empty.
pub open spec fn lies_below(parts: Seq<Seq<char>>, root: Seq<Seq<char>>) -> bool {
    &&& root[0].len() > 0
    &&& root.len() < parts.len()
    &&& parts.take(root.len() as int) == root
}

/// The path lies below one of the directories.
pub open spec fn lies_below_one(parts: Seq<Seq<char>>, roots: Seq<Seq<char>>) -> bool {
    exists|i: int| 0 <= i < roots.len() && lies_below(parts, path_parts(#[trigger] roots[i]))
}

/// A directory for temporary files or for downloads, by its name.
pub open spec fn is_open_dir(name: Seq<char>) -> bool {
    name == "temp"@ || name == "downloads"@
}

/// The path leads through a directory for temporary files or for downloads.
pub open spec fn crosses_open_dir(parts: Seq<Seq<char>>) -> bool {
    exists|i: int| 0 <= i < parts.len() - 1 && is_open_dir(#[trigger] parts[i])
}

/// The path lies in the profile of a user: below "Users" on the drive, or where the profiles of
/// services are.
pub open spec fn lies_in_profile(parts: Seq<Seq<char>>, profiles: Seq<Seq<char>>) -> bool {
    (parts.len() > 2 && parts[1] == "users"@) || lies_below_one(parts, profiles)
}

/// The path, given in lower case, leads to a place below a protected directory, and to none that
/// others write to.
pub open spec fn is_protected(
    lower_path: Seq<char>,
    roots: Seq<Seq<char>>,
    profiles: Seq<Seq<char>>,
) -> bool {
    let parts = path_parts(lower_path);
    lies_below_one(parts, roots) && !crosses_open_dir(parts) && !lies_in_profile(parts, profiles)
}

/// A mark stands in the path that a shell reads as a quote, a chain, a pipe or a redirection.
pub open spec fn has_shell_mark(path: Seq<char>) -> bool {
    path.contains('"') || path.contains('&') || path.contains('|') || path.contains('<')
        || path.contains('>')
}

/// A program may be started again: an absolute path without marks of the shell, to a file that
/// ends in ".exe" and lies in a protected place. The path is also given in lower case.
pub open spec fn path_allowed(
    path: Seq<char>,
    lower_path: Seq<char>,
    facts: PathFacts,
    roots: Seq<Seq<char>>,
    profiles: Seq<Seq<char>>,
) -> bool {
    &&& facts.absolute
    &&& !has_shell_mark(path)
    &&& ends_in(lower_path, ".exe"@)
    &&& facts.is_file
    &&& is_protected(lower_path, roots, profiles)
}

/// A program may be started again.
pub open spec fn exec_allowed(path: Seq<char>, facts: PathFacts, dirs: SystemDirsView) -> bool {
    path_allowed(
        path,
        unicode_lowercase(path),
        facts,
        protected_roots(dirs),
        service_profiles(dirs),
    )
}

/// The name that a component stands for.
fn part_name(part: &[char]) -> (name: &[char])
    ensures
        name@ == name_of_part(part@),
{
    let mut end: usize = part.len();
    assert(part@.take(end as int) =~= part@);
    while end > 0 && (part[end - 1] == '.' || part[end - 1] == ' ')
        invariant
            end <= part@.len(),
            trim_back(part@, points_and_spaces()) == trim_back(
                part@.take(end as int),
                points_and_spaces(),
            ),
        decreases end,
    {
        assert(part@.take(end as int).drop_last() =~= part@.take(end as int - 1));
        end = end - 1;
    }
    if end == 0 {
        part
    } else {
        let name = slice_subrange(part, 0, end);
        assert(name@ =~= part@.take(end as int));
        name
    }
}

/// The components of the place that a path leads to.
pub fn parts_of(path: &str) -> (parts: Vec<String>)
    ensures
        parts.deep_view() == path_parts(path@),
        parts@.len() > 0,
{
    let chars = chars_of(path);
    let separator: [char; 1] = ['\\'];
    assert(separator@ =~= seq!['\\']);
    let uniform = replace(chars.as_slice(), '/', &separator);
    let components = split_at_each(uniform.as_slice(), &separator);
    let ghost all = pieces(components@);
    let mut parts: Vec<String> = Vec::new();
    assert(all[0] == components@[0]@);
    parts.push(string_of(components[0]));
    assert(parts.deep_view() =~= all.take(1));
    let point = chars_of(".");
    let up = chars_of("..");
    for i in 1..components.len()
        invariant
            components@.len() > 0,
            all == pieces(components@),
            point@ == "."@,
            up@ == ".."@,
            parts@.len() > 0,
            parts.deep_view() == resolved(all.take(i as int)),
    {
        let ghost before = parts.deep_view();
        proof {
            assert(all.take(i as int + 1).drop_last() =~= all.take(i as int));
            assert(all.take(i as int + 1).last() == components@[i as int]@);
        }
        let part = trim_end_char(components[i], ' ');
        if part.len() > 0 && !same_chars(part, point.as_slice()) {
            if same_chars(part, up.as_slice()) {
                if parts.len() > 1 {
                    parts.pop();
                    assert(parts.deep_view() =~= before.drop_last());
                }
            } else {
                let name = part_name(part);
                parts.push(string_of(name));
                assert(parts.deep_view() =~= before.push(name@));
            }
        }
    }
    assert(all.take(components@.len() as int) =~= all);
    parts
}

/// Whether the path lies below the directory.
fn below(parts: &Vec<String>, root: &Vec<String>) -> (yes: bool)
    requires
        root@.len() > 0,
    ensures
        yes == lies_below(parts.deep_view(), root.deep_view()),
{
    let ghost a = parts.deep_view();
    let ghost b = root.deep_view();
    assert(b[0] == root@[0]@);
    if root[0].as_str().is_empty() || root.len() >= parts.len() {
        return false;
    }
    for i in 0..root.len()
        invariant
            a == parts.deep_view(),
            b == root.deep_view(),
            root@.len() < parts@.len(),
            forall|j: int| 0 <= j < i ==> a[j] == b[j],
    {
        assert(a[i as int] == parts@[i as int]@ && b[i as int] == root@[i as int]@);
        if !same_text(parts[i].as_str(), root[i].as_str()) {
            assert(a.take(b.len() as int)[i as int] != b[i as int]);
            return false;
        }
    }
    assert(a.take(b.len() as int) =~= b);
    true
}

/// Whether the path leads through a directory for temporary files or for downloads.
fn open_dir_crossed(parts: &Vec<String>) -> (yes: bool)
    ensures
        yes == crosses_open_dir(parts.deep_view()),
{
    let ghost all = parts.deep_view();
    if parts.len() == 0 {
        return false;
    }
    let file: usize = parts.len() - 1;
    for i in 0..file
        invariant
            all == parts.deep_view(),
            file == parts@.len() - 1,
            forall|j: int| 0 <= j < i ==> !is_open_dir(#[trigger] all[j]),
    {
        assert(all[i as int] == parts@[i as int]@);
        let name = parts[i].as_str();
        if same_text(name, "temp") || same_text(name, "downloads") {
            return true;
        }
    }
    false
}

/// Whether the path lies below one of the directories.
fn below_one(parts: &Vec<String>, roots: &Vec<String>) -> (yes: bool)
    ensures
        yes == lies_below_one(parts.deep_view(), roots.deep_view()),
{
    let ghost all = roots.deep_view();
    for i in 0..roots.len()
        invariant
            all == roots.deep_view(),
            forall|j: int|
                0 <= j < i ==> !lies_below(parts.deep_view(), path_parts(#[trigger] all[j])),
    {
        assert(all[i as int] == roots@[i as int]@);
        if below(parts, &parts_of(roots[i].as_str())) {
            return true;
        }
    }
    false
}

/// Whether the path lies in the profile of a user.
fn in_profile(parts: &Vec<String>, profiles: &Vec<String>) -> (yes: bool)
    ensures
        yes == lies_in_profile(parts.deep_view(), profiles.deep_view()),
{
    if parts.len() > 2 {
        assert(parts.deep_view()[1] == parts@[1]@);
        if same_text(parts[1].as_str(), "users") {
            return true;
        }
    }
    below_one(parts, profiles)
}

/// Whether the path, given in lower case, leads to a protected place.
pub fn protected_place(lower_path: &str, roots: &Vec<String>, profiles: &Vec<String>) -> (yes: bool)
    ensures
        yes == is_protected(lower_path@, roots.deep_view(), profiles.deep_view()),
{
    let parts = parts_of(lower_path);
    below_one(&parts, roots) && !open_dir_crossed(&parts) && !in_profile(&parts, profiles)
}

/// Whether a program may be started again, with its path in lower case, the protected directories,
/// and those for profiles of services.
pub fn allowed_path(
    path: &str,
    lower_path: &str,
    facts: PathFacts,
    roots: &Vec<String>,
    profiles: &Vec<String>,
) -> (allowed: bool)
    ensures
        allowed == path_allowed(
            path@,
            lower_path@,
            facts,
            roots.deep_view(),
            profiles.deep_view(),
        ),
{
    if !facts.absolute || !facts.is_file {
        return false;
    }
    let chars = chars_of(path);
    let s = chars.as_slice();
    if has_char(s, '"') || has_char(s, '&') || has_char(s, '|') || has_char(s, '<') || has_char(
        s,
        '>',
    ) {
        return false;
    }
    let small = chars_of(lower_path);
    let ending = chars_of(".exe");
    ends_with(small.as_slice(), ending.as_slice()) && protected_place(lower_path, roots, profiles)
}

/// The directory that the environment names, or the usual one, in lower case.
fn lower_dir(named: &Option<String>, usual: &str) -> (dir: String)
    ensures
        dir@ == unicode_lowercase(dir_or(named.deep_view(), usual@)),
{
    match named {
        Some(dir) => to_lowercase(dir.as_str()),
        None => to_lowercase(usual),
    }
}

/// Whether a program may be started again.
pub fn watchdog_exec_allowed(path: &str, facts: PathFacts, dirs: &SystemDirs) -> (allowed: bool)
    ensures
        allowed == exec_allowed(path@, facts, dirs.deep_view()),
{
    let mut roots: Vec<String> = Vec::new();
    roots.push(lower_dir(&dirs.program_files, "C:\\Program Files"));
    roots.push(lower_dir(&dirs.program_files_x86, "C:\\Program Files (x86)"));
    roots.push(lower_dir(&dirs.system_root, "C:\\Windows"));
    roots.push("c:\\programdata\\conectdesk".to_owned());
    assert(roots.deep_view() =~= protected_roots(dirs.deep_view()));
    let system = lower_dir(&dirs.system_root, "C:\\Windows");
    let mut profiles: Vec<String> = Vec::new();
    profiles.push(glue(system.as_str(), "\\serviceprofiles"));
    profiles.push(glue(system.as_str(), "\\system32\\config\\systemprofile"));
    assert(profiles.deep_view() =~= service_profiles(dirs.deep_view()));
    allowed_path(path, to_lowercase(path).as_str(), facts, &roots, &profiles)
}

/// What is done to start something again.
#[derive(Debug, PartialEq)]
pub enum Restart {
    /// Nothing.
    Nothing,
    /// Nothing: the program may not be started.
    Refused,
    /// This step is taken.
    Take { step: Step },
}

/// The mathematical value of a `Restart`.
#[verifier::ext_equal]
pub enum RestartView {
    Nothing,
    Refused,
    Take { step: StepView },
}

impl DeepView for Restart {
    type V = RestartView;

    open spec fn deep_view(&self) -> RestartView {
        match *self {
            Restart::Nothing => RestartView::Nothing,
            Restart::Refused => RestartView::Refused,
            Restart::Take { step } => RestartView::Take { step: step.deep_view() },
        }
    }
}

/// What is done to start something again: a service is started by the service manager, a process
/// by its program, where it has one that may be started.
pub open spec fn restart(
    platform: Platform,
    kind: Seq<char>,
    name: Seq<char>,
    path: Seq<char>,
    facts: PathFacts,
    dirs: SystemDirsView,
) -> RestartView {
    if platform == Platform::Other {
        RestartView::Nothing
    } else if kind == "service"@ {
        RestartView::Take {
            step: StepView::Run { program: "sc.exe"@, args: seq!["start"@, name] },
        }
    } else if kind == "process"@ && path.len() > 0 {
        if exec_allowed(path, facts, dirs) {
            RestartView::Take { step: StepView::Spawn { program: path, args: Seq::empty() } }
        } else {
            RestartView::Refused
        }
    } else {
        RestartView::Nothing
    }
}

/// Decides what is done to start something again.
pub fn attempt_restart(
    platform: Platform,
    kind: &str,
    name: &str,
    path: &str,
    facts: PathFacts,
    dirs: &SystemDirs,
) -> (plan: Restart)
    ensures
        plan.deep_view() == restart(platform, kind@, name@, path@, facts, dirs.deep_view()),
{
    if platform == Platform::Other {
        Restart::Nothing
    } else if same_text(kind, "service") {
        let step = run("sc.exe", &["start", name]);
        assert(step.deep_view() =~~= (StepView::Run {
            program: "sc.exe"@,
            args: seq!["start"@, name@],
        }));
        Restart::Take { step }
    } else if same_text(kind, "process") && !path.is_empty() {
        if !watchdog_exec_allowed(path, facts, dirs) {
            return Restart::Refused;
        }
        let step = spawn(path, &[]);
        assert(step.deep_view() =~~= (StepView::Spawn { program: path@, args: Seq::empty() }));
        Restart::Take { step }
    } else {
        Restart::Nothing
    }
}

// ---------------------------------------------------------------------------------------------
// The list of the panel
// ---------------------------------------------------------------------------------------------

/// One thing that is watched.
#[derive(Debug, PartialEq)]
pub struct WatchItem {
    pub id: String,
    pub kind: String,
    pub name: String,
    pub auto_restart: bool,
    pub exec_path: String,
}

/// The mathematical value of a `WatchItem`.
pub struct WatchItemView {
    pub id: Seq<char>,
    pub kind: Seq<char>,
    pub name: Seq<char>,
    pub auto_restart: bool,
    pub exec_path: Seq<char>,
}

impl DeepView for WatchItem {
    type V = WatchItemView;

    open spec fn deep_view(&self) -> WatchItemView {
        WatchItemView {
            id: self.id@,
            kind: self.kind@,
            name: self.name@,
            auto_restart: self.auto_restart,
            exec_path: self.exec_path@,
        }
    }
}

/// The item that a JSON value describes.
pub open spec fn watch_item(item: JsonView) -> WatchItemView {
    WatchItemView {
        id: item.text_field("id"@),
        kind: item.text_field("kind"@),
        name: item.text_field("name"@),
        auto_restart: item.integer_field("auto_restart"@) == Some(1i64),
        exec_path: item.text_field("exec_path"@),
    }
}

/// The items in the panel's reply: nothing where it has no list of them.
pub open spec fn watch_list(reply: JsonView) -> Option<Seq<WatchItemView>> {
    match reply.items_field("items"@) {
        Some(items) => Some(items.map_values(|item: JsonView| watch_item(item))),
        None => None,
    }
}

/// Reads the items in the panel's reply.
pub fn watch_items(reply: &Json) -> (list: Option<Vec<WatchItem>>)
    ensures
        list.deep_view() == watch_list(reply@),
{
    match reply.items_field("items") {
        Some(items) => {
            let mut list: Vec<WatchItem> = Vec::new();
            for i in 0..items.len()
                invariant
                    list@.len() == i,
                    forall|j: int|
                        0 <= j < i ==> (#[trigger] list@[j]).deep_view() == watch_item(items@[j]@),
            {
                let item = &items[i];
                let auto_restart = match item.integer_field("auto_restart") {
                    Some(n) => n == 1,
                    None => false,
                };
                list.push(
                    WatchItem {
                        id: item.text_field("id"),
                        kind: item.text_field("kind"),
                        name: item.text_field("name"),
                        auto_restart,
                        exec_path: item.text_field("exec_path"),
                    },
                );
            }
            assert(list.deep_view() =~= watch_list(reply@)->0);
            Some(list)
        },
        None => None,
    }
}

/// What is reported of an item.
pub open spec fn watch_report_body(id: Seq<char>, running: bool) -> JsonView {
    JsonView::Object(
        seq![
            ("id"@, JsonView::Text(id)),
            (
                "status"@,
                JsonView::Text(
                    if running {
                        "running"@
                    } else {
                        "stopped"@
                    },
                ),
            ),
        ],
    )
}

/// What is done about an item by whether it runs: one that does not, and is to be kept running, is
/// started again.
pub open spec fn watch_step(
    platform: Platform,
    item: WatchItemView,
    running: bool,
    facts: PathFacts,
    dirs: SystemDirsView,
) -> RestartView {
    if !running && item.auto_restart {
        restart(platform, item.kind, item.name, item.exec_path, facts, dirs)
    } else {
        RestartView::Nothing
    }
}

/// The report on an item.
fn watch_report(item: &WatchItem, running: bool, base: &str, token: &str) -> (request: Request)
    ensures
        request.deep_view() == agent_request_view(
            Endpoint::WatchdogReport,
            base@,
            token@,
            Some(watch_report_body(item.id@, running)),
        ),
{
    let mut fields: Vec<(String, Json)> = Vec::new();
    push_field(&mut fields, "id", Json::text(item.id.as_str()));
    let status = if running {
        "running"
    } else {
        "stopped"
    };
    push_field(&mut fields, "status", Json::text(status));
    assert(fields.deep_view() =~= watch_report_body(item.id@, running)->Object_0);
    agent_request(Endpoint::WatchdogReport, base, token, Some(Json::object(fields)))
}

/// Decides about an item that was found running or not: what is done about it, and what is reported
/// of it.
pub fn watch_decision(
    platform: Platform,
    item: &WatchItem,
    running: bool,
    facts: PathFacts,
    dirs: &SystemDirs,
    base: &str,
    token: &str,
) -> (decision: (Restart, Request))
    ensures
        decision.0.deep_view() == watch_step(
            platform,
            item.deep_view(),
            running,
            facts,
            dirs.deep_view(),
        ),
        decision.1.deep_view() == agent_request_view(
            Endpoint::WatchdogReport,
            base@,
            token@,
            Some(watch_report_body(item.id@, running)),
        ),
{
    let plan = if !running && item.auto_restart {
        attempt_restart(
            platform,
            item.kind.as_str(),
            item.name.as_str(),
            item.exec_path.as_str(),
            facts,
            dirs,
        )
    } else {
        Restart::Nothing
    };
    (plan, watch_report(item, running, base, token))
}

/// Decides about an item, by what the program wrote that was asked whether it runs.
pub fn run_watchdog(
    platform: Platform,
    item: &WatchItem,
    output: Option<&[u8]>,
    facts: PathFacts,
    dirs: &SystemDirs,
    base: &str,
    token: &str,
) -> (decision: (Restart, Request))
    ensures
        ({
            let running = alive(platform, item.kind@, item.name@, output_view(output));
            &&& decision.0.deep_view() == watch_step(
                platform,
                item.deep_view(),
                running,
                facts,
                dirs.deep_view(),
            )
            &&& decision.1.deep_view() == agent_request_view(
                Endpoint::WatchdogReport,
                base@,
                token@,
                Some(watch_report_body(item.id@, running)),
            )
        }),
{
    let running = check_alive(platform, item.kind.as_str(), item.name.as_str(), output);
    watch_decision(platform, item, running, facts, dirs, base, token)
}

// ---------------------------------------------------------------------------------------------
// Laws
// ---------------------------------------------------------------------------------------------

/// A program that the panel names is started only where its path is one that is allowed, and with
/// no arguments.
pub proof fn law_only_allowed_programs_start(
    platform: Platform,
    kind: Seq<char>,
    name: Seq<char>,
    path: Seq<char>,
    facts: PathFacts,
    dirs: SystemDirsView,
)
    ensures
        restart(platform, kind, name, path, facts, dirs) matches RestartView::Take { step } ==> step
            == (StepView::Run { program: "sc.exe"@, args: seq!["start"@, name] }) || (step
            == (StepView::Spawn { program: path, args: Seq::empty() }) && exec_allowed(
            path,
            facts,
            dirs,
        )),
{
}

/// A program that may be started lies below a protected directory by whole components, once its
/// path is resolved, and neither below a directory for temporary files or downloads nor in a
/// profile.
pub proof fn law_allowed_programs_lie_in_protected_places(
    path: Seq<char>,
    facts: PathFacts,
    dirs: SystemDirsView,
    i: int,
)
    requires
        exec_allowed(path, facts, dirs),
        0 <= i < path_parts(unicode_lowercase(path)).len(),
    ensures
        ({
            let parts = path_parts(unicode_lowercase(path));
            &&& i > 0 ==> parts[i] != ".."@ && parts[i] != "."@ && parts[i].len() > 0
            &&& i < parts.len() - 1 ==> !is_open_dir(parts[i])
            &&& !lies_in_profile(parts, service_profiles(dirs))
            &&& lies_below_one(parts, protected_roots(dirs))
        }),
{
    let text = unicode_lowercase(path);
    if i > 0 {
        lemma_resolved_names(split(replaced(text, '/', seq!['\\']), seq!['\\']), i);
    }
}

/// No component of a resolved path leads up or nowhere.
proof fn lemma_resolved_names(parts: Seq<Seq<char>>, i: int)
    requires
        0 < i < resolved(parts).len(),
    ensures
        resolved(parts)[i].len() > 0,
        resolved(parts)[i] != "."@,
        resolved(parts)[i] != ".."@,
    decreases parts.len(),
{
    if parts.len() > 1 {
        let front = resolved(parts.drop_last());
        if i < front.len() {
            lemma_resolved_names(parts.drop_last(), i);
        } else {
            reveal_strlit(".");
            reveal_strlit("..");
            let part = trim_back(parts.last(), only(' '));
            lemma_no_mark_at_the_end(part);
        }
    }
}

/// A name without points and spaces at its end does not end in one.
proof fn lemma_no_mark_at_the_end(part: Seq<char>)
    ensures
        ({
            let name = trim_back(part, points_and_spaces());
            name.len() > 0 ==> name.last() != '.' && name.last() != ' '
        }),
    decreases part.len(),
{
    if part.len() > 0 && (part.last() == '.' || part.last() == ' ') {
        lemma_no_mark_at_the_end(part.drop_last());
    }
}

/// Two points undo the component before them.
pub proof fn law_two_points_lead_up(parts: Seq<Seq<char>>, part: Seq<char>)
    requires
        parts.len() > 0,
        resolved(parts.push(part)).len() == resolved(parts).len() + 1,
    ensures
        resolved(parts.push(part).push(".."@)) == resolved(parts),
{
    reveal_strlit(".");
    reveal_strlit("..");
    let once = parts.push(part);
    assert(once.drop_last() =~= parts);
    assert(once.push(".."@).drop_last() =~= once);
    assert(once.push(".."@).last() == ".."@);
    reveal_with_fuel(trim_back, 2);
    assert(trim_back(".."@, only(' ')) == ".."@);
    assert(resolved(once).drop_last() =~= resolved(parts));
    lemma_resolved_not_empty(parts);
}

/// A resolved path keeps its first component.
proof fn lemma_resolved_not_empty(parts: Seq<Seq<char>>)
    requires
        parts.len() > 0,
    ensures
        resolved(parts).len() > 0,
    decreases parts.len(),
{
    if parts.len() > 1 {
        lemma_resolved_not_empty(parts.drop_last());
    }
}

/// A directory whose name only begins with that of a protected one is not protected by it.
pub proof fn law_longer_names_are_other_directories(
    parts: Seq<Seq<char>>,
    root: Seq<Seq<char>>,
    i: int,
)
    requires
        0 <= i < root.len(),
        i < parts.len(),
        parts[i].len() != root[i].len(),
    ensures
        !lies_below(parts, root),
{
    if lies_below(parts, root) {
        assert(parts.take(root.len() as int)[i] == root[i]);
    }
}

/// Nothing is started again on other platforms, nor where the kind is neither a service nor a
/// process.
pub proof fn law_unknown_kinds_are_left_alone(
    platform: Platform,
    kind: Seq<char>,
    name: Seq<char>,
    path: Seq<char>,
    facts: PathFacts,
    dirs: SystemDirsView,
)
    requires
        platform == Platform::Other || (kind != "service"@ && kind != "process"@),
    ensures
        restart(platform, kind, name, path, facts, dirs) is Nothing,
{
}

/// What runs is left alone, and so is what the panel does not want kept running.
pub proof fn law_running_programs_are_left_alone(
    platform: Platform,
    item: WatchItemView,
    running: bool,
    facts: PathFacts,
    dirs: SystemDirsView,
)
    requires
        running || !item.auto_restart,
    ensures
        watch_step(platform, item, running, facts, dirs) is Nothing,
{
}

/// A service runs exactly where the word "RUNNING" stands somewhere in what the service manager
/// wrote, whatever stands before it and behind it.
pub proof fn law_service_runs_where_its_state_says_so(
    name: Seq<char>,
    a: Seq<char>,
    b: Seq<char>,
    text: Seq<char>,
)
    ensures
        alive(Platform::Windows, "service"@, name, Some(a + "RUNNING"@ + b)),
        alive(Platform::Windows, "service"@, name, Some(text)) ==> exists|x: Seq<char>, y: Seq<char>|
            text == #[trigger] (x + "RUNNING"@ + y),
        !alive(Platform::Windows, "service"@, name, None),
{
    lemma_stands_between(a, "RUNNING"@, b);
    law_contains_is_to_stand_between(text, "RUNNING"@);
}

/// A process runs exactly where its name stands somewhere on the list, both in lower case.
pub proof fn law_process_runs_where_it_is_listed(
    name: Seq<char>,
    text: Seq<char>,
    a: Seq<char>,
    b: Seq<char>,
)
    ensures
        unicode_lowercase(text) == a + unicode_lowercase(name) + b ==> alive(
            Platform::Windows,
            "process"@,
            name,
            Some(text),
        ),
        alive(Platform::Windows, "process"@, name, Some(text)) ==> exists|
            x: Seq<char>,
            y: Seq<char>,
        | unicode_lowercase(text) == #[trigger] (x + unicode_lowercase(name) + y),
        !alive(Platform::Windows, "process"@, name, None),
{
    reveal_strlit("service");
    reveal_strlit("process");
    assert("service"@[0] == 's' && "process"@[0] == 'p');
    lemma_stands_between(a, unicode_lowercase(name), b);
    law_contains_is_to_stand_between(unicode_lowercase(text), unicode_lowercase(name));
}

/// Elsewhere than on Windows everything runs and nothing is asked. On Windows what is neither a
/// service nor a process does not run.
pub proof fn law_only_windows_is_asked(
    kind: Seq<char>,
    name: Seq<char>,
    output: Option<Seq<char>>,
)
    ensures
        alive(Platform::Other, kind, name, output),
        alive_query_view(Platform::Other, kind, name) is None,
        kind != "service"@ && kind != "process"@ ==> !alive(Platform::Windows, kind, name, output)
            && alive_query_view(Platform::Windows, kind, name) is None,
        alive_query_view(Platform::Windows, "service"@, name) == Some(
            StepView::Run { program: "sc.exe"@, args: seq!["query"@, name] },
        ),
        alive_query_view(Platform::Windows, "process"@, name) == Some(
            StepView::Run {
                program: "tasklist"@,
                args: seq!["/NH"@, "/FI"@, "IMAGENAME eq "@ + name],
            },
        ),
{
    reveal_strlit("service");
    reveal_strlit("process");
    assert("service"@[0] == 's' && "process"@[0] == 'p');
}

/// Every item that stopped and is to be kept running is started again: a service by the service
/// manager, whatever its path, and a process by its program, where it may be started.
pub proof fn law_stopped_items_are_started_again(
    item: WatchItemView,
    facts: PathFacts,
    dirs: SystemDirsView,
)
    requires
        item.auto_restart,
    ensures
        item.kind == "service"@ ==> watch_step(Platform::Windows, item, false, facts, dirs) == (
        RestartView::Take {
            step: StepView::Run { program: "sc.exe"@, args: seq!["start"@, item.name] },
        }),
        item.kind == "process"@ && item.exec_path.len() > 0 ==> watch_step(
            Platform::Windows,
            item,
            false,
            facts,
            dirs,
        ) == (if exec_allowed(item.exec_path, facts, dirs) {
            RestartView::Take {
                step: StepView::Spawn { program: item.exec_path, args: Seq::empty() },
            }
        } else {
            RestartView::Refused
        }),
        item.kind == "process"@ && item.exec_path.len() == 0 ==> watch_step(
            Platform::Windows,
            item,
            false,
            facts,
            dirs,
        ) is Nothing,
{
    reveal_strlit("service");
    reveal_strlit("process");
    assert("service"@[0] == 's' && "process"@[0] == 'p');
}

/// Each item of the panel's list is watched in its place, with what the list says of it: it is kept
/// running exactly where its number is one. The report says whether it runs.
pub proof fn law_every_item_is_watched(reply: JsonView, items: Seq<JsonView>, i: int, running: bool)
    requires
        reply.field("items"@) == Some(JsonView::Array(items)),
        0 <= i < items.len(),
    ensures
        watch_list(reply) matches Some(list) && list.len() == items.len() && ({
            let item = list[i];
            &&& item.id == items[i].text_field("id"@)
            &&& item.kind == items[i].text_field("kind"@)
            &&& item.name == items[i].text_field("name"@)
            &&& item.exec_path == items[i].text_field("exec_path"@)
            &&& item.auto_restart <==> items[i].field("auto_restart"@) == Some(
                JsonView::Unsigned(1),
            ) || items[i].field("auto_restart"@) == Some(JsonView::Negative(1))
            &&& watch_report_body(item.id, running) == JsonView::Object(
                seq![
                    ("id"@, JsonView::Text(item.id)),
                    (
                        "status"@,
                        if running {
                            JsonView::Text("running"@)
                        } else {
                            JsonView::Text("stopped"@)
                        },
                    ),
                ],
            )
        }),
{
}

/// A name that stands for itself in a path: not empty, without separators, and without a point or a
/// space at its end.
pub open spec fn is_plain_part(part: Seq<char>) -> bool {
    &&& part.len() > 0
    &&& !part.contains('\\')
    &&& !part.contains('/')
    &&& part.last() != '.'
    &&& part.last() != ' '
}

/// Every component is plain.
pub open spec fn are_plain_parts(parts: Seq<Seq<char>>) -> bool {
    forall|i: int| 0 <= i < parts.len() ==> is_plain_part(#[trigger] parts[i])
}

/// A path of plain names leads to just those names, with backslashes or with slashes between them.
pub proof fn law_plain_path_leads_through_its_names(parts: Seq<Seq<char>>, separator: char)
    requires
        parts.len() > 0,
        are_plain_parts(parts),
        separator == '\\' || separator == '/',
    ensures
        path_parts(joined(parts, separator)) == parts,
{
    lemma_joined_comes_apart(parts, separator);
    lemma_plain_is_resolved(parts);
}

/// The names of a path come apart at its separators.
proof fn lemma_joined_comes_apart(parts: Seq<Seq<char>>, separator: char)
    requires
        parts.len() > 0,
        are_plain_parts(parts),
        separator == '\\' || separator == '/',
    ensures
        replaced(joined(parts, separator), '/', seq!['\\']) == joined(parts, '\\'),
        split(joined(parts, '\\'), seq!['\\']) == parts,
    decreases parts.len(),
{
    let part = parts[0];
    assert(is_plain_part(part));
    lemma_replaced_nowhere(part, '/', seq!['\\']);
    if parts.len() == 1 {
        lemma_only_part(part, '\\');
        assert(seq![part] =~= parts);
    } else {
        let rest = parts.drop_first();
        assert forall|i: int| 0 <= i < rest.len() implies is_plain_part(#[trigger] rest[i]) by {
            assert(rest[i] == parts[i + 1]);
        }
        lemma_joined_comes_apart(rest, separator);
        law_replacing_goes_by_characters(
            part,
            separator,
            joined(rest, separator),
            '/',
            seq!['\\'],
        );
        lemma_first_part(part, '\\', joined(rest, '\\'));
        assert(seq![part] + rest =~= parts);
    }
}

/// Plain names stay as they are.
proof fn lemma_plain_is_resolved(parts: Seq<Seq<char>>)
    requires
        are_plain_parts(parts),
    ensures
        resolved(parts) == parts,
    decreases parts.len(),
{
    if parts.len() > 1 {
        let front = parts.drop_last();
        assert forall|i: int| 0 <= i < front.len() implies is_plain_part(#[trigger] front[i]) by {
            assert(front[i] == parts[i]);
        }
        lemma_plain_is_resolved(front);
        let last = parts[parts.len() - 1];
        assert(is_plain_part(last));
        assert(trim_back(last, only(' ')) == last);
        assert(trim_back(last, points_and_spaces()) == last);
        reveal_strlit(".");
        reveal_strlit("..");
        assert("."@.last() == '.' && ".."@.last() == '.');
        assert(front.push(last) =~= parts);
    }
}

/// Every program below a protected directory may be started: an absolute path of plain names to a
/// file that ends in ".exe", however deep it lies, unless it leads through a directory for temporary
/// files or downloads, or lies in a profile.
pub proof fn law_every_program_in_a_protected_place_may_start(
    path: Seq<char>,
    root: Seq<Seq<char>>,
    names: Seq<Seq<char>>,
    roots: Seq<Seq<char>>,
    k: int,
    profiles: Seq<Seq<char>>,
    stem: Seq<char>,
)
    requires
        !path.contains('"') && !path.contains('&') && !path.contains('|') && !path.contains('<')
            && !path.contains('>'),
        root.len() > 0 && are_plain_parts(root),
        names.len() > 0 && are_plain_parts(names),
        0 <= k < roots.len() && roots[k] == joined(root, '\\'),
        forall|i: int|
            0 <= i < root.len() ==> #[trigger] root[i] != "temp"@ && root[i] != "downloads"@,
        forall|i: int|
            0 <= i < names.len() - 1 ==> #[trigger] names[i] != "temp"@ && names[i]
                != "downloads"@,
        (root + names).len() > 2 ==> (root + names)[1] != "users"@,
        !lies_below_one(root + names, profiles),
        joined(root + names, '\\') == stem + ".exe"@,
    ensures
        path_allowed(
            path,
            joined(root + names, '\\'),
            PathFacts { absolute: true, is_file: true },
            roots,
            profiles,
        ),
{
    let parts = root + names;
    assert forall|i: int| 0 <= i < parts.len() implies is_plain_part(#[trigger] parts[i]) by {
        if i < root.len() {
            assert(parts[i] == root[i]);
        } else {
            assert(parts[i] == names[i - root.len()]);
        }
    }
    law_plain_path_leads_through_its_names(parts, '\\');
    law_plain_path_leads_through_its_names(root, '\\');
    assert(is_plain_part(root[0]));
    assert(parts.take(root.len() as int) =~= root);
    assert(lies_below(parts, path_parts(roots[k])));
    assert forall|i: int| 0 <= i < parts.len() - 1 implies !is_open_dir(#[trigger] parts[i]) by {
        if i < root.len() {
            assert(parts[i] == root[i]);
        } else {
            assert(parts[i] == names[i - root.len()]);
        }
    }
    law_beginnings_and_endings(joined(parts, '\\'), ".exe"@);
    assert(joined(parts, '\\') == (stem + ".exe"@));
}

/// No other program may be started: not by a relative path, not where there is no file, not with a
/// mark of the shell in the path, not with another ending, not outside the protected directories,
/// not through a directory for temporary files or downloads, and not in a profile.
pub proof fn law_no_other_program_may_start(
    path: Seq<char>,
    lower_path: Seq<char>,
    facts: PathFacts,
    roots: Seq<Seq<char>>,
    profiles: Seq<Seq<char>>,
    i: int,
)
    requires
        ({
            let parts = path_parts(lower_path);
            ||| !facts.absolute
            ||| !facts.is_file
            ||| path.contains('"') || path.contains('&') || path.contains('|')
            ||| path.contains('<') || path.contains('>')
            ||| forall|a: Seq<char>| lower_path != #[trigger] (a + ".exe"@)
            ||| 0 <= i < parts.len() - 1 && (parts[i] == "temp"@ || parts[i] == "downloads"@)
            ||| parts.len() > 2 && parts[1] == "users"@
            ||| lies_below_one(parts, profiles)
            ||| !lies_below_one(parts, roots)
        }),
    ensures
        !path_allowed(path, lower_path, facts, roots, profiles),
{
    let parts = path_parts(lower_path);
    law_beginnings_and_endings(lower_path, ".exe"@);
    if 0 <= i < parts.len() - 1 && (parts[i] == "temp"@ || parts[i] == "downloads"@) {
        assert(is_open_dir(parts[i]));
    }
}

/// The protected directories are those for programs and for the system, as the environment names
/// them or else the usual ones, and that of the agent.
pub proof fn law_protected_directories(dirs: SystemDirsView)
    ensures
        protected_roots(dirs).len() == 4,
        protected_roots(dirs)[0] == unicode_lowercase(
            if dirs.program_files is Some {
                dirs.program_files->0
            } else {
                "C:\\Program Files"@
            },
        ),
        protected_roots(dirs)[1] == unicode_lowercase(
            if dirs.program_files_x86 is Some {
                dirs.program_files_x86->0
            } else {
                "C:\\Program Files (x86)"@
            },
        ),
        protected_roots(dirs)[2] == unicode_lowercase(
            if dirs.system_root is Some {
                dirs.system_root->0
            } else {
                "C:\\Windows"@
            },
        ),
        protected_roots(dirs)[3] == "c:\\programdata\\conectdesk"@,
        service_profiles(dirs) == seq![
            protected_roots(dirs)[2] + "\\serviceprofiles"@,
            protected_roots(dirs)[2] + "\\system32\\config\\systemprofile"@,
        ],
{
}

/// A component that leads nowhere changes nothing, wherever it stands: an empty one, a single point,
/// and spaces behind either.
pub proof fn law_empty_components_lead_nowhere(parts: Seq<Seq<char>>, spaces: nat)
    requires
        parts.len() > 0,
    ensures
        resolved(parts.push(Seq::new(spaces, |i: int| ' '))) == resolved(parts),
        resolved(parts.push("."@ + Seq::new(spaces, |i: int| ' '))) == resolved(parts),
{
    let none = Seq::new(spaces, |i: int| ' ');
    let point = "."@ + none;
    reveal_strlit(".");
    assert(parts.push(none).drop_last() =~= parts);
    assert(parts.push(point).drop_last() =~= parts);
    law_marks_at_the_end_are_trimmed(Seq::empty(), spaces, ' ');
    assert(Seq::<char>::empty() + none =~= none);
    law_marks_at_the_end_are_trimmed("."@, spaces, ' ');
}

/// What lies below a directory is the directory with at least one name more, and nothing else: the
/// directory itself does not.
pub proof fn law_below_is_at_least_one_name_deeper(
    root: Seq<Seq<char>>,
    names: Seq<Seq<char>>,
    parts: Seq<Seq<char>>,
)
    requires
        root.len() > 0 && root[0].len() > 0,
    ensures
        lies_below(root + names, root) <==> names.len() > 0,
        lies_below(parts, root) ==> exists|more: Seq<Seq<char>>|
            more.len() > 0 && parts == #[trigger] (root + more),
        !lies_below(parts, seq![Seq::empty()]),
{
    assert((root + names).take(root.len() as int) =~= root);
    if lies_below(parts, root) {
        assert(parts =~= root + parts.skip(root.len() as int));
    }
}

} // verus!
