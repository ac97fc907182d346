//! Settings that the agent keeps for itself and for the user interface.

use vstd::prelude::*;
use crate::command::Platform;
use crate::json::{is_text_table, reads_back, text_of_json, Json, JsonView};

verus! {

/// The token of the agent.
pub const TOKEN_KEY: &'static str = "conectdesk_token";

/// When the logo that is kept was changed.
pub const BRANDING_TS_KEY: &'static str = "cd_logo_updated_at";

/// The name of the brand.
pub const BRAND_NAME_KEY: &'static str = "cd_brand_name";

/// Where the logo is kept.
pub const BRAND_LOGO_PATH_KEY: &'static str = "cd_brand_logo_path";

/// The ids of the active sessions.
pub const ACTIVE_SESSION_ID_KEY: &'static str = "cd_active_session_id";

/// The name of the first technician.
pub const ACTIVE_SESSION_TECH_NAME_KEY: &'static str = "cd_active_session_tech_name";

/// Where the photo of the first technician is kept.
pub const ACTIVE_SESSION_TECH_PHOTO_PATH_KEY: &'static str = "cd_active_session_tech_photo_path";

/// All technicians with their photos.
pub const ACTIVE_SESSIONS_JSON_KEY: &'static str = "cd_active_sessions";

/// The last sessions.
pub const SESSION_HISTORY_KEY: &'static str = "cd_session_history";

/// Settings with their values, in the order in which they are written.
pub type Writes = Vec<(String, String)>;

/// The mathematical value of `Writes`.
pub type WritesView = Seq<(Seq<char>, Seq<char>)>;

/// A setting with the text of a JSON value.
pub open spec fn json_write(key: Seq<char>, json: JsonView) -> (Seq<char>, Seq<char>) {
    (key, text_of_json(json))
}

/// Adds a setting with a text.
pub fn write_text(writes: &mut Writes, key: &str, text: &str)
    ensures
        final(writes).deep_view() == old(writes).deep_view().push((key@, text@)),
{
    let ghost before = writes.deep_view();
    writes.push((key.to_owned(), text.to_owned()));
    assert(writes.deep_view() =~= before.push((key@, text@)));
}

/// Adds a setting with the text of a JSON value.
pub fn write_json(writes: &mut Writes, key: &str, json: &Json)
    ensures
        final(writes).deep_view() == old(writes).deep_view().push(json_write(key@, json@)),
        text_of_json(json@).len() > 0,
        is_text_table(json@) ==> reads_back(text_of_json(json@), json@),
{
    let text = json.to_text();
    write_text(writes, key, text.as_str());
}

/// The settings after the writes.
pub open spec fn settings_after(
    settings: Map<Seq<char>, Seq<char>>,
    writes: WritesView,
) -> Map<Seq<char>, Seq<char>>
    decreases writes.len(),
{
    if writes.len() == 0 {
        settings
    } else {
        settings_after(settings, writes.drop_last()).insert(writes.last().0, writes.last().1)
    }
}

/// The text that a setting is read as. One that was never written is read as the empty text.
pub open spec fn setting(settings: Map<Seq<char>, Seq<char>>, key: Seq<char>) -> Seq<char> {
    if settings.contains_key(key) {
        settings[key]
    } else {
        Seq::empty()
    }
}

// ---------------------------------------------------------------------------------------------
// Files for the user interface
// ---------------------------------------------------------------------------------------------

/// The directory under which the files for the user interface are kept.
#[derive(Debug, Clone, Copy, PartialEq, Eq, Structural)]
pub enum SharedBase {
    /// What the environment has as PROGRAMDATA.
    ProgramData,
    /// What the environment has as ALLUSERSPROFILE.
    AllUsers,
    /// The state directory of services.
    VarLib,
    /// The temporary directory.
    Temp,
}

/// The name of the directory in there.
pub const SHARED_DIR: &'static str = "ConectDesk";

/// The directory under which the files are kept, by which variables the environment has.
pub open spec fn shared_base(
    platform: Platform,
    has_program_data: bool,
    has_all_users: bool,
) -> SharedBase {
    match platform {
        Platform::Windows => if has_program_data {
            SharedBase::ProgramData
        } else if has_all_users {
            SharedBase::AllUsers
        } else {
            SharedBase::Temp
        },
        Platform::Other => SharedBase::VarLib,
    }
}

/// Chooses the directory, out of which variables the environment has. All users can read it: the
/// agent writes as a service, and the user interface reads as the user.
pub fn cd_shared_dir(platform: Platform, has_program_data: bool, has_all_users: bool) -> (base:
    SharedBase)
    ensures
        base == shared_base(platform, has_program_data, has_all_users),
{
    match platform {
        Platform::Windows => if has_program_data {
            SharedBase::ProgramData
        } else if has_all_users {
            SharedBase::AllUsers
        } else {
            SharedBase::Temp
        },
        Platform::Other => SharedBase::VarLib,
    }
}

// ---------------------------------------------------------------------------------------------
// Approval
// ---------------------------------------------------------------------------------------------

/// The settings for sessions that the user approves with a click, and for sessions with a password.
pub open spec fn approval_settings(require_approval: bool) -> WritesView {
    if require_approval {
        seq![
            ("approve-mode"@, "click"@),
            ("allow-hide-cm"@, "N"@),
            ("hide_cm"@, "false"@),
        ]
    } else {
        seq![
            ("approve-mode"@, "password"@),
            ("allow-hide-cm"@, "Y"@),
            ("hide_cm"@, "true"@),
        ]
    }
}

/// What is written for the mode that the panel asks for: nothing where it was written last.
pub open spec fn approval_writes(last: Option<bool>, require_approval: bool) -> WritesView {
    if last == Some(require_approval) {
        Seq::empty()
    } else {
        approval_settings(require_approval)
    }
}

/// Decides what is written for the mode that the panel asks for. `last` is the mode that was
/// written last, and then the one that the panel asks for.
pub fn apply_approve_mode(last: &mut Option<bool>, require_approval: bool) -> (writes: Writes)
    ensures
        *final(last) == Some(require_approval),
        writes.deep_view() == approval_writes(*old(last), require_approval),
{
    let mut writes: Writes = Vec::new();
    let same = match *last {
        Some(mode) => mode == require_approval,
        None => false,
    };
    let ghost want = approval_writes(*last, require_approval);
    if !same {
        *last = Some(require_approval);
        if require_approval {
            write_text(&mut writes, "approve-mode", "click");
            write_text(&mut writes, "allow-hide-cm", "N");
            write_text(&mut writes, "hide_cm", "false");
        } else {
            write_text(&mut writes, "approve-mode", "password");
            write_text(&mut writes, "allow-hide-cm", "Y");
            write_text(&mut writes, "hide_cm", "true");
        }
    }
    assert(writes.deep_view() =~= want);
    writes
}

/// Asking for the same mode twice writes it once.
pub proof fn law_same_mode_is_written_once(last: Option<bool>, require_approval: bool)
    ensures
        approval_writes(Some(require_approval), require_approval).len() == 0,
        last != Some(require_approval) ==> approval_writes(last, require_approval)
            == approval_settings(require_approval),
{
}

/// Once a mode is written, the window in which the user approves is shown exactly where the user
/// has to approve, whatever the settings were.
pub proof fn law_window_is_shown_for_approval(
    settings: Map<Seq<char>, Seq<char>>,
    require_approval: bool,
)
    ensures
        ({
            let after = settings_after(settings, approval_settings(require_approval));
            &&& setting(after, "approve-mode"@) == (if require_approval {
                    "click"@
                } else {
                    "password"@
                })
            &&& setting(after, "hide_cm"@) == (if require_approval {
                    "false"@
                } else {
                    "true"@
                })
            &&& setting(after, "allow-hide-cm"@) == (if require_approval {
                    "N"@
                } else {
                    "Y"@
                })
        }),
{
    reveal_strlit("approve-mode");
    reveal_strlit("allow-hide-cm");
    reveal_strlit("hide_cm");
    assert("approve-mode"@[1] == 'p' && "allow-hide-cm"@[1] == 'l' && "hide_cm"@[1] == 'i');
    let writes = approval_settings(require_approval);
    assert(writes.drop_last() =~= seq![writes[0], writes[1]]);
    assert(writes.drop_last().drop_last() =~= seq![writes[0]]);
    assert(writes.drop_last().drop_last().drop_last() =~= Seq::empty());
    reveal_with_fuel(settings_after, 4);
}

/// Files for the user interface lie where all users can read them: on Windows in the directory for
/// the data of programs, or else in that of all users, and only without either among the temporary
/// files; elsewhere always in the state directory.
pub proof fn law_shared_files_lie_where_all_can_read(has_program_data: bool, has_all_users: bool)
    ensures
        shared_base(Platform::Windows, true, has_all_users) == SharedBase::ProgramData,
        shared_base(Platform::Windows, false, true) == SharedBase::AllUsers,
        shared_base(Platform::Windows, false, false) == SharedBase::Temp,
        shared_base(Platform::Other, has_program_data, has_all_users) == SharedBase::VarLib,
{
}

/// A setting is read as what was written last, and one that no write names stays as it was.
pub proof fn law_settings_are_read_as_written(
    settings: Map<Seq<char>, Seq<char>>,
    writes: WritesView,
    key: Seq<char>,
    text: Seq<char>,
    other: Seq<char>,
)
    requires
        other != key,
    ensures
        setting(settings_after(settings, writes.push((key, text))), key) == text,
        setting(settings_after(settings, writes.push((key, text))), other) == setting(
            settings_after(settings, writes),
            other,
        ),
        settings_after(settings, Seq::empty()) == settings,
{
    assert(writes.push((key, text)).drop_last() =~= writes);
}

/// A mode is written exactly where it is not the one that was written last, and then whole.
pub proof fn law_changed_mode_is_written_whole(last: Option<bool>, wanted: bool)
    ensures
        approval_writes(last, wanted).len() == 0 <==> last == Some(wanted),
        last != Some(true) ==> approval_writes(last, true) == seq![
            ("approve-mode"@, "click"@),
            ("allow-hide-cm"@, "N"@),
            ("hide_cm"@, "false"@),
        ],
        last != Some(false) ==> approval_writes(last, false) == seq![
            ("approve-mode"@, "password"@),
            ("allow-hide-cm"@, "Y"@),
            ("hide_cm"@, "true"@),
        ],
{
}

/// The settings stand under keys of their own, which the user interface reads, and the files in a
/// directory that bears the name of the program.
pub proof fn law_settings_stand_under_their_keys()
    ensures
        TOKEN_KEY@ == "conectdesk_token"@,
        BRANDING_TS_KEY@ == "cd_logo_updated_at"@,
        BRAND_NAME_KEY@ == "cd_brand_name"@,
        BRAND_LOGO_PATH_KEY@ == "cd_brand_logo_path"@,
        ACTIVE_SESSION_ID_KEY@ == "cd_active_session_id"@,
        ACTIVE_SESSION_TECH_NAME_KEY@ == "cd_active_session_tech_name"@,
        ACTIVE_SESSION_TECH_PHOTO_PATH_KEY@ == "cd_active_session_tech_photo_path"@,
        ACTIVE_SESSIONS_JSON_KEY@ == "cd_active_sessions"@,
        SESSION_HISTORY_KEY@ == "cd_session_history"@,
        SHARED_DIR@ == "ConectDesk"@,
{
}

} // verus!
