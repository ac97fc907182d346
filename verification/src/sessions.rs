//! The technicians who are connected, as the user interface shows them, and the last sessions.

use vstd::prelude::*;
use vstd::slice::slice_subrange;
use vstd::utf8::encode_utf8;
use crate::base64::{
    base64_decode, decoded, encoded, law_encoded_bytes_decode, law_other_characters_spoil_the_text,
    lemma_encoded_alphabet,
};
use crate::json::{
    first_value, is_text_row, is_text_table, json_of_bytes, push_field, reads_back, text_of_json,
    Json, JsonView,
};
use crate::outside::unicode_alphanumeric;
use crate::settings::{
    json_write, setting, settings_after, write_json, write_text, Writes, WritesView,
    ACTIVE_SESSIONS_JSON_KEY, ACTIVE_SESSION_ID_KEY, ACTIVE_SESSION_TECH_NAME_KEY,
    ACTIVE_SESSION_TECH_PHOTO_PATH_KEY, SESSION_HISTORY_KEY,
};
use crate::text::{
    chars_of, find, first_at, glue3, is_ascii_alphanumeric, is_first_mark, is_white_space,
    law_first_mark_is_found, law_missing_mark_is_not_found, law_white_space_around_is_trimmed,
    lemma_trim_back, lemma_trim_front, lemma_trimmed_already, occurs_at, push_all, same_text,
    string_of, trim, trim_front, trimmed, white,
};

verus! {

/// The most sessions in the history.
pub const HISTORY_LIMIT: usize = 15;

/// How many characters of the id of a session stand in the name of a photo.
pub const PHOTO_ID_LENGTH: usize = 8;

/// A session: its id and the name of its technician.
pub type Session = (String, String);

/// The mathematical value of a `Session`.
pub type SessionView = (Seq<char>, Seq<char>);

// ---------------------------------------------------------------------------------------------
// The sessions in a heartbeat
// ---------------------------------------------------------------------------------------------

/// The session that a JSON value describes.
pub open spec fn session_of(value: JsonView) -> SessionView {
    (value.text_field("id"@), value.text_field("technician"@))
}

/// The sessions that JSON values describe. One without an id is passed over.
pub open spec fn sessions_of(values: Seq<JsonView>) -> Seq<SessionView>
    decreases values.len(),
{
    if values.len() == 0 {
        Seq::empty()
    } else if session_of(values.last()).0.len() == 0 {
        sessions_of(values.drop_last())
    } else {
        sessions_of(values.drop_last()).push(session_of(values.last()))
    }
}

/// The sessions in a reply, nothing where it says that there is none. The list counts. Where the
/// reply has no list, the single session counts.
pub open spec fn active_sessions(reply: JsonView) -> Option<Seq<SessionView>> {
    match reply.items_field("activeSessions"@) {
        Some(items) => if items.len() == 0 {
            None
        } else {
            Some(sessions_of(items))
        },
        None => match reply.field("activeSession"@) {
            Some(value) => if value == JsonView::Null {
                None
            } else {
                Some(sessions_of(seq![value]))
            },
            None => None,
        },
    }
}

/// Adds the session that a JSON value describes, if it has an id.
fn push_session(list: &mut Vec<Session>, value: &Json)
    ensures
        final(list).deep_view() == (if session_of(value@).0.len() == 0 {
            old(list).deep_view()
        } else {
            old(list).deep_view().push(session_of(value@))
        }),
{
    let ghost before = list.deep_view();
    let id = value.text_field("id");
    let technician = value.text_field("technician");
    if !id.as_str().is_empty() {
        list.push((id, technician));
        assert(list.deep_view() =~= before.push(session_of(value@)));
    }
}

/// Reads the sessions in a reply.
pub fn read_active_sessions(reply: &Json) -> (sessions: Option<Vec<Session>>)
    ensures
        sessions.deep_view() == active_sessions(reply@),
{
    match reply.items_field("activeSessions") {
        Some(items) => {
            if items.len() == 0 {
                return None;
            }
            let ghost all = items.deep_view();
            let mut list: Vec<Session> = Vec::new();
            assert(list.deep_view() =~= sessions_of(all.take(0)));
            for i in 0..items.len()
                invariant
                    all == items.deep_view(),
                    list.deep_view() == sessions_of(all.take(i as int)),
            {
                assert(all.take(i as int + 1).drop_last() =~= all.take(i as int));
                assert(all.take(i as int + 1).last() == items@[i as int]@);
                push_session(&mut list, &items[i]);
            }
            assert(all.take(items@.len() as int) =~= all);
            Some(list)
        },
        None => match reply.get("activeSession") {
            Some(value) => {
                if value.is_null() {
                    return None;
                }
                let mut list: Vec<Session> = Vec::new();
                push_session(&mut list, value);
                proof {
                    let one = seq![value@];
                    assert(one.drop_last() =~= Seq::<JsonView>::empty());
                    assert(one.last() == value@);
                    reveal_with_fuel(sessions_of, 2);
                    assert(list.deep_view() =~= sessions_of(one));
                }
                Some(list)
            },
            None => None,
        },
    }
}

/// The ids of the sessions, with commas between them.
pub open spec fn stamp_of(sessions: Seq<SessionView>) -> Seq<char>
    decreases sessions.len(),
{
    if sessions.len() == 0 {
        Seq::empty()
    } else if sessions.len() == 1 {
        sessions[0].0
    } else {
        stamp_of(sessions.drop_last()) + seq![','] + sessions.last().0
    }
}

/// The ids of the sessions, with commas between them.
pub fn stamp(sessions: &Vec<Session>) -> (text: String)
    ensures
        text@ == stamp_of(sessions.deep_view()),
{
    let ghost all = sessions.deep_view();
    let mut out: Vec<char> = Vec::new();
    for i in 0..sessions.len()
        invariant
            all == sessions.deep_view(),
            out@ == stamp_of(all.take(i as int)),
    {
        assert(all.take(i as int + 1).drop_last() =~= all.take(i as int));
        assert(all.take(i as int + 1).last() == (sessions@[i as int].0@, sessions@[i as int].1@));
        let ghost before = out@;
        if i > 0 {
            out.push(',');
        }
        push_all(&mut out, chars_of(sessions[i].0.as_str()).as_slice());
        proof {
            if i > 0 {
                assert(out@ =~= before + seq![','] + all[i as int].0);
            } else {
                assert(out@ =~= all[i as int].0);
            }
        }
    }
    assert(all.take(sessions@.len() as int) =~= all);
    string_of(out.as_slice())
}

// ---------------------------------------------------------------------------------------------
// Names
// ---------------------------------------------------------------------------------------------

/// A technician on the list for the user interface.
pub open spec fn technician(name: Seq<char>, photo: Seq<char>) -> JsonView {
    JsonView::Object(
        seq![("name"@, JsonView::Text(name)), ("photoPath"@, JsonView::Text(photo))],
    )
}

/// A technician on the list for the user interface.
fn technician_json(name: &str, photo: &str) -> (json: Json)
    ensures
        json@ == technician(name@, photo@),
{
    let mut fields: Vec<(String, Json)> = Vec::new();
    push_field(&mut fields, "name", Json::text(name));
    push_field(&mut fields, "photoPath", Json::text(photo));
    assert(fields.deep_view() =~= technician(name@, photo@)->Object_0);
    Json::object(fields)
}

/// The name of the first technician, empty if there is none.
pub open spec fn first_name(sessions: Seq<SessionView>) -> Seq<char> {
    if sessions.len() == 0 {
        Seq::empty()
    } else {
        sessions[0].1
    }
}

/// The technicians of the sessions, with the photos that `photo` has for their names.
pub open spec fn technicians(
    sessions: Seq<SessionView>,
    photo: spec_fn(Seq<char>) -> Seq<char>,
) -> JsonView {
    JsonView::Array(sessions.map_values(|s: SessionView| technician(s.1, photo(s.1))))
}

/// No photo for any name.
pub open spec fn no_photo() -> spec_fn(Seq<char>) -> Seq<char> {
    |name: Seq<char>| Seq::empty()
}

/// A list of technicians is a list of objects of texts.
proof fn lemma_technicians_are_a_table(
    sessions: Seq<SessionView>,
    photo: spec_fn(Seq<char>) -> Seq<char>,
)
    ensures
        is_text_table(technicians(sessions, photo)),
{
    reveal_strlit("name");
    reveal_strlit("photoPath");
    let list = technicians(sessions, photo);
    assert forall|i: int| 0 <= i < list->Array_0.len() implies is_text_row(
        #[trigger] list->Array_0[i],
    ) by {
        assert("name"@.len() != "photoPath"@.len());
    }
}

/// What is written as soon as the sessions are known: all names, and no photos yet.
pub open spec fn names_writes(sessions: Seq<SessionView>) -> WritesView {
    seq![
        (ACTIVE_SESSION_ID_KEY@, stamp_of(sessions)),
        json_write(ACTIVE_SESSIONS_JSON_KEY@, technicians(sessions, no_photo())),
        (ACTIVE_SESSION_TECH_NAME_KEY@, first_name(sessions)),
        (ACTIVE_SESSION_TECH_PHOTO_PATH_KEY@, Seq::empty()),
    ]
}

/// What is written as soon as the sessions are known. The list that is written can be read.
pub fn set_sessions_names(sessions: &Vec<Session>) -> (writes: Writes)
    ensures
        writes.deep_view() == names_writes(sessions.deep_view()),
        ({
            let list = technicians(sessions.deep_view(), no_photo());
            reads_back(text_of_json(list), list)
        }),
{
    let ghost all = sessions.deep_view();
    let ghost want = names_writes(all);
    let mut list: Vec<Json> = Vec::new();
    let empty = String::new();
    for i in 0..sessions.len()
        invariant
            empty@ == Seq::<char>::empty(),
            list@.len() == i,
            forall|j: int|
                0 <= j < i ==> (#[trigger] list@[j])@ == technician(
                    sessions@[j].1@,
                    Seq::empty(),
                ),
    {
        list.push(technician_json(sessions[i].1.as_str(), empty.as_str()));
    }
    assert(list.deep_view() =~= technicians(all, no_photo())->Array_0);
    proof {
        lemma_technicians_are_a_table(all, no_photo());
    }
    let first = if sessions.len() > 0 {
        sessions[0].1.clone()
    } else {
        String::new()
    };
    let mut writes: Writes = Vec::new();
    let ids = stamp(sessions);
    write_text(&mut writes, ACTIVE_SESSION_ID_KEY, ids.as_str());
    write_json(&mut writes, ACTIVE_SESSIONS_JSON_KEY, &Json::array(list));
    write_text(&mut writes, ACTIVE_SESSION_TECH_NAME_KEY, first.as_str());
    write_text(&mut writes, ACTIVE_SESSION_TECH_PHOTO_PATH_KEY, empty.as_str());
    assert(writes.deep_view() =~= want);
    writes
}

/// What is written once no session is left.
pub open spec fn clear_writes() -> WritesView {
    seq![
        (ACTIVE_SESSION_ID_KEY@, Seq::empty()),
        (ACTIVE_SESSION_TECH_NAME_KEY@, Seq::empty()),
        (ACTIVE_SESSION_TECH_PHOTO_PATH_KEY@, Seq::empty()),
        (ACTIVE_SESSIONS_JSON_KEY@, Seq::empty()),
    ]
}

/// What is written once no session is left.
pub fn clear_active_session() -> (writes: Writes)
    ensures
        writes.deep_view() == clear_writes(),
{
    let empty = String::new();
    let mut writes: Writes = Vec::new();
    write_text(&mut writes, ACTIVE_SESSION_ID_KEY, empty.as_str());
    write_text(&mut writes, ACTIVE_SESSION_TECH_NAME_KEY, empty.as_str());
    write_text(&mut writes, ACTIVE_SESSION_TECH_PHOTO_PATH_KEY, empty.as_str());
    write_text(&mut writes, ACTIVE_SESSIONS_JSON_KEY, empty.as_str());
    assert(writes.deep_view() =~= clear_writes());
    writes
}

/// What the settings say of the sessions: their ids, the list of technicians, and the photo of the
/// first one.
#[derive(Debug)]
pub struct ShownSessions {
    pub ids: String,
    pub technicians: String,
    pub photo: String,
}

/// What is written for the sessions of a reply, given the ids that are shown. Names are written
/// where the sessions changed, and all is cleared where the last session ended.
pub open spec fn session_writes(sessions: Option<Seq<SessionView>>, ids: Seq<char>) -> WritesView {
    match sessions {
        Some(list) => if stamp_of(list) != ids {
            names_writes(list)
        } else {
            Seq::empty()
        },
        None => if ids.len() > 0 {
            clear_writes()
        } else {
            Seq::empty()
        },
    }
}

/// The list that a setting holds.
pub open spec fn kept_list(technicians: Seq<char>) -> Option<JsonView> {
    json_of_bytes(encode_utf8(technicians))
}

/// Some item has no photo.
pub open spec fn some_without_photo(items: Seq<JsonView>) -> bool {
    exists|i: int|
        0 <= i < items.len() && (#[trigger] items[i]).text_field("photoPath"@).len() == 0
}

/// Some technician on the list has no photo, or there is no list.
pub open spec fn lacks_photo(list: Option<JsonView>) -> bool {
    match list {
        Some(JsonView::Array(items)) => some_without_photo(items),
        _ => true,
    }
}

/// The photos are fetched: there are sessions, and they changed or some technician has no photo.
pub open spec fn wants_photos(
    sessions: Option<Seq<SessionView>>,
    ids: Seq<char>,
    list: Option<JsonView>,
    photo: Seq<char>,
) -> bool {
    match sessions {
        Some(all) => stamp_of(all).len() > 0 && (stamp_of(all) != ids || photo.len() == 0
            || lacks_photo(list)),
        None => false,
    }
}

/// The sessions whose photos are fetched, if they are.
pub open spec fn photo_sessions(
    sessions: Option<Seq<SessionView>>,
    ids: Seq<char>,
    list: Option<JsonView>,
    photo: Seq<char>,
) -> Option<Seq<SessionView>> {
    if wants_photos(sessions, ids, list, photo) {
        sessions
    } else {
        None
    }
}

/// Whether some technician on the list has no photo, or there is no list.
pub fn photo_missing(list: &Option<Json>) -> (missing: bool)
    ensures
        missing == lacks_photo(list.deep_view()),
{
    match list {
        Some(json) => match json.as_array() {
            Some(items) => {
                let ghost all = items.deep_view();
                assert(json@ == JsonView::Array(all));
                for i in 0..items.len()
                    invariant
                        all == items.deep_view(),
                        list.deep_view() == Some(JsonView::Array(all)),
                        forall|j: int|
                            0 <= j < i ==> (#[trigger] all[j]).text_field("photoPath"@).len() > 0,
                {
                    assert(all[i as int] == items@[i as int]@);
                    let photo = items[i].text_field("photoPath");
                    if photo.as_str().is_empty() {
                        assert(all[i as int].text_field("photoPath"@).len() == 0);
                        return true;
                    }
                }
                false
            },
            None => true,
        },
        None => true,
    }
}

/// Decides what is written for the sessions of a reply, and for which sessions the photos are
/// fetched, given what is shown: the ids, the list as it was read, and the first photo.
pub fn decide_sessions(reply: &Json, ids: &str, list: &Option<Json>, photo: &str) -> (plan: (
    Writes,
    Option<Vec<Session>>,
))
    ensures
        plan.0.deep_view() == session_writes(active_sessions(reply@), ids@),
        plan.1.deep_view() == photo_sessions(
            active_sessions(reply@),
            ids@,
            list.deep_view(),
            photo@,
        ),
{
    match read_active_sessions(reply) {
        Some(sessions) => {
            let now = stamp(&sessions);
            let changed = !same_text(now.as_str(), ids);
            let writes = if changed {
                set_sessions_names(&sessions)
            } else {
                Vec::new()
            };
            assert(!changed ==> writes.deep_view() =~= Seq::empty());
            if !now.as_str().is_empty() && (changed || photo.is_empty() || photo_missing(list)) {
                (writes, Some(sessions))
            } else {
                (writes, None)
            }
        },
        None => {
            if ids.is_empty() {
                let writes: Writes = Vec::new();
                assert(writes.deep_view() =~= Seq::empty());
                (writes, None)
            } else {
                (clear_active_session(), None)
            }
        },
    }
}

/// Decides what is written for the sessions of a reply, and for which sessions the photos are
/// fetched, given what the settings say.
pub fn plan_sessions(reply: &Json, shown: &ShownSessions) -> (plan: (Writes, Option<Vec<Session>>))
    ensures
        plan.0.deep_view() == session_writes(active_sessions(reply@), shown.ids@),
        plan.1.deep_view() == photo_sessions(
            active_sessions(reply@),
            shown.ids@,
            kept_list(shown.technicians@),
            shown.photo@,
        ),
{
    let list = Json::parse(shown.technicians.as_str().as_bytes());
    decide_sessions(reply, shown.ids.as_str(), &list, shown.photo.as_str())
}

// ---------------------------------------------------------------------------------------------
// Photos
// ---------------------------------------------------------------------------------------------

/// The base64 part of a photo: what follows "base64,", or all of it.
pub open spec fn photo_data(photo: Seq<char>) -> Seq<char> {
    match first_at(photo, "base64,"@, 0) {
        Some(i) => trimmed(photo.skip(i + "base64,"@.len())),
        None => trimmed(photo),
    }
}

/// Letters and numbers, as a predicate.
pub open spec fn letters_and_numbers() -> spec_fn(char) -> bool {
    |c: char| unicode_alphanumeric(c)
}

/// The letters and numbers among the first characters of the id of a session.
pub open spec fn short_id(id: Seq<char>) -> Seq<char> {
    let count = if id.len() <= PHOTO_ID_LENGTH {
        id.len() as int
    } else {
        PHOTO_ID_LENGTH as int
    };
    id.take(count).filter(letters_and_numbers())
}

/// The name of the file that holds the photo of a session.
pub open spec fn photo_file_name(id: Seq<char>) -> Seq<char> {
    "session_tech_"@ + short_id(id) + ".png"@
}

/// The name of the file that holds the photo of a session. No separator of directories stands in
/// it.
pub fn photo_file(id: &str) -> (name: String)
    ensures
        name@ == photo_file_name(id@),
        !name@.contains('/'),
        !name@.contains('\\'),
        !name@.contains(':'),
{
    let chars = chars_of(id);
    let count: usize = if chars.len() <= PHOTO_ID_LENGTH {
        chars.len()
    } else {
        PHOTO_ID_LENGTH
    };
    let ghost front = chars@.take(count as int);
    let mut kept: Vec<char> = Vec::new();
    assert(front.take(0).filter(letters_and_numbers()) =~= Seq::<char>::empty()) by {
        reveal(Seq::filter);
    }
    for i in 0..count
        invariant
            count <= chars@.len(),
            front == chars@.take(count as int),
            kept@ == front.take(i as int).filter(letters_and_numbers()),
            forall|j: int|
                0 <= j < kept@.len() ==> ((#[trigger] kept@[j] as u32) < 128
                    ==> is_ascii_alphanumeric(kept@[j])),
    {
        let c = chars[i];
        proof {
            reveal(Seq::filter);
            assert(front.take(i as int + 1).drop_last() =~= front.take(i as int));
            assert(front.take(i as int + 1).last() == c);
        }
        if c.is_alphanumeric() {
            kept.push(c);
        }
    }
    assert(front.take(count as int) =~= front);
    let middle = string_of(kept.as_slice());
    let name = glue3("session_tech_", middle.as_str(), ".png");
    proof {
        reveal_strlit("session_tech_");
        reveal_strlit(".png");
        let head = "session_tech_"@;
        let tail = ".png"@;
        assert forall|i: int| 0 <= i < name@.len() implies #[trigger] name@[i] != '/' && name@[i]
            != '\\' && name@[i] != ':' by {
            if i < head.len() {
                assert(name@[i] == head[i]);
            } else if i < head.len() + kept@.len() {
                assert(name@[i] == kept@[i - head.len()]);
            } else {
                assert(name@[i] == tail[i - head.len() - kept@.len()]);
            }
        }
    }
    name
}

/// A technician, and the file that their photo goes into where they have one.
#[derive(Debug, PartialEq)]
pub struct PhotoJob {
    pub name: String,
    pub file: Option<(String, Vec<u8>)>,
}

/// The mathematical value of a `PhotoJob`.
pub struct PhotoJobView {
    pub name: Seq<char>,
    pub file: Option<(Seq<char>, Seq<u8>)>,
}

impl DeepView for PhotoJob {
    type V = PhotoJobView;

    open spec fn deep_view(&self) -> PhotoJobView {
        PhotoJobView {
            name: self.name@,
            file: match self.file {
                Some((name, bytes)) => Some((name@, bytes@)),
                None => None,
            },
        }
    }
}

/// The technician and the photo of a session. A photo that cannot be decoded is none.
pub open spec fn photo_job(session: JsonView) -> PhotoJobView {
    let photo = session.text_field("photo"@);
    PhotoJobView {
        name: session.text_field("technician"@),
        file: match decoded(photo_data(photo)) {
            Some(bytes) => if photo.len() > 0 {
                Some((photo_file_name(session.text_field("sessionId"@)), bytes))
            } else {
                None
            },
            None => None,
        },
    }
}

/// The technicians and photos in a reply: nothing where it has no list of sessions.
pub open spec fn photo_jobs_view(reply: JsonView) -> Option<Seq<PhotoJobView>> {
    match reply.items_field("sessions"@) {
        Some(items) => Some(items.map_values(|item: JsonView| photo_job(item))),
        None => None,
    }
}

/// The base64 part of a photo.
fn base64_part(photo: &str) -> (data: String)
    ensures
        data@ == photo_data(photo@),
{
    let chars = chars_of(photo);
    let mark = chars_of("base64,");
    match find(chars.as_slice(), mark.as_slice()) {
        Some(i) => {
            let end: usize = chars.len();
            assert(occurs_at(chars@, mark@, i as int));
            let rest = slice_subrange(chars.as_slice(), i + mark.len(), end);
            assert(rest@ =~= photo@.skip(i as int + mark@.len()));
            string_of(trim(rest))
        },
        None => string_of(trim(chars.as_slice())),
    }
}

/// Reads the technician and the photo of a session.
fn read_photo_job(session: &Json) -> (job: PhotoJob)
    ensures
        job.deep_view() == photo_job(session@),
{
    let id = session.text_field("sessionId");
    let name = session.text_field("technician");
    let photo = session.text_field("photo");
    if photo.as_str().is_empty() {
        return PhotoJob { name, file: None };
    }
    match base64_decode(base64_part(photo.as_str()).as_str()) {
        Some(bytes) => PhotoJob { name, file: Some((photo_file(id.as_str()), bytes)) },
        None => PhotoJob { name, file: None },
    }
}

/// Reads the technicians and photos in a reply.
pub fn photo_jobs(reply: &Json) -> (jobs: Option<Vec<PhotoJob>>)
    ensures
        jobs.deep_view() == photo_jobs_view(reply@),
{
    match reply.items_field("sessions") {
        Some(items) => {
            let mut jobs: Vec<PhotoJob> = Vec::new();
            for i in 0..items.len()
                invariant
                    jobs@.len() == i,
                    forall|j: int|
                        0 <= j < i ==> (#[trigger] jobs@[j]).deep_view() == photo_job(items@[j]@),
            {
                jobs.push(read_photo_job(&items[i]));
            }
            assert(jobs.deep_view() =~= photo_jobs_view(reply@)->0);
            Some(jobs)
        },
        None => None,
    }
}

/// Where the photo of a technician was saved: the first path under their name that is not empty.
pub open spec fn photo_path(
    jobs: Seq<PhotoJobView>,
    paths: Seq<Seq<char>>,
    name: Seq<char>,
) -> Seq<char>
    decreases jobs.len(),
{
    if jobs.len() == 0 {
        Seq::empty()
    } else if jobs[0].name == name && paths[0].len() > 0 {
        paths[0]
    } else {
        photo_path(jobs.drop_first(), paths.drop_first(), name)
    }
}

/// The photo of each technician by their name.
pub open spec fn photos_by_name(
    jobs: Seq<PhotoJobView>,
    paths: Seq<Seq<char>>,
) -> spec_fn(Seq<char>) -> Seq<char> {
    |name: Seq<char>| photo_path(jobs, paths, name)
}

/// What is written once the photos are saved, the i-th at the i-th path, which is empty where there
/// is no photo or it was not saved. The technicians stand in the order of the sessions, whatever
/// the order of the photos, and the first name goes with the photo of the first technician. Where
/// no photo came the names stay as they are.
pub open spec fn photo_writes(
    sessions: Seq<SessionView>,
    jobs: Seq<PhotoJobView>,
    paths: Seq<Seq<char>>,
) -> WritesView {
    if jobs.len() == 0 {
        Seq::empty()
    } else {
        seq![
            json_write(
                ACTIVE_SESSIONS_JSON_KEY@,
                technicians(sessions, photos_by_name(jobs, paths)),
            ),
            (ACTIVE_SESSION_TECH_NAME_KEY@, first_name(sessions)),
            (ACTIVE_SESSION_TECH_PHOTO_PATH_KEY@, first_photo(sessions, jobs, paths)),
        ]
    }
}

/// The photo of the first technician, empty if there is none.
pub open spec fn first_photo(
    sessions: Seq<SessionView>,
    jobs: Seq<PhotoJobView>,
    paths: Seq<Seq<char>>,
) -> Seq<char> {
    if sessions.len() == 0 {
        Seq::empty()
    } else {
        photo_path(jobs, paths, sessions[0].1)
    }
}

/// Finds where the photo of a technician was saved.
fn path_of(jobs: &Vec<PhotoJob>, paths: &Vec<String>, name: &str) -> (path: String)
    requires
        jobs@.len() == paths@.len(),
    ensures
        path@ == photo_path(jobs.deep_view(), paths.deep_view(), name@),
{
    let ghost all_jobs = jobs.deep_view();
    let ghost all_paths = paths.deep_view();
    assert(all_jobs.skip(0) =~= all_jobs);
    assert(all_paths.skip(0) =~= all_paths);
    for i in 0..jobs.len()
        invariant
            jobs@.len() == paths@.len(),
            all_jobs == jobs.deep_view(),
            all_paths == paths.deep_view(),
            photo_path(all_jobs, all_paths, name@) == photo_path(
                all_jobs.skip(i as int),
                all_paths.skip(i as int),
                name@,
            ),
    {
        assert(all_jobs.skip(i as int)[0] == jobs@[i as int].deep_view());
        assert(all_paths.skip(i as int)[0] == paths@[i as int]@);
        assert(all_jobs.skip(i as int).drop_first() =~= all_jobs.skip(i as int + 1));
        assert(all_paths.skip(i as int).drop_first() =~= all_paths.skip(i as int + 1));
        if same_text(jobs[i].name.as_str(), name) && !paths[i].as_str().is_empty() {
            return paths[i].clone();
        }
    }
    String::new()
}

/// Decides what is written once the photos of the sessions are saved. The list that is written can
/// be read.
pub fn sync_active_sessions(
    sessions: &Vec<Session>,
    jobs: &Vec<PhotoJob>,
    paths: &Vec<String>,
) -> (writes: Writes)
    requires
        jobs@.len() == paths@.len(),
    ensures
        writes.deep_view() == photo_writes(
            sessions.deep_view(),
            jobs.deep_view(),
            paths.deep_view(),
        ),
        jobs@.len() > 0 ==> {
            let list = technicians(
                sessions.deep_view(),
                photos_by_name(jobs.deep_view(), paths.deep_view()),
            );
            reads_back(text_of_json(list), list)
        },
{
    let ghost all = sessions.deep_view();
    let ghost photo = photos_by_name(jobs.deep_view(), paths.deep_view());
    let ghost want = photo_writes(all, jobs.deep_view(), paths.deep_view());
    let mut writes: Writes = Vec::new();
    if jobs.len() == 0 {
        assert(writes.deep_view() =~= want);
        return writes;
    }
    let mut list: Vec<Json> = Vec::new();
    for i in 0..sessions.len()
        invariant
            jobs@.len() == paths@.len(),
            photo == photos_by_name(jobs.deep_view(), paths.deep_view()),
            list@.len() == i,
            forall|j: int|
                0 <= j < i ==> (#[trigger] list@[j])@ == technician(
                    sessions@[j].1@,
                    photo(sessions@[j].1@),
                ),
    {
        let name = sessions[i].1.as_str();
        list.push(technician_json(name, path_of(jobs, paths, name).as_str()));
    }
    assert(list.deep_view() =~= technicians(all, photo)->Array_0);
    proof {
        lemma_technicians_are_a_table(all, photo);
    }
    let (first, path) = if sessions.len() > 0 {
        (sessions[0].1.clone(), path_of(jobs, paths, sessions[0].1.as_str()))
    } else {
        (String::new(), String::new())
    };
    write_json(&mut writes, ACTIVE_SESSIONS_JSON_KEY, &Json::array(list));
    write_text(&mut writes, ACTIVE_SESSION_TECH_NAME_KEY, first.as_str());
    write_text(&mut writes, ACTIVE_SESSION_TECH_PHOTO_PATH_KEY, path.as_str());
    assert(writes.deep_view() =~= want);
    writes
}

// ---------------------------------------------------------------------------------------------
// History
// ---------------------------------------------------------------------------------------------

/// The fields of a session that the history keeps.
pub open spec fn history_keys() -> Seq<Seq<char>> {
    seq!["id"@, "technician"@, "started_at"@, "ended_at"@, "reason"@]
}

/// The fields with these keys, as far as the value has them.
pub open spec fn picked(value: JsonView, keys: Seq<Seq<char>>) -> Seq<(Seq<char>, JsonView)>
    decreases keys.len(),
{
    if keys.len() == 0 {
        Seq::empty()
    } else {
        let front = picked(value, keys.drop_last());
        match value.field(keys.last()) {
            Some(field) => front.push((keys.last(), field)),
            None => front,
        }
    }
}

/// What the history keeps of a session.
pub open spec fn history_entry(session: JsonView) -> JsonView {
    JsonView::Object(picked(session, history_keys()))
}

/// What the history keeps of sessions: the first ones, up to the limit.
pub open spec fn history_of(sessions: Seq<JsonView>) -> JsonView {
    let count = if sessions.len() <= HISTORY_LIMIT {
        sessions.len() as int
    } else {
        HISTORY_LIMIT as int
    };
    JsonView::Array(sessions.take(count).map_values(|s: JsonView| history_entry(s)))
}

/// What is written of the sessions in a reply: nothing where it has no list of them.
pub open spec fn history_writes(reply: JsonView) -> WritesView {
    match reply.items_field("sessions"@) {
        Some(items) => seq![json_write(SESSION_HISTORY_KEY@, history_of(items))],
        None => Seq::empty(),
    }
}

/// Adds the field with this key, if the value has it.
fn pick(fields: &mut Vec<(String, Json)>, value: &Json, key: &str, Ghost(keys): Ghost<
    Seq<Seq<char>>,
>)
    requires
        old(fields).deep_view() == picked(value@, keys),
    ensures
        final(fields).deep_view() == picked(value@, keys.push(key@)),
{
    assert(keys.push(key@).drop_last() =~= keys);
    if let Some(field) = value.get(key) {
        push_field(fields, key, field.clone());
    }
}

/// What the history keeps of a session.
fn trim_session(session: &Json) -> (entry: Json)
    ensures
        entry@ == history_entry(session@),
{
    let mut fields: Vec<(String, Json)> = Vec::new();
    let ghost keys = Seq::<Seq<char>>::empty();
    assert(fields.deep_view() =~= picked(session@, keys));
    pick(&mut fields, session, "id", Ghost(keys));
    pick(&mut fields, session, "technician", Ghost(keys.push("id"@)));
    let ghost two = keys.push("id"@).push("technician"@);
    pick(&mut fields, session, "started_at", Ghost(two));
    pick(&mut fields, session, "ended_at", Ghost(two.push("started_at"@)));
    pick(&mut fields, session, "reason", Ghost(two.push("started_at"@).push("ended_at"@)));
    assert(two.push("started_at"@).push("ended_at"@).push("reason"@) =~= history_keys());
    Json::object(fields)
}

/// Decides what is written of the sessions in a reply.
pub fn sync_session_history(reply: &Json) -> (writes: Writes)
    ensures
        writes.deep_view() == history_writes(reply@),
{
    let mut writes: Writes = Vec::new();
    if let Some(items) = reply.items_field("sessions") {
        let count: usize = if items.len() <= HISTORY_LIMIT {
            items.len()
        } else {
            HISTORY_LIMIT
        };
        let mut entries: Vec<Json> = Vec::new();
        for i in 0..count
            invariant
                count <= items@.len(),
                entries@.len() == i,
                forall|j: int|
                    0 <= j < i ==> (#[trigger] entries@[j])@ == history_entry(items@[j]@),
        {
            entries.push(trim_session(&items[i]));
        }
        assert(entries.deep_view() =~= history_of(items.deep_view())->Array_0);
        write_json(&mut writes, SESSION_HISTORY_KEY, &Json::array(entries));
    }
    assert(writes.deep_view() =~= history_writes(reply@));
    writes
}

// ---------------------------------------------------------------------------------------------
// Laws
// ---------------------------------------------------------------------------------------------

/// What the settings hold of the sessions after up to four writes.
proof fn lemma_four_writes(settings: Map<Seq<char>, Seq<char>>, writes: WritesView)
    ensures
        settings_after(settings, Seq::empty()) == settings,
        writes.len() == 3 ==> settings_after(settings, writes) == settings.insert(
            writes[0].0,
            writes[0].1,
        ).insert(writes[1].0, writes[1].1).insert(writes[2].0, writes[2].1),
        writes.len() == 4 ==> settings_after(settings, writes) == settings.insert(
            writes[0].0,
            writes[0].1,
        ).insert(writes[1].0, writes[1].1).insert(writes[2].0, writes[2].1).insert(
            writes[3].0,
            writes[3].1,
        ),
{
    reveal_with_fuel(settings_after, 5);
    if writes.len() == 3 || writes.len() == 4 {
        let one = writes.drop_last();
        let two = one.drop_last();
        let three = two.drop_last();
        if writes.len() == 3 {
            assert(three =~= Seq::empty());
        } else {
            assert(three.drop_last() =~= Seq::empty());
        }
    }
}

/// The settings of the sessions have different keys.
proof fn lemma_keys_differ()
    ensures
        ACTIVE_SESSION_ID_KEY@.len() == 20,
        ACTIVE_SESSIONS_JSON_KEY@.len() == 18,
        ACTIVE_SESSION_TECH_NAME_KEY@.len() == 27,
        ACTIVE_SESSION_TECH_PHOTO_PATH_KEY@.len() == 33,
{
    reveal_strlit("cd_active_session_id");
    reveal_strlit("cd_active_sessions");
    reveal_strlit("cd_active_session_tech_name");
    reveal_strlit("cd_active_session_tech_photo_path");
}

/// While the sessions stay the same, what is shown of them is written once: names at the beginning,
/// and empty texts at the end.
pub proof fn law_sessions_are_written_once(
    settings: Map<Seq<char>, Seq<char>>,
    sessions: Option<Seq<SessionView>>,
)
    ensures
        ({
            let writes = session_writes(sessions, setting(settings, ACTIVE_SESSION_ID_KEY@));
            let ids = setting(settings_after(settings, writes), ACTIVE_SESSION_ID_KEY@);
            &&& session_writes(sessions, ids).len() == 0
            &&& ids == (match sessions {
                Some(list) => stamp_of(list),
                None => Seq::empty(),
            })
        }),
{
    let writes = session_writes(sessions, setting(settings, ACTIVE_SESSION_ID_KEY@));
    lemma_four_writes(settings, writes);
    lemma_keys_differ();
    let ids = setting(settings_after(settings, writes), ACTIVE_SESSION_ID_KEY@);
    assert(ids =~= match sessions {
        Some(list) => stamp_of(list),
        None => Seq::empty(),
    });
}

/// After the photos of the sessions were fetched and saved, the same sessions have them fetched
/// again exactly while some technician has none. The list is read as it was written, as
/// `sync_active_sessions` ensures.
pub proof fn law_photos_are_fetched_until_all_are_kept(
    settings: Map<Seq<char>, Seq<char>>,
    sessions: Seq<SessionView>,
    jobs: Seq<PhotoJobView>,
    paths: Seq<Seq<char>>,
)
    requires
        stamp_of(sessions).len() > 0,
        jobs.len() > 0,
        ({
            let list = technicians(sessions, photos_by_name(jobs, paths));
            reads_back(text_of_json(list), list)
        }),
    ensures
        ({
            let writes = session_writes(
                Some(sessions),
                setting(settings, ACTIVE_SESSION_ID_KEY@),
            );
            let after = settings_after(
                settings_after(settings, writes),
                photo_writes(sessions, jobs, paths),
            );
            wants_photos(
                Some(sessions),
                setting(after, ACTIVE_SESSION_ID_KEY@),
                kept_list(setting(after, ACTIVE_SESSIONS_JSON_KEY@)),
                setting(after, ACTIVE_SESSION_TECH_PHOTO_PATH_KEY@),
            ) <==> exists|i: int|
                0 <= i < sessions.len() && photo_path(
                    jobs,
                    paths,
                    (#[trigger] sessions[i]).1,
                ).len() == 0
        }),
{
    let writes = session_writes(Some(sessions), setting(settings, ACTIVE_SESSION_ID_KEY@));
    let named = settings_after(settings, writes);
    lemma_four_writes(settings, writes);
    lemma_four_writes(named, photo_writes(sessions, jobs, paths));
    lemma_keys_differ();
    law_sessions_are_written_once(settings, Some(sessions));
    let list = technicians(sessions, photos_by_name(jobs, paths));
    let items = kept_list(text_of_json(list))->0->Array_0;
    assert(items.len() == sessions.len());
    assert forall|i: int| 0 <= i < items.len() implies (#[trigger] items[i]).text_field(
        "photoPath"@,
    ) == photo_path(jobs, paths, sessions[i].1) by {
        lemma_photo_of_technician(sessions[i].1, photo_path(jobs, paths, sessions[i].1));
        assert(items[i].field("photoPath"@) == list->Array_0[i].field("photoPath"@));
    }
    if exists|i: int|
        0 <= i < sessions.len() && photo_path(jobs, paths, (#[trigger] sessions[i]).1).len() == 0 {
        let i = choose|i: int|
            0 <= i < sessions.len() && photo_path(jobs, paths, (#[trigger] sessions[i]).1).len()
                == 0;
        assert(items[i].text_field("photoPath"@).len() == 0);
        assert(lacks_photo(Some(JsonView::Array(items))));
    } else {
        assert(sessions.len() > 0);
        assert(photo_path(jobs, paths, sessions[0].1).len() > 0);
        if lacks_photo(Some(JsonView::Array(items))) {
            let i = choose|i: int|
                0 <= i < items.len() && (#[trigger] items[i]).text_field("photoPath"@).len() == 0;
            assert(photo_path(jobs, paths, sessions[i].1).len() == 0);
        }
    }
}

/// The photo in an entry for a technician.
proof fn lemma_photo_of_technician(name: Seq<char>, photo: Seq<char>)
    ensures
        technician(name, photo).field("photoPath"@) == Some(JsonView::Text(photo)),
{
    reveal_strlit("name");
    reveal_strlit("photoPath");
    assert("name"@.len() != "photoPath"@.len());
    let fields = technician(name, photo)->Object_0;
    reveal_with_fuel(first_value, 3);
    assert(fields.drop_first()[0] == fields[1]);
}

/// The order in which the photos come changes nothing: two replies that have the same photo for
/// every name give the same writes.
pub proof fn law_order_of_photos_changes_nothing(
    sessions: Seq<SessionView>,
    jobs: Seq<PhotoJobView>,
    paths: Seq<Seq<char>>,
    other_jobs: Seq<PhotoJobView>,
    other_paths: Seq<Seq<char>>,
)
    requires
        jobs.len() > 0,
        other_jobs.len() > 0,
        forall|name: Seq<char>| #[trigger]
            photo_path(jobs, paths, name) == photo_path(other_jobs, other_paths, name),
    ensures
        photo_writes(sessions, jobs, paths) == photo_writes(sessions, other_jobs, other_paths),
{
    assert(photos_by_name(jobs, paths) =~= photos_by_name(other_jobs, other_paths));
}

/// Where no photo came, the names stay as they were.
pub proof fn law_names_stay_without_photos(sessions: Seq<SessionView>, paths: Seq<Seq<char>>)
    ensures
        photo_writes(sessions, Seq::empty(), paths).len() == 0,
{
}

/// A field that was picked has one of the keys.
proof fn lemma_picked_keys(value: JsonView, keys: Seq<Seq<char>>, i: int)
    requires
        0 <= i < picked(value, keys).len(),
    ensures
        keys.contains(picked(value, keys)[i].0),
        value.field(picked(value, keys)[i].0) == Some(picked(value, keys)[i].1),
    decreases keys.len(),
{
    let front = picked(value, keys.drop_last());
    if i < front.len() {
        lemma_picked_keys(value, keys.drop_last(), i);
        let j = choose|j: int|
            0 <= j < keys.drop_last().len() && keys.drop_last()[j] == front[i].0;
        assert(keys[j] == front[i].0);
    } else {
        assert(keys[keys.len() - 1] == keys.last());
    }
}

/// The history has at most fifteen sessions, and of each only fields that it is meant to keep, with
/// the values that the panel gave.
pub proof fn law_history_is_short(sessions: Seq<JsonView>, entry: int, field: int)
    requires
        0 <= entry < history_of(sessions)->Array_0.len(),
        0 <= field < (history_of(sessions)->Array_0)[entry]->Object_0.len(),
    ensures
        history_of(sessions)->Array_0.len() <= 15,
        ({
            let kept = (history_of(sessions)->Array_0)[entry]->Object_0[field];
            &&& history_keys().contains(kept.0)
            &&& sessions[entry].field(kept.0) == Some(kept.1)
        }),
{
    lemma_picked_keys(sessions[entry], history_keys(), field);
}

/// A photo is taken out of a data address of any media type: what follows the first "base64," is
/// decoded, in either alphabet, with padding and with white space around it, and goes into the file
/// of the session. Text without such a head is decoded as it is.
pub proof fn law_photo_of_any_media_type_is_decoded(
    session: JsonView,
    id: Seq<char>,
    name: Seq<char>,
    head: Seq<char>,
    before: Seq<char>,
    bytes: Seq<u8>,
    for_address: bool,
    padding: nat,
    after: Seq<char>,
)
    requires
        is_first_mark(head, "base64,"@),
        forall|i: int| 0 <= i < before.len() ==> is_white_space(#[trigger] before[i]),
        forall|i: int| 0 <= i < after.len() ==> is_white_space(#[trigger] after[i]),
        session.field("sessionId"@) == Some(JsonView::Text(id)),
        session.field("technician"@) == Some(JsonView::Text(name)),
    ensures
        ({
            let text = before + (encoded(bytes, for_address) + Seq::new(padding, |i: int| '='))
                + after;
            let want = PhotoJobView { name, file: Some((photo_file_name(id), bytes)) };
            &&& session.field("photo"@) == Some(JsonView::Text(head + "base64,"@ + text))
                ==> photo_job(session) == want
            &&& session.field("photo"@) == Some(JsonView::Text(text)) && text.len() > 0 ==> photo_job(
                session,
            ) == want
            &&& session.field("photo"@) == Some(JsonView::Text(Seq::empty())) ==> photo_job(session)
                == (PhotoJobView { name, file: None })
            &&& session.field("photo"@) is None ==> photo_job(session) == (PhotoJobView {
                name,
                file: None,
            })
        }),
{
    let inner = encoded(bytes, for_address) + Seq::new(padding, |i: int| '=');
    let text = before + inner + after;
    let mark = "base64,"@;
    reveal_strlit("base64,");
    assert forall|i: int| 0 <= i < inner.len() implies !is_white_space(#[trigger] inner[i])
        && inner[i] != ',' by {
        if i < encoded(bytes, for_address).len() {
            lemma_encoded_alphabet(bytes, for_address, i);
        }
    }
    law_white_space_around_is_trimmed(before, inner, after);
    law_encoded_bytes_decode(bytes, for_address, padding);
    law_first_mark_is_found(head, mark, text);
    let whole = head + mark + text;
    assert(whole.skip((head.len() + mark.len()) as int) =~= text);
    assert forall|j: int| 0 <= j <= text.len() - mark.len() implies #[trigger] text.subrange(
        j,
        j + mark.len(),
    ) != mark by {
        let part = text.subrange(j, j + mark.len());
        assert(part[6] == text[j + 6] && mark[6] == ',');
        let k = j + 6;
        if k < before.len() {
            assert(text[k] == before[k]);
        } else if k < before.len() + inner.len() {
            assert(text[k] == inner[k - before.len()]);
        } else {
            assert(text[k] == after[k - before.len() - inner.len()]);
        }
    }
    law_missing_mark_is_not_found(text, mark);
    assert(whole.len() > 0);
}

/// A photo that cannot be decoded is none: one with a character of neither alphabet behind the head.
pub proof fn law_spoiled_photo_is_none(
    session: JsonView,
    head: Seq<char>,
    a: Seq<char>,
    c: char,
    b: Seq<char>,
)
    requires
        is_first_mark(head, "base64,"@),
        !('A' <= c <= 'Z' || 'a' <= c <= 'z' || '0' <= c <= '9' || c == '+' || c == '/' || c == '-'
            || c == '_' || c == '=' || is_white_space(c)),
        session.field("photo"@) == Some(JsonView::Text(head + "base64,"@ + (a + seq![c] + b))),
    ensures
        photo_job(session).file is None,
{
    let mark = "base64,"@;
    let text = a + seq![c] + b;
    reveal_strlit("base64,");
    law_first_mark_is_found(head, mark, text);
    assert((head + mark + text).skip((head.len() + mark.len()) as int) =~= text);
    lemma_trimmed_keeps(text, a.len() as int);
    let i = choose|i: int| 0 <= i < trimmed(text).len() && trimmed(text)[i] == c;
    let t = trimmed(text);
    assert(t =~= t.take(i) + seq![c] + t.skip(i + 1));
    law_other_characters_spoil_the_text(t.take(i), c, t.skip(i + 1));
}

/// A character that is no white space is still there when a text is trimmed.
proof fn lemma_trimmed_keeps(s: Seq<char>, i: int)
    requires
        0 <= i < s.len(),
        !is_white_space(s[i]),
    ensures
        trimmed(s).contains(s[i]),
    decreases s.len(),
{
    if is_white_space(s[0]) {
        let rest = s.drop_first();
        assert(rest[i - 1] == s[i]);
        lemma_trimmed_keeps(rest, i - 1);
        assert(s =~= seq![s[0]] + rest);
        lemma_trim_front(seq![s[0]], rest, white());
    } else if is_white_space(s.last()) {
        let rest = s.drop_last();
        assert(rest[i] == s[i]);
        assert(trim_front(s, white()) == s);
        assert(trim_front(rest, white()) == rest);
        lemma_trimmed_keeps(rest, i);
        assert(s =~= rest + seq![s.last()]);
        lemma_trim_back(rest, seq![s.last()], white());
    } else {
        lemma_trimmed_already(s);
        assert(trimmed(s)[i] == s[i]);
    }
}

/// The name of the file of a photo has the letters and numbers among the first eight characters of
/// the id, and nothing of what follows them.
pub proof fn law_photo_file_is_named_after_the_id(a: Seq<char>, c: char, b: Seq<char>, rest: Seq<char>)
    requires
        a.len() + 1 + b.len() == 8,
    ensures
        photo_file_name(a + seq![c] + b + rest) == photo_file_name(a + seq![c] + b),
        photo_file_name(a + seq![c] + b) == "session_tech_"@ + (short_id(a) + (if unicode_alphanumeric(
            c,
        ) {
            seq![c]
        } else {
            Seq::empty()
        }) + short_id(b)) + ".png"@,
        photo_file_name(a) == "session_tech_"@ + short_id(a) + ".png"@,
        short_id(Seq::empty()) == Seq::<char>::empty(),
{
    let p = letters_and_numbers();
    let id = a + seq![c] + b;
    assert((id + rest).take(8) =~= id);
    assert(id.take(8) =~= id);
    assert(a.take(a.len() as int) =~= a);
    assert(b.take(b.len() as int) =~= b);
    lemma_kept_apart(a + seq![c], b);
    lemma_kept_apart(a, seq![c]);
    let one = seq![c];
    let none = Seq::<char>::empty();
    assert(none.filter(p) =~= none) by {
        reveal(Seq::filter);
    }
    assert(one.filter(p) =~= if unicode_alphanumeric(c) {
        seq![c]
    } else {
        none
    }) by {
        reveal(Seq::filter);
        assert(one.drop_last() =~= none);
        assert(one.last() == c);
        assert(none.filter(p) =~= none);
    }
    assert(none.take(0) =~= none);
}

/// Keeping letters and numbers goes through the parts of a text one by one.
proof fn lemma_kept_apart(a: Seq<char>, b: Seq<char>)
    ensures
        (a + b).filter(letters_and_numbers()) == a.filter(letters_and_numbers()) + b.filter(
            letters_and_numbers(),
        ),
    decreases b.len(),
{
    reveal(Seq::filter);
    let p = letters_and_numbers();
    if b.len() == 0 {
        assert(a + b =~= a);
        assert(a.filter(p) + b.filter(p) =~= a.filter(p));
    } else {
        assert((a + b).drop_last() =~= a + b.drop_last());
        assert((a + b).last() == b.last());
        lemma_kept_apart(a, b.drop_last());
        assert((a + b).filter(p) =~= a.filter(p) + b.filter(p));
    }
}

/// Every session with an id counts, with the name of its technician, behind those before it and
/// before those behind it; one without an id does not.
pub proof fn law_every_session_with_an_id_counts(
    before: Seq<JsonView>,
    value: JsonView,
    behind: Seq<JsonView>,
)
    ensures
        sessions_of(before + seq![value] + behind) == sessions_of(before) + (match value.field(
            "id"@,
        ) {
            Some(JsonView::Text(id)) => if id.len() > 0 {
                seq![
                    (
                        id,
                        match value.field("technician"@) {
                            Some(JsonView::Text(name)) => name,
                            _ => Seq::empty(),
                        },
                    ),
                ]
            } else {
                Seq::empty()
            },
            _ => Seq::empty(),
        }) + sessions_of(behind),
        sessions_of(Seq::empty()) == Seq::<SessionView>::empty(),
    decreases behind.len(),
{
    let all = before + seq![value] + behind;
    let one = if session_of(value).0.len() == 0 {
        Seq::empty()
    } else {
        seq![session_of(value)]
    };
    if behind.len() == 0 {
        assert(all.drop_last() =~= before);
        assert(all.last() == value);
        assert(sessions_of(all) =~= sessions_of(before) + one + sessions_of(behind));
    } else {
        law_every_session_with_an_id_counts(before, value, behind.drop_last());
        assert(all.drop_last() =~= before + seq![value] + behind.drop_last());
        assert(all.last() == behind.last());
        assert(sessions_of(all) =~= sessions_of(before) + one + sessions_of(behind));
    }
}

/// The list of sessions counts where the reply has one, and the single session elsewhere. An empty
/// list and a session that is null say that there is none.
pub proof fn law_list_counts_before_the_single_session(reply: JsonView)
    ensures
        active_sessions(reply) == (match reply.field("activeSessions"@) {
            Some(JsonView::Array(items)) => if items.len() > 0 {
                Some(sessions_of(items))
            } else {
                None
            },
            _ => match reply.field("activeSession"@) {
                None => None,
                Some(JsonView::Null) => None,
                Some(value) => Some(sessions_of(seq![value])),
            },
        }),
{
}

/// The ids of the sessions stand in their order, with one comma between two of them.
pub proof fn law_ids_are_joined_with_commas(sessions: Seq<SessionView>, last: SessionView)
    ensures
        stamp_of(sessions.push(last)) == (if sessions.len() == 0 {
            last.0
        } else {
            stamp_of(sessions) + seq![','] + last.0
        }),
        stamp_of(Seq::empty()) == Seq::<char>::empty(),
{
    assert(sessions.push(last).drop_last() =~= sessions);
}

/// As soon as sessions change, their ids, all names in their order, and the first name are written,
/// and no photos; when the last one ends, all four settings are emptied; elsewhere nothing is
/// written.
pub proof fn law_names_of_all_technicians_are_written(
    sessions: Seq<SessionView>,
    ids: Seq<char>,
    i: int,
)
    requires
        0 <= i < sessions.len(),
    ensures
        ({
            let writes = session_writes(Some(sessions), ids);
            let list = technicians(sessions, no_photo());
            &&& ids == stamp_of(sessions) ==> writes.len() == 0
            &&& ids != stamp_of(sessions) ==> writes == seq![
                ("cd_active_session_id"@, stamp_of(sessions)),
                ("cd_active_sessions"@, text_of_json(list)),
                ("cd_active_session_tech_name"@, sessions[0].1),
                ("cd_active_session_tech_photo_path"@, Seq::empty()),
            ]
            &&& list->Array_0.len() == sessions.len()
            &&& list->Array_0[i] == JsonView::Object(
                seq![
                    ("name"@, JsonView::Text(sessions[i].1)),
                    ("photoPath"@, JsonView::Text(Seq::empty())),
                ],
            )
        }),
        session_writes(None, Seq::empty()).len() == 0,
        ids.len() > 0 ==> session_writes(None, ids) == seq![
            ("cd_active_session_id"@, Seq::<char>::empty()),
            ("cd_active_session_tech_name"@, Seq::empty()),
            ("cd_active_session_tech_photo_path"@, Seq::empty()),
            ("cd_active_sessions"@, Seq::empty()),
        ],
{
}

/// The photo of a technician is the first one that was saved under their name, whoever else has one
/// before it.
pub proof fn law_photo_goes_to_its_technician(
    jobs: Seq<PhotoJobView>,
    paths: Seq<Seq<char>>,
    job: PhotoJobView,
    path: Seq<char>,
    name: Seq<char>,
)
    requires
        jobs.len() == paths.len(),
    ensures
        photo_path(jobs.push(job), paths.push(path), name) == (if photo_path(
            jobs,
            paths,
            name,
        ).len() > 0 {
            photo_path(jobs, paths, name)
        } else if job.name == name {
            path
        } else {
            Seq::empty()
        }),
        photo_path(Seq::empty(), Seq::empty(), name) == Seq::<char>::empty(),
    decreases jobs.len(),
{
    let more = jobs.push(job);
    let further = paths.push(path);
    if jobs.len() == 0 {
        assert(more.drop_first() =~= Seq::empty());
        assert(further.drop_first() =~= Seq::empty());
        reveal_with_fuel(photo_path, 2);
        assert(photo_path(more, further, name) =~= if job.name == name {
            path
        } else {
            Seq::empty()
        });
    } else {
        assert(more.drop_first() =~= jobs.drop_first().push(job));
        assert(further.drop_first() =~= paths.drop_first().push(path));
        law_photo_goes_to_its_technician(jobs.drop_first(), paths.drop_first(), job, path, name);
    }
}

/// Once photos came, every technician of the sessions is listed in their order, with the photo under
/// their name, and the first name goes with the photo of the first technician.
pub proof fn law_photos_are_shown_with_their_names(
    sessions: Seq<SessionView>,
    jobs: Seq<PhotoJobView>,
    paths: Seq<Seq<char>>,
    i: int,
)
    requires
        jobs.len() > 0,
        0 <= i < sessions.len(),
    ensures
        ({
            let list = technicians(sessions, photos_by_name(jobs, paths));
            &&& photo_writes(sessions, jobs, paths) == seq![
                ("cd_active_sessions"@, text_of_json(list)),
                ("cd_active_session_tech_name"@, sessions[0].1),
                (
                    "cd_active_session_tech_photo_path"@,
                    photo_path(jobs, paths, sessions[0].1),
                ),
            ]
            &&& list->Array_0.len() == sessions.len()
            &&& list->Array_0[i] == JsonView::Object(
                seq![
                    ("name"@, JsonView::Text(sessions[i].1)),
                    ("photoPath"@, JsonView::Text(photo_path(jobs, paths, sessions[i].1))),
                ],
            )
        }),
{
}

/// Each session of a reply gives one photo to save, in its place.
pub proof fn law_every_session_gives_a_photo(reply: JsonView, items: Seq<JsonView>, i: int)
    requires
        reply.field("sessions"@) == Some(JsonView::Array(items)),
        0 <= i < items.len(),
    ensures
        photo_jobs_view(reply) matches Some(jobs) && jobs.len() == items.len() && jobs[i]
            == photo_job(items[i]),
{
}

/// Photos are asked for exactly where sessions with ids are there and something is missing: other
/// ids, no first photo, no list, or an entry without a photo.
pub proof fn law_photos_are_asked_for_while_one_is_missing(
    sessions: Seq<SessionView>,
    ids: Seq<char>,
    items: Seq<JsonView>,
    photo: Seq<char>,
    i: int,
)
    requires
        stamp_of(sessions).len() > 0,
        0 <= i < items.len(),
    ensures
        ({
            let list = Some(JsonView::Array(items));
            let asked = photo_sessions(Some(sessions), ids, list, photo);
            &&& asked == Some(sessions) || asked is None
            &&& ids != stamp_of(sessions) ==> asked is Some
            &&& photo.len() == 0 ==> asked is Some
            &&& !(items[i].field("photoPath"@) matches Some(JsonView::Text(path)) && path.len() > 0)
                ==> asked is Some
            &&& ids == stamp_of(sessions) && photo.len() > 0 && (forall|k: int|
                0 <= k < items.len() ==> ((#[trigger] items[k]).field("photoPath"@) matches Some(
                    JsonView::Text(path),
                ) && path.len() > 0)) ==> asked is None
            &&& photo_sessions(Some(sessions), ids, None, photo) is Some
            &&& photo_sessions(None, ids, list, photo) is None
        }),
{
    if !(items[i].field("photoPath"@) matches Some(JsonView::Text(path)) && path.len() > 0) {
        assert(items[i].text_field("photoPath"@).len() == 0);
        assert(some_without_photo(items));
    }
}

/// The history holds the first fifteen sessions in their order.
pub proof fn law_history_holds_the_first_sessions(reply: JsonView, items: Seq<JsonView>, i: int)
    requires
        reply.field("sessions"@) == Some(JsonView::Array(items)),
        0 <= i < items.len(),
        i < 15,
    ensures
        history_writes(reply) == seq![("cd_session_history"@, text_of_json(history_of(items)))],
        history_of(items)->Array_0.len() == (if items.len() < 15 {
            items.len()
        } else {
            15
        }),
        history_of(items)->Array_0[i] == history_entry(items[i]),
{
}

/// Of a session the history keeps its id, technician, begin, end and reason with the values that the
/// panel gave, and no other field.
pub proof fn law_history_keeps_five_fields(session: JsonView, key: Seq<char>)
    ensures
        history_entry(session).field(key) == (if key == "id"@ || key == "technician"@ || key
            == "started_at"@ || key == "ended_at"@ || key == "reason"@ {
            session.field(key)
        } else {
            None
        }),
{
    let keys = history_keys();
    lemma_history_keys_differ();
    assert(keys[0] == "id"@ && keys[1] == "technician"@ && keys[2] == "started_at"@ && keys[3]
        == "ended_at"@ && keys[4] == "reason"@);
    lemma_picked_field(session, keys, key);
    if keys.contains(key) {
        let i = choose|i: int| 0 <= i < keys.len() && keys[i] == key;
    }
}

/// The keys of the history differ.
proof fn lemma_history_keys_differ()
    ensures
        "id"@.len() == 2,
        "technician"@.len() == 10 && "technician"@[0] == 't',
        "started_at"@.len() == 10 && "started_at"@[0] == 's',
        "ended_at"@.len() == 8,
        "reason"@.len() == 6,
{
    reveal_strlit("id");
    reveal_strlit("technician");
    reveal_strlit("started_at");
    reveal_strlit("ended_at");
    reveal_strlit("reason");
}

/// A field that was picked is read as it was, and one that was not picked is not there.
proof fn lemma_picked_field(value: JsonView, keys: Seq<Seq<char>>, key: Seq<char>)
    ensures
        first_value(picked(value, keys), key) == (if keys.contains(key) {
            value.field(key)
        } else {
            None
        }),
    decreases keys.len(),
{
    if keys.len() > 0 {
        let front = picked(value, keys.drop_last());
        lemma_picked_field(value, keys.drop_last(), key);
        if let Some(field) = value.field(keys.last()) {
            lemma_first_value_push(front, keys.last(), field, key);
        }
        if keys.contains(key) {
            let i = choose|i: int| 0 <= i < keys.len() && keys[i] == key;
            if i < keys.len() - 1 {
                assert(keys.drop_last()[i] == key);
            }
        }
        if keys.drop_last().contains(key) {
            let i = choose|i: int| 0 <= i < keys.drop_last().len() && keys.drop_last()[i] == key;
            assert(keys[i] == key);
        }
        assert(keys[keys.len() - 1] == keys.last());
    }
}

/// A field at the end counts where no other has its key.
proof fn lemma_first_value_push(
    fields: Seq<(Seq<char>, JsonView)>,
    last: Seq<char>,
    value: JsonView,
    key: Seq<char>,
)
    ensures
        first_value(fields.push((last, value)), key) == (match first_value(fields, key) {
            Some(found) => Some(found),
            None => if last == key {
                Some(value)
            } else {
                None
            },
        }),
    decreases fields.len(),
{
    let more = fields.push((last, value));
    if fields.len() == 0 {
        assert(more.drop_first() =~= Seq::empty());
        reveal_with_fuel(first_value, 2);
    } else {
        assert(more[0] == fields[0]);
        assert(more.drop_first() =~= fields.drop_first().push((last, value)));
        lemma_first_value_push(fields.drop_first(), last, value, key);
    }
}

} // verus!
