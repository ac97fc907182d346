//! Updating the agent: the feed is read, a newer build is fetched, its digest is checked, and the
//! installer is started.

use vstd::prelude::*;
use crate::api::{
    agent_request, agent_request_view, fetch, fetch_view, Endpoint, Request, RequestView,
};
use crate::command::{spawn, Platform, Step, StepView};
use crate::feed::{fork_feed, parse_fork_feed, FeedView};
use crate::json::{push_field, Json, JsonView};
use crate::outside::{sha512, sha512_digest};
use crate::text::{
    ascii_lower, chars_of, decimal, decimal_text, glue, glue3, hex_value, is_white_space,
    law_replacing_goes_by_characters, law_white_space_around_is_trimmed, lemma_replaced_nowhere,
    lower, replace, replaced, string_of, trim, trim_back, trim_front, trimmed,
};

verus! {

/// The script that installs, up to the path of the installer.
pub const INSTALL_HEAD: &'static str =
    "Start-Process powershell -WindowStyle Hidden -ArgumentList '-NoProfile','-ExecutionPolicy','Bypass','-Command',\"& '";

/// The script that installs, from the path of the installer on: it installs silently and then makes
/// sure for half a minute that the service runs.
pub const INSTALL_TAIL: &'static str =
    "' --silent-install; Start-Sleep -Seconds 12; for ($i=0; $i -lt 6; $i++){ $s=Get-Service ConectDesk -ErrorAction SilentlyContinue; if($s -and $s.Status -eq 'Running'){break}; Start-Service ConectDesk -ErrorAction SilentlyContinue; Start-Sleep -Seconds 5 }\"";

/// A build that the feed offers.
#[derive(Debug, PartialEq)]
pub struct Offer {
    pub build_id: u64,
    pub version: String,
    pub exe: String,
    pub sha512: Option<String>,
}

impl DeepView for Offer {
    type V = FeedView;

    open spec fn deep_view(&self) -> FeedView {
        FeedView {
            build_id: self.build_id,
            version: self.version@,
            exe: self.exe@,
            sha512: self.sha512.deep_view(),
        }
    }
}

/// What came of fetching the installer.
#[derive(Debug, PartialEq)]
pub enum Fetched {
    /// The server was not reached or reported an error.
    Failed,
    /// The server answered, and the body did not come through.
    Broken,
    /// The installer.
    Body(Vec<u8>),
}

/// The mathematical value of a `Fetched`.
pub enum FetchedView {
    Failed,
    Broken,
    Body(Seq<u8>),
}

impl DeepView for Fetched {
    type V = FetchedView;

    open spec fn deep_view(&self) -> FetchedView {
        match *self {
            Fetched::Failed => FetchedView::Failed,
            Fetched::Broken => FetchedView::Broken,
            Fetched::Body(bytes) => FetchedView::Body(bytes@),
        }
    }
}

/// What is done next. A status and a message for the panel go with all but `Save`.
#[derive(Debug, PartialEq)]
pub enum UpdateAction {
    /// The feed is fetched.
    Check { feed: Request, message: String },
    /// The update is over.
    Stop { status: String, message: String },
    /// The installer is fetched.
    Download { offer: Offer, message: String },
    /// The installer, whose digest was checked, is saved under this name in the temporary directory.
    Save { file_name: String, body: Vec<u8> },
    /// The installer is started.
    Install { message: String, step: Step },
}

/// The mathematical value of an `UpdateAction`.
#[verifier::ext_equal]
pub enum UpdateView {
    Check { feed: RequestView, message: Seq<char> },
    Stop { status: Seq<char>, message: Seq<char> },
    Download { offer: FeedView, message: Seq<char> },
    Save { file_name: Seq<char>, body: Seq<u8> },
    Install { message: Seq<char>, step: StepView },
}

impl DeepView for UpdateAction {
    type V = UpdateView;

    open spec fn deep_view(&self) -> UpdateView {
        match *self {
            UpdateAction::Check { feed, message } => UpdateView::Check {
                feed: feed.deep_view(),
                message: message@,
            },
            UpdateAction::Stop { status, message } => UpdateView::Stop {
                status: status@,
                message: message@,
            },
            UpdateAction::Download { offer, message } => UpdateView::Download {
                offer: offer.deep_view(),
                message: message@,
            },
            UpdateAction::Save { file_name, body } => UpdateView::Save {
                file_name: file_name@,
                body: body@,
            },
            UpdateAction::Install { message, step } => UpdateView::Install {
                message: message@,
                step: step.deep_view(),
            },
        }
    }
}

/// An update that failed.
pub open spec fn failed_view(message: Seq<char>) -> UpdateView {
    UpdateView::Stop { status: "failed"@, message }
}

/// An update that failed.
fn failed(message: &str) -> (action: UpdateAction)
    ensures
        action.deep_view() == failed_view(message@),
{
    UpdateAction::Stop { status: "failed".to_owned(), message: message.to_owned() }
}

// ---------------------------------------------------------------------------------------------
// The feed
// ---------------------------------------------------------------------------------------------

/// How an update begins: the feed is fetched. Only Windows updates itself.
pub open spec fn update_begin(platform: Platform, base: Seq<char>) -> Option<UpdateView> {
    match platform {
        Platform::Windows => Some(
            UpdateView::Check {
                feed: fetch_view(base + "/updates/fork-latest.yml"@, 30),
                message: "Verificando fork-latest.yml"@,
            },
        ),
        Platform::Other => None,
    }
}

/// What follows from the feed, for the build `local`. Only a newer build is fetched.
pub open spec fn after_feed(local: u64, feed: Option<Seq<char>>) -> UpdateView {
    match feed {
        None => failed_view("Falha ao buscar feed"@),
        Some(text) => match fork_feed(text) {
            None => failed_view("Feed inválido"@),
            Some(offer) => if offer.build_id <= local {
                UpdateView::Stop {
                    status: "done"@,
                    message: "Já está em "@ + offer.version + " ("@ + decimal(local as nat) + ")"@,
                }
            } else {
                UpdateView::Download {
                    offer,
                    message: "Baixando "@ + offer.version + " (build "@ + decimal(
                        offer.build_id as nat,
                    ) + ")"@,
                }
            },
        },
    }
}

/// Decides what follows from the feed, for the build `local`. `feed` is nothing where the feed did
/// not come.
pub fn on_feed(local: u64, feed: Option<&str>) -> (action: UpdateAction)
    ensures
        action.deep_view() == after_feed(local, feed.deep_view()),
{
    match feed {
        None => failed("Falha ao buscar feed"),
        Some(text) => match parse_fork_feed(text) {
            None => failed("Feed inválido"),
            Some((build_id, version, exe, sha512)) => {
                if build_id <= local {
                    let head = glue3("Já está em ", version.as_str(), " (");
                    let number = decimal_text(local);
                    UpdateAction::Stop {
                        status: "done".to_owned(),
                        message: glue3(head.as_str(), number.as_str(), ")"),
                    }
                } else {
                    let head = glue3("Baixando ", version.as_str(), " (build ");
                    let number = decimal_text(build_id);
                    UpdateAction::Download {
                        offer: Offer { build_id, version, exe, sha512 },
                        message: glue3(head.as_str(), number.as_str(), ")"),
                    }
                }
            },
        },
    }
}

/// The request for an installer. Spaces in its name are escaped.
pub open spec fn installer_request(base: Seq<char>, exe: Seq<char>) -> RequestView {
    fetch_view(base + "/updates/"@ + replaced(exe, ' ', "%20"@), 30)
}

/// The request for an installer.
pub fn installer(base: &str, exe: &str) -> (request: Request)
    ensures
        request.deep_view() == installer_request(base@, exe@),
{
    let chars = chars_of(exe);
    let escape = chars_of("%20");
    let safe = replace(chars.as_slice(), ' ', escape.as_slice());
    let name = string_of(safe.as_slice());
    fetch(glue3(base, "/updates/", name.as_str()), 30)
}

// ---------------------------------------------------------------------------------------------
// The digest
// ---------------------------------------------------------------------------------------------

/// The hexadecimal digit for a value below sixteen.
pub open spec fn hex_char(value: int) -> char {
    if value < 10 {
        ('0' as int + value) as char
    } else {
        ('a' as int + value - 10) as char
    }
}

/// The bytes in hexadecimal digits, two for each byte.
pub open spec fn hex(bytes: Seq<u8>) -> Seq<char> {
    Seq::new(
        2 * bytes.len(),
        |i: int|
            hex_char(
                if i % 2 == 0 {
                    bytes[i / 2] as int / 16
                } else {
                    bytes[i / 2] as int % 16
                },
            ),
    )
}

/// The texts are the same but for the case of ASCII letters.
pub open spec fn same_but_case(a: Seq<char>, b: Seq<char>) -> bool {
    a.map_values(|c: char| ascii_lower(c)) == b.map_values(|c: char| ascii_lower(c))
}

/// The digest is the one that `expected` spells, in either case and with white space around it.
pub open spec fn is_digest(digest: Seq<u8>, expected: Seq<char>) -> bool {
    same_but_case(hex(digest), trimmed(expected))
}

/// The hexadecimal digit for a value below sixteen.
fn hex_digit(value: u8) -> (c: char)
    requires
        value < 16,
    ensures
        c == hex_char(value as int),
{
    if value < 10 {
        (48u8 + value) as char
    } else {
        (87u8 + value) as char
    }
}

/// The bytes in hexadecimal digits.
pub fn hex_chars(bytes: &[u8]) -> (chars: Vec<char>)
    ensures
        chars@ == hex(bytes@),
{
    let mut chars: Vec<char> = Vec::new();
    for i in 0..bytes.len()
        invariant
            chars@ == hex(bytes@.take(i as int)),
    {
        let ghost before = hex(bytes@.take(i as int));
        let ghost after = hex(bytes@.take(i as int + 1));
        let byte: u8 = bytes[i];
        chars.push(hex_digit(byte / 16));
        chars.push(hex_digit(byte % 16));
        assert forall|j: int| 0 <= j < chars@.len() implies chars@[j] == after[j] by {
            if j < 2 * i {
                assert(chars@[j] == before[j]);
                assert(bytes@.take(i as int)[j / 2] == bytes@.take(i as int + 1)[j / 2]);
            } else {
                assert(j / 2 == i);
            }
        }
        assert(chars@ =~= after);
    }
    assert(bytes@.take(bytes@.len() as int) =~= bytes@);
    chars
}

/// Whether the digest is the one that `expected` spells.
pub fn digest_matches(digest: &[u8], expected: &str) -> (yes: bool)
    ensures
        yes == is_digest(digest@, expected@),
{
    let got = hex_chars(digest);
    let chars = chars_of(expected);
    let want = trim(chars.as_slice());
    let ghost a = got@.map_values(|c: char| ascii_lower(c));
    let ghost b = want@.map_values(|c: char| ascii_lower(c));
    if got.len() != want.len() {
        assert(a.len() != b.len());
        return false;
    }
    for i in 0..got.len()
        invariant
            got@.len() == want@.len(),
            a == got@.map_values(|c: char| ascii_lower(c)),
            b == want@.map_values(|c: char| ascii_lower(c)),
            forall|j: int| 0 <= j < i ==> a[j] == b[j],
            got@ == hex(digest@),
            want@ == trimmed(expected@),
    {
        if lower(got[i]) != lower(want[i]) {
            assert(a[i as int] != b[i as int]);
            return false;
        }
    }
    assert(a =~= b);
    true
}

/// What follows from fetching the installer of an offer. It is saved only where the feed named a
/// digest and the body has it.
pub open spec fn after_download(offer: FeedView, fetched: FetchedView) -> UpdateView {
    match fetched {
        FetchedView::Failed => failed_view("Download falhou"@),
        FetchedView::Broken => failed_view("Falha ao ler corpo do download"@),
        FetchedView::Body(bytes) => after_digest(offer, sha512(bytes), bytes),
    }
}

/// What follows from the digest of the installer.
pub open spec fn after_digest(offer: FeedView, digest: Seq<u8>, body: Seq<u8>) -> UpdateView {
    match offer.sha512 {
        None => failed_view("Feed sem checksum — atualização recusada"@),
        Some(expected) => if is_digest(digest, expected) {
            UpdateView::Save {
                file_name: "ConectDesk-Update-"@ + decimal(offer.build_id as nat) + ".exe"@,
                body,
            }
        } else {
            failed_view("Integridade do download falhou (SHA-512) — atualização abortada"@)
        },
    }
}

/// Decides what follows from the digest of the installer.
pub fn on_digest(offer: &Offer, digest: &[u8], body: Vec<u8>) -> (action: UpdateAction)
    ensures
        action.deep_view() == after_digest(offer.deep_view(), digest@, body@),
{
    match &offer.sha512 {
        None => failed("Feed sem checksum — atualização recusada"),
        Some(expected) => {
            if digest_matches(digest, expected.as_str()) {
                let number = decimal_text(offer.build_id);
                UpdateAction::Save {
                    file_name: glue3("ConectDesk-Update-", number.as_str(), ".exe"),
                    body,
                }
            } else {
                failed("Integridade do download falhou (SHA-512) — atualização abortada")
            }
        },
    }
}

/// Decides what follows from fetching the installer of an offer.
pub fn on_download(offer: &Offer, fetched: Fetched) -> (action: UpdateAction)
    ensures
        action.deep_view() == after_download(offer.deep_view(), fetched.deep_view()),
{
    match fetched {
        Fetched::Failed => failed("Download falhou"),
        Fetched::Broken => failed("Falha ao ler corpo do download"),
        Fetched::Body(bytes) => {
            let digest = sha512_digest(bytes.as_slice());
            on_digest(offer, digest.as_slice(), bytes)
        },
    }
}

/// What follows from saving the installer at `path`.
pub open spec fn after_save(offer: FeedView, saved: bool, path: Seq<char>) -> UpdateView {
    if saved {
        UpdateView::Install {
            message: "Instalando "@ + offer.version + " (silent)"@,
            step: StepView::Spawn {
                program: "powershell.exe"@,
                args: seq![
                    "-NoProfile"@,
                    "-ExecutionPolicy"@,
                    "Bypass"@,
                    "-Command"@,
                    INSTALL_HEAD@ + path + INSTALL_TAIL@,
                ],
            },
        }
    } else {
        failed_view("Falha ao gravar instalador temporário"@)
    }
}

/// Decides what follows from saving the installer at `path`.
fn on_saved(offer: &Offer, saved: bool, path: &str) -> (action: UpdateAction)
    ensures
        action.deep_view() == after_save(offer.deep_view(), saved, path@),
{
    if saved {
        let script = glue3(INSTALL_HEAD, path, INSTALL_TAIL);
        let step = spawn(
            "powershell.exe",
            &["-NoProfile", "-ExecutionPolicy", "Bypass", "-Command", script.as_str()],
        );
        assert(step.deep_view() =~~= after_save(offer.deep_view(), saved, path@)->Install_step);
        UpdateAction::Install {
            message: glue3("Instalando ", offer.version.as_str(), " (silent)"),
            step,
        }
    } else {
        failed("Falha ao gravar instalador temporário")
    }
}

// ---------------------------------------------------------------------------------------------
// The course of an update
// ---------------------------------------------------------------------------------------------

/// What happened in an update.
#[derive(Debug, PartialEq)]
pub enum UpdateEvent {
    /// The feed was asked for; this is its text, if it came.
    Feed { text: Option<String> },
    /// The installer was asked for.
    Installer { fetched: Fetched },
    /// The installer was saved at this path, or not.
    Saved { saved: bool, path: String },
}

/// The mathematical value of an `UpdateEvent`.
pub enum UpdateEventView {
    Feed { text: Option<Seq<char>> },
    Installer { fetched: FetchedView },
    Saved { saved: bool, path: Seq<char> },
}

impl DeepView for UpdateEvent {
    type V = UpdateEventView;

    open spec fn deep_view(&self) -> UpdateEventView {
        match *self {
            UpdateEvent::Feed { text } => UpdateEventView::Feed { text: text.deep_view() },
            UpdateEvent::Installer { fetched } => UpdateEventView::Installer {
                fetched: fetched.deep_view(),
            },
            UpdateEvent::Saved { saved, path } => UpdateEventView::Saved { saved, path: path@ },
        }
    }
}

/// What an update waits for.
#[derive(Debug, PartialEq)]
enum Stage {
    /// The feed.
    Feed,
    /// The installer of this offer.
    Installer { offer: Offer },
    /// The installer of this offer on the disk; its digest was checked.
    Disk { offer: Offer },
    /// Nothing any more.
    Over,
}

/// The mathematical value of a stage.
pub enum StageView {
    Feed,
    Installer { offer: FeedView },
    Disk { offer: FeedView },
    Over,
}

/// The mathematical value of a stage.
spec fn stage_view(stage: Stage) -> StageView {
    match stage {
        Stage::Feed => StageView::Feed,
        Stage::Installer { offer } => StageView::Installer { offer: offer.deep_view() },
        Stage::Disk { offer } => StageView::Disk { offer: offer.deep_view() },
        Stage::Over => StageView::Over,
    }
}

/// An update on its way, of the build `local`.
#[derive(Debug, PartialEq)]
pub struct Updater {
    local: u64,
    stage: Stage,
}

/// The mathematical value of an `Updater`.
pub struct UpdaterView {
    pub local: u64,
    pub stage: StageView,
}

impl View for Updater {
    type V = UpdaterView;

    closed spec fn view(&self) -> UpdaterView {
        UpdaterView { local: self.local, stage: stage_view(self.stage) }
    }
}

/// What is done about an event: nothing where the update does not wait for it.
pub open spec fn update_action(updater: UpdaterView, event: UpdateEventView) -> Option<UpdateView> {
    match (updater.stage, event) {
        (StageView::Feed, UpdateEventView::Feed { text }) => Some(
            after_feed(updater.local, text),
        ),
        (StageView::Installer { offer }, UpdateEventView::Installer { fetched }) => Some(
            after_download(offer, fetched),
        ),
        (StageView::Disk { offer }, UpdateEventView::Saved { saved, path }) => Some(
            after_save(offer, saved, path),
        ),
        _ => None,
    }
}

/// What the update waits for after an event.
pub open spec fn stage_after(updater: UpdaterView, event: UpdateEventView) -> StageView {
    match (updater.stage, update_action(updater, event)) {
        (StageView::Feed, Some(UpdateView::Download { offer, .. })) => StageView::Installer {
            offer,
        },
        (StageView::Installer { offer }, Some(UpdateView::Save { .. })) => StageView::Disk {
            offer,
        },
        _ => StageView::Over,
    }
}

/// The update after an event.
pub open spec fn updater_after(updater: UpdaterView, event: UpdateEventView) -> UpdaterView {
    UpdaterView { local: updater.local, stage: stage_after(updater, event) }
}

/// The same offer once more.
fn copy_of(offer: &Offer) -> (copy: Offer)
    ensures
        copy.deep_view() == offer.deep_view(),
{
    let sha512 = match &offer.sha512 {
        Some(digest) => Some(digest.clone()),
        None => None,
    };
    Offer {
        build_id: offer.build_id,
        version: offer.version.clone(),
        exe: offer.exe.clone(),
        sha512,
    }
}

/// Begins an update of the build `local`, on a platform that updates itself.
pub fn maybe_update(platform: Platform, base: &str, local: u64) -> (begun: Option<
    (Updater, UpdateAction),
>)
    ensures
        (match begun {
            Some((_, action)) => Some(action.deep_view()),
            None => None,
        }) == update_begin(platform, base@),
        begun matches Some((updater, _)) ==> updater@ == (UpdaterView {
            local,
            stage: StageView::Feed,
        }),
{
    match platform {
        Platform::Windows => Some(
            (
                Updater { local, stage: Stage::Feed },
                UpdateAction::Check {
                    feed: fetch(glue(base, "/updates/fork-latest.yml"), 30),
                    message: "Verificando fork-latest.yml".to_owned(),
                },
            ),
        ),
        Platform::Other => None,
    }
}

impl Updater {
    /// Takes in what happened, and decides what is done next.
    pub fn step(&mut self, event: UpdateEvent) -> (action: Option<UpdateAction>)
        ensures
            final(self)@ == updater_after(old(self)@, event.deep_view()),
            action.deep_view() == update_action(old(self)@, event.deep_view()),
    {
        let local: u64 = self.local;
        let mut stage = Stage::Over;
        std::mem::swap(&mut self.stage, &mut stage);
        match (stage, event) {
            (Stage::Feed, UpdateEvent::Feed { text }) => {
                let action = match &text {
                    Some(feed) => on_feed(local, Some(feed.as_str())),
                    None => on_feed(local, None),
                };
                if let UpdateAction::Download { offer, message: _ } = &action {
                    self.stage = Stage::Installer { offer: copy_of(offer) };
                }
                Some(action)
            },
            (Stage::Installer { offer }, UpdateEvent::Installer { fetched }) => {
                let action = on_download(&offer, fetched);
                if let UpdateAction::Save { file_name: _, body: _ } = &action {
                    self.stage = Stage::Disk { offer };
                }
                Some(action)
            },
            (Stage::Disk { offer }, UpdateEvent::Saved { saved, path }) => Some(
                on_saved(&offer, saved, path.as_str()),
            ),
            _ => None,
        }
    }
}

/// The update of the build `local` after the first events.
pub open spec fn updater_at(local: u64, events: Seq<UpdateEventView>, n: nat) -> UpdaterView
    decreases n,
{
    if n == 0 {
        UpdaterView { local, stage: StageView::Feed }
    } else {
        updater_after(updater_at(local, events, (n - 1) as nat), events[n - 1])
    }
}

// ---------------------------------------------------------------------------------------------
// Reports
// ---------------------------------------------------------------------------------------------

/// A report on the progress of an update.
pub open spec fn status_body(status: Seq<char>, message: Seq<char>) -> JsonView {
    JsonView::Object(
        seq![("status"@, JsonView::Text(status)), ("message"@, JsonView::Text(message))],
    )
}

/// The request that reports the progress of an update. An agent without a token reports nothing.
pub open spec fn status_request(
    base: Seq<char>,
    token: Seq<char>,
    status: Seq<char>,
    message: Seq<char>,
) -> Option<RequestView> {
    if token.len() == 0 {
        None
    } else {
        Some(
            agent_request_view(
                Endpoint::UpdateStatus,
                base,
                token,
                Some(status_body(status, message)),
            ),
        )
    }
}

/// The request that reports the progress of an update.
pub fn report_update_status(base: &str, token: &str, status: &str, message: &str) -> (request:
    Option<Request>)
    ensures
        request.deep_view() == status_request(base@, token@, status@, message@),
{
    if token.is_empty() {
        return None;
    }
    let mut fields: Vec<(String, Json)> = Vec::new();
    push_field(&mut fields, "status", Json::text(status));
    push_field(&mut fields, "message", Json::text(message));
    assert(fields.deep_view() =~= status_body(status@, message@)->Object_0);
    Some(agent_request(Endpoint::UpdateStatus, base, token, Some(Json::object(fields))))
}

/// The status and the message that go with an action.
pub open spec fn progress_view(action: UpdateView) -> Option<(Seq<char>, Seq<char>)> {
    match action {
        UpdateView::Check { message, .. } => Some(("checking"@, message)),
        UpdateView::Stop { status, message } => Some((status, message)),
        UpdateView::Download { message, .. } => Some(("downloading"@, message)),
        UpdateView::Save { .. } => None,
        UpdateView::Install { message, .. } => Some(("installing"@, message)),
    }
}

/// The status and the message that go with an action.
pub fn progress(action: &UpdateAction) -> (told: Option<(String, String)>)
    ensures
        told.deep_view() == progress_view(action.deep_view()),
{
    match action {
        UpdateAction::Check { feed: _, message } => Some(("checking".to_owned(), message.clone())),
        UpdateAction::Stop { status, message } => Some((status.clone(), message.clone())),
        UpdateAction::Download { offer: _, message } => Some(
            ("downloading".to_owned(), message.clone()),
        ),
        UpdateAction::Save { file_name: _, body: _ } => None,
        UpdateAction::Install { message, step: _ } => Some(
            ("installing".to_owned(), message.clone()),
        ),
    }
}

// ---------------------------------------------------------------------------------------------
// Laws
// ---------------------------------------------------------------------------------------------

/// A build is fetched exactly where the feed can be read and names a newer one, and it is the one
/// that the feed names.
pub proof fn law_only_newer_builds_are_fetched(local: u64, feed: Option<Seq<char>>)
    ensures
        after_feed(local, feed) is Download <==> (feed is Some && fork_feed(feed->0) is Some
            && fork_feed(feed->0)->0.build_id > local),
        after_feed(local, feed) matches UpdateView::Download { offer, message } ==> fork_feed(feed->0)
            == Some(offer),
{
}

/// Once the build that a feed names is installed, the same feed has nothing fetched.
pub proof fn law_installed_build_is_not_fetched_again(local: u64, feed: Seq<char>)
    requires
        after_feed(local, Some(feed)) is Download,
    ensures
        after_feed(after_feed(local, Some(feed))->Download_offer.build_id, Some(feed)) is Stop,
{
}

/// An installer is saved exactly where its body came, the feed named a digest, and the body has
/// that digest.
pub proof fn law_only_checked_installers_are_saved(offer: FeedView, fetched: FetchedView)
    ensures
        after_download(offer, fetched) is Save <==> (fetched is Body && offer.sha512 is Some
            && is_digest(sha512(fetched->Body_0), offer.sha512->0)),
        after_download(offer, fetched) is Save || (after_download(offer, fetched) matches
            UpdateView::Stop { status, message } && status == "failed"@),
{
}

/// A digest in hexadecimal digits is accepted, in either case of the letters.
pub proof fn law_spelled_digest_is_accepted(digest: Seq<u8>, text: Seq<char>)
    requires
        same_but_case(hex(digest), text),
    ensures
        is_digest(digest, text),
{
    let a = hex(digest).map_values(|c: char| ascii_lower(c));
    let b = text.map_values(|c: char| ascii_lower(c));
    assert(a.len() == b.len());
    assert forall|i: int| 0 <= i < text.len() implies !is_white_space(#[trigger] text[i]) by {
        assert(a[i] == ascii_lower(hex(digest)[i]));
        assert(b[i] == ascii_lower(text[i]));
    }
    reveal_with_fuel(trim_front, 2);
    reveal_with_fuel(trim_back, 2);
    assert(trimmed(text) == text);
}

/// Whatever happens in an update, an installer is started only where, just before, the body that
/// was to be saved had the digest that the feed named, and the feed before that named a newer build.
pub proof fn law_only_checked_builds_are_installed(
    local: u64,
    events: Seq<UpdateEventView>,
    n: nat,
)
    requires
        n < events.len(),
        update_action(updater_at(local, events, n), events[n as int]) matches Some(
            UpdateView::Install { .. },
        ),
    ensures
        n >= 2,
        ({
            let feed = events[n - 2]->Feed_text->0;
            let offer = fork_feed(feed)->0;
            let body = events[n - 1]->Installer_fetched->Body_0;
            let saved = update_action(updater_at(local, events, (n - 1) as nat), events[n - 1]);
            &&& events[n - 2] is Feed && events[n - 2]->Feed_text is Some
            &&& fork_feed(feed) is Some && offer.build_id > local
            &&& events[n - 1] is Installer && events[n - 1]->Installer_fetched is Body
            &&& offer.sha512 is Some && is_digest(sha512(body), offer.sha512->0)
            &&& saved matches Some(UpdateView::Save { body: handed, .. }) && handed == body
            &&& update_action(updater_at(local, events, n), events[n as int]) == Some(
                after_save(offer, true, events[n as int]->Saved_path),
            )
        }),
{
    reveal_with_fuel(updater_at, 3);
    let now = updater_at(local, events, n);
    assert(now.stage is Disk);
    assert(n >= 1);
    let before = updater_at(local, events, (n - 1) as nat);
    assert(before.stage is Installer);
    assert(n >= 2);
    let first = updater_at(local, events, (n - 2) as nat);
    assert(first.stage is Feed);
    lemma_local_stays(local, events, (n - 2) as nat);
}

/// The build that is updated stays the same.
proof fn lemma_local_stays(local: u64, events: Seq<UpdateEventView>, n: nat)
    ensures
        updater_at(local, events, n).local == local,
    decreases n,
{
    if n > 0 {
        lemma_local_stays(local, events, (n - 1) as nat);
    }
}

/// A byte is spelled in two small hexadecimal digits, the bytes in their order.
pub proof fn law_bytes_are_spelled_in_two_digits(bytes: Seq<u8>, i: int)
    requires
        0 <= i < bytes.len(),
    ensures
        hex(bytes).len() == 2 * bytes.len(),
        hex_value(hex(bytes)[2 * i]) is Some,
        hex_value(hex(bytes)[2 * i + 1]) is Some,
        hex_value(hex(bytes)[2 * i])->0 * 16 + hex_value(hex(bytes)[2 * i + 1])->0 == bytes[i],
        !('A' <= hex(bytes)[2 * i] <= 'F') && !('A' <= hex(bytes)[2 * i + 1] <= 'F'),
{
    let text = hex(bytes);
    assert(2 * i / 2 == i && (2 * i + 1) / 2 == i && (2 * i + 1) % 2 == 1 && (2 * i) % 2 == 0);
    assert(text[2 * i] == hex_char(bytes[i] as int / 16));
    assert(text[2 * i + 1] == hex_char(bytes[i] as int % 16));
}

/// A digest is the expected one exactly where its digits are, apart from white space around them and
/// from the case of the letters.
pub proof fn law_digest_is_compared_digit_by_digit(
    digest: Seq<u8>,
    before: Seq<char>,
    expected: Seq<char>,
    after: Seq<char>,
)
    requires
        forall|i: int| 0 <= i < before.len() ==> is_white_space(#[trigger] before[i]),
        forall|i: int| 0 <= i < after.len() ==> is_white_space(#[trigger] after[i]),
        expected.len() > 0 ==> !is_white_space(expected[0]) && !is_white_space(expected.last()),
    ensures
        is_digest(digest, before + expected + after) <==> expected.len() == hex(digest).len() && (
        forall|i: int|
            0 <= i < expected.len() ==> hex(digest)[i] == #[trigger] expected[i] || (hex(digest)[i]
                as int - expected[i] as int == 32 && 'A' <= expected[i] <= 'Z')),
{
    law_white_space_around_is_trimmed(before, expected, after);
    let a = hex(digest).map_values(|c: char| ascii_lower(c));
    let b = expected.map_values(|c: char| ascii_lower(c));
    assert forall|i: int| 0 <= i < hex(digest).len() implies ascii_lower(#[trigger] hex(digest)[i])
        == hex(digest)[i] by {
        law_bytes_are_spelled_in_two_digits(digest, i / 2);
        assert(i == 2 * (i / 2) || i == 2 * (i / 2) + 1);
        assert(hex_value(hex(digest)[i]) is Some);
    }
    if is_digest(digest, before + expected + after) {
        assert(a == b);
        assert(a.len() == b.len());
        assert forall|i: int| 0 <= i < expected.len() implies hex(digest)[i] == #[trigger] expected[i]
            || (hex(digest)[i] as int - expected[i] as int == 32 && 'A' <= expected[i] <= 'Z') by {
            assert(a[i] == b[i]);
            assert(a[i] == ascii_lower(hex(digest)[i]));
            assert(b[i] == ascii_lower(expected[i]));
        }
    }
    if expected.len() == hex(digest).len() && (forall|i: int|
        0 <= i < expected.len() ==> hex(digest)[i] == #[trigger] expected[i] || (hex(digest)[i]
            as int - expected[i] as int == 32 && 'A' <= expected[i] <= 'Z')) {
        assert forall|i: int| 0 <= i < a.len() implies a[i] == b[i] by {
            assert(a[i] == ascii_lower(hex(digest)[i]));
            assert(b[i] == ascii_lower(expected[i]));
            assert(expected[i] == expected[i]);
        }
        assert(a =~= b);
    }
}

/// What an update says at each turn of the feed: that it cannot be fetched or read, that the build is
/// not newer, or that it is fetched.
pub proof fn law_feed_is_answered(local: u64, text: Seq<char>, offer: FeedView)
    ensures
        after_feed(local, None) == (UpdateView::Stop {
            status: "failed"@,
            message: "Falha ao buscar feed"@,
        }),
        fork_feed(text) is None ==> after_feed(local, Some(text)) == (UpdateView::Stop {
            status: "failed"@,
            message: "Feed inválido"@,
        }),
        fork_feed(text) == Some(offer) && offer.build_id <= local ==> after_feed(local, Some(text))
            == (UpdateView::Stop {
            status: "done"@,
            message: "Já está em "@ + offer.version + " ("@ + decimal(local as nat) + ")"@,
        }),
        fork_feed(text) == Some(offer) && offer.build_id > local ==> after_feed(local, Some(text))
            == (UpdateView::Download {
            offer,
            message: "Baixando "@ + offer.version + " (build "@ + decimal(offer.build_id as nat)
                + ")"@,
        }),
{
}

/// Every body with the digest of its offer is saved, under the name of its build, and every other is
/// refused with the reason.
pub proof fn law_every_checked_body_is_saved(offer: FeedView, body: Seq<u8>)
    ensures
        offer.sha512 matches Some(expected) ==> after_download(offer, FetchedView::Body(body)) == (
        if is_digest(sha512(body), expected) {
            UpdateView::Save {
                file_name: "ConectDesk-Update-"@ + decimal(offer.build_id as nat) + ".exe"@,
                body,
            }
        } else {
            UpdateView::Stop {
                status: "failed"@,
                message: "Integridade do download falhou (SHA-512) — atualização abortada"@,
            }
        }),
        offer.sha512 is None ==> after_download(offer, FetchedView::Body(body)) == (
        UpdateView::Stop {
            status: "failed"@,
            message: "Feed sem checksum — atualização recusada"@,
        }),
        after_download(offer, FetchedView::Failed) == (UpdateView::Stop {
            status: "failed"@,
            message: "Download falhou"@,
        }),
        after_download(offer, FetchedView::Broken) == (UpdateView::Stop {
            status: "failed"@,
            message: "Falha ao ler corpo do download"@,
        }),
{
}

/// An installer that was saved is started from where it lies, and one that was not is not.
pub proof fn law_saved_installer_is_started(offer: FeedView, path: Seq<char>)
    ensures
        after_save(offer, true, path) == (UpdateView::Install {
            message: "Instalando "@ + offer.version + " (silent)"@,
            step: StepView::Spawn {
                program: "powershell.exe"@,
                args: seq![
                    "-NoProfile"@,
                    "-ExecutionPolicy"@,
                    "Bypass"@,
                    "-Command"@,
                    "Start-Process powershell -WindowStyle Hidden -ArgumentList '-NoProfile','-ExecutionPolicy','Bypass','-Command',\"& '"@ + path + "' --silent-install; Start-Sleep -Seconds 12; for ($i=0; $i -lt 6; $i++){ $s=Get-Service ConectDesk -ErrorAction SilentlyContinue; if($s -and $s.Status -eq 'Running'){break}; Start-Service ConectDesk -ErrorAction SilentlyContinue; Start-Sleep -Seconds 5 }\""@,
                ],
            },
        }),
        after_save(offer, false, path) == (UpdateView::Stop {
            status: "failed"@,
            message: "Falha ao gravar instalador temporário"@,
        }),
{
}

/// An update goes its way: the feed, then the installer that it names, then the disk, and then it is
/// over; an action that ends it ends it at once.
pub proof fn law_update_goes_its_way(
    local: u64,
    text: Seq<char>,
    offer: FeedView,
    body: Seq<u8>,
    expected: Seq<char>,
    saved: bool,
    path: Seq<char>,
)
    requires
        fork_feed(text) == Some(offer),
        offer.build_id > local,
        offer.sha512 == Some(expected),
        is_digest(sha512(body), expected),
    ensures
        ({
            let begun = UpdaterView { local, stage: StageView::Feed };
            let feed = UpdateEventView::Feed { text: Some(text) };
            let fetched = UpdateEventView::Installer { fetched: FetchedView::Body(body) };
            let disk = UpdateEventView::Saved { saved, path };
            let second = updater_after(begun, feed);
            let third = updater_after(second, fetched);
            &&& update_action(begun, feed) matches Some(UpdateView::Download { offer: o, .. }) && o
                == offer
            &&& update_action(second, fetched) matches Some(UpdateView::Save { body: b, .. }) && b
                == body
            &&& update_action(third, disk) is Some
            &&& update_action(third, disk)->0 is Install <==> saved
            &&& updater_after(third, disk).stage is Over
            &&& updater_after(begun, UpdateEventView::Feed { text: None }).stage is Over
            &&& updater_after(
                second,
                UpdateEventView::Installer { fetched: FetchedView::Failed },
            ).stage is Over
        }),
{
}

/// How an update begins, where its installer lies, and what the panel is told of each action and by
/// whom.
pub proof fn law_panel_is_told_of_each_action(
    base: Seq<char>,
    token: Seq<char>,
    action: UpdateView,
    exe: Seq<char>,
    status: Seq<char>,
    message: Seq<char>,
)
    ensures
        update_begin(Platform::Windows, base) == Some(
            UpdateView::Check {
                feed: fetch_view(base + "/updates/fork-latest.yml"@, 30),
                message: "Verificando fork-latest.yml"@,
            },
        ),
        update_begin(Platform::Other, base) is None,
        !exe.contains(' ') ==> installer_request(base, exe) == fetch_view(
            base + "/updates/"@ + exe,
            30,
        ),
        action matches UpdateView::Check { message: m, .. } ==> progress_view(action) == Some(
            ("checking"@, m),
        ),
        action matches UpdateView::Stop { status: s, message: m } ==> progress_view(action) == Some(
            (s, m),
        ),
        action matches UpdateView::Download { message: m, .. } ==> progress_view(action) == Some(
            ("downloading"@, m),
        ),
        action matches UpdateView::Install { message: m, .. } ==> progress_view(action) == Some(
            ("installing"@, m),
        ),
        action is Save ==> progress_view(action) is None,
        status_request(base, Seq::empty(), status, message) is None,
        token.len() > 0 ==> status_request(base, token, status, message) is Some,
{
    if !exe.contains(' ') {
        lemma_replaced_nowhere(exe, ' ', "%20"@);
    }
}

/// The report on an update says its status and its message, and goes with the token.
pub proof fn law_report_on_an_update(
    base: Seq<char>,
    token: Seq<char>,
    status: Seq<char>,
    message: Seq<char>,
)
    requires
        token.len() > 0,
    ensures
        status_request(base, token, status, message)->0 == agent_request_view(
            Endpoint::UpdateStatus,
            base,
            token,
            Some(status_body(status, message)),
        ),
        status_body(status, message)->Object_0 == seq![
            ("status"@, JsonView::Text(status)),
            ("message"@, JsonView::Text(message)),
        ],
{
}

/// The spaces in the name of an installer are escaped in its address, one by one, and nothing else is.
pub proof fn law_spaces_in_the_name_are_escaped(base: Seq<char>, a: Seq<char>, b: Seq<char>)
    ensures
        installer_request(base, a + seq![' '] + b).url == base + "/updates/"@ + (replaced(
            a,
            ' ',
            "%20"@,
        ) + "%20"@ + replaced(b, ' ', "%20"@)),
{
    law_replacing_goes_by_characters(a, ' ', b, ' ', "%20"@);
}

} // verus!
