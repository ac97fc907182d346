//! The slow readings: disks, power supply, events, security, printers and the link to the panel.

use vstd::prelude::*;
use vstd::utf8::encode_utf8;
use crate::command::{borrowed, kept_text, run, Platform, Step, StepView};
use crate::inventory::{as_array, listed, or_null, ps_json, written_json};
use crate::json::{json_of_bytes, push_field, Json, JsonView};
use crate::outside::lossy_text;
use crate::text::{
    chars_of, glue3, is_first_mark, is_white_space, law_first_mark_is_found,
    law_missing_mark_is_not_found, law_white_space_around_is_trimmed, lemma_first_part,
    lemma_only_part, pieces, split, split_at_each, string_of,
};

verus! {

/// The physical disks and their state.
pub const DISKS_SCRIPT: &'static str =
    "Get-PhysicalDisk | Select-Object -First 12 FriendlyName,MediaType,HealthStatus,@{n='sizeGB';e={[math]::Round($_.Size/1GB)}} | ConvertTo-Json -Compress";

/// The battery or the power supply that bridges outages.
pub const UPS_SCRIPT: &'static str =
    "Get-CimInstance Win32_Battery | Select-Object -First 1 BatteryStatus,EstimatedChargeRemaining,EstimatedRunTime | ConvertTo-Json -Compress";

/// The errors that the system logged in the last three days.
pub const EVENTS_SCRIPT: &'static str =
    "try { Get-WinEvent -FilterHashtable @{LogName='System';Level=1,2;StartTime=(Get-Date).AddDays(-3)} -MaxEvents 12 -ErrorAction Stop | Select-Object @{n='ts';e={$_.TimeCreated.ToString('s')}},Id,ProviderName,LevelDisplayName,@{n='msg';e={$_.Message -replace '\\s+',' ' | ForEach-Object { $_.Substring(0,[math]::Min(140,$_.Length)) }}} | ConvertTo-Json -Compress } catch { '[]' }";

/// The day of the last update of the system.
pub const LAST_UPDATE_SCRIPT: &'static str =
    "try { (Get-HotFix | Sort-Object InstalledOn -Descending | Select-Object -First 1).InstalledOn.ToString('yyyy-MM-dd') | ConvertTo-Json -Compress } catch { 'null' }";

/// The protection against viruses.
pub const DEFENDER_SCRIPT: &'static str =
    "try { Get-MpComputerStatus | Select-Object AntivirusEnabled,RealTimeProtectionEnabled,@{n='sigAgeDays';e={$_.AntivirusSignatureAge}} | ConvertTo-Json -Compress } catch { 'null' }";

/// The firewall by profile.
pub const FIREWALL_SCRIPT: &'static str =
    "Get-NetFirewallProfile | Select-Object Name,Enabled | ConvertTo-Json -Compress";

/// The license of the system.
pub const LICENSED_SCRIPT: &'static str =
    "try { (Get-CimInstance SoftwareLicensingProduct -Filter \"Name like 'Windows%25' AND PartialProductKey is not null\" | Select-Object -First 1).LicenseStatus | ConvertTo-Json -Compress } catch { 'null' }";

/// The printers and their state.
pub const PRINTERS_SCRIPT: &'static str =
    "Get-Printer | Select-Object -First 20 Name,@{n='status';e={$_.PrinterStatus.ToString()}} | ConvertTo-Json -Compress";

/// How long a transfer to the disk takes, in milliseconds.
pub const DISK_LATENCY_SCRIPT: &'static str =
    "try { [int]((Get-CimInstance Win32_PerfFormattedData_PerfDisk_PhysicalDisk | Where-Object Name -eq '_Total').AvgDisksecPerTransfer * 1000) | ConvertTo-Json -Compress } catch { 'null' }";

/// The script that measures the link to the panel, up to the host.
pub const NETWORK_HEAD: &'static str = "try { $r = Test-Connection -ComputerName '";

/// The script that measures the link to the panel, from the host on.
pub const NETWORK_TAIL: &'static str =
    "' -Count 4 -ErrorAction Stop; [pscustomobject]@{ avgMs=[math]::Round(($r | Measure-Object ResponseTime -Average).Average); loss=0 } | ConvertTo-Json -Compress } catch { '{\"avgMs\":null,\"loss\":100}' }";

/// A reading that takes no argument.
#[derive(Debug, Clone, Copy, PartialEq, Eq, Structural)]
pub enum Reading {
    Disks,
    Ups,
    Events,
    LastUpdate,
    Defender,
    Firewall,
    Licensed,
    Printers,
    DiskLatency,
}

/// The script of a reading.
pub open spec fn reading_script(reading: Reading) -> Seq<char> {
    match reading {
        Reading::Disks => DISKS_SCRIPT@,
        Reading::Ups => UPS_SCRIPT@,
        Reading::Events => EVENTS_SCRIPT@,
        Reading::LastUpdate => LAST_UPDATE_SCRIPT@,
        Reading::Defender => DEFENDER_SCRIPT@,
        Reading::Firewall => FIREWALL_SCRIPT@,
        Reading::Licensed => LICENSED_SCRIPT@,
        Reading::Printers => PRINTERS_SCRIPT@,
        Reading::DiskLatency => DISK_LATENCY_SCRIPT@,
    }
}

/// A script that PowerShell runs without asking anything.
pub open spec fn quiet_script(script: Seq<char>) -> StepView {
    StepView::Run {
        program: "powershell.exe"@,
        args: seq!["-NoProfile"@, "-NonInteractive"@, "-Command"@, script],
    }
}

/// A script that PowerShell runs without asking anything.
fn quiet_step(script: &str) -> (step: Step)
    ensures
        step.deep_view() == quiet_script(script@),
{
    let step = run("powershell.exe", &["-NoProfile", "-NonInteractive", "-Command", script]);
    assert(step.deep_view() =~~= quiet_script(script@));
    step
}

/// The program that takes a reading.
pub fn reading_query(reading: Reading) -> (step: Step)
    ensures
        step.deep_view() == quiet_script(reading_script(reading)),
{
    let script = match reading {
        Reading::Disks => DISKS_SCRIPT,
        Reading::Ups => UPS_SCRIPT,
        Reading::Events => EVENTS_SCRIPT,
        Reading::LastUpdate => LAST_UPDATE_SCRIPT,
        Reading::Defender => DEFENDER_SCRIPT,
        Reading::Firewall => FIREWALL_SCRIPT,
        Reading::Licensed => LICENSED_SCRIPT,
        Reading::Printers => PRINTERS_SCRIPT,
        Reading::DiskLatency => DISK_LATENCY_SCRIPT,
    };
    quiet_step(script)
}

// ---------------------------------------------------------------------------------------------
// The link to the panel
// ---------------------------------------------------------------------------------------------

/// The host in an address: what stands behind the scheme, up to a slash or a colon.
pub open spec fn host_of(base: Seq<char>) -> Seq<char> {
    let parts = split(base, "://"@);
    if parts.len() > 1 {
        split(split(parts[1], seq!['/'])[0], seq![':'])[0]
    } else {
        Seq::empty()
    }
}

/// The host in an address.
pub fn api_host(base: &str) -> (host: String)
    ensures
        host@ == host_of(base@),
{
    let chars = chars_of(base);
    let mark = chars_of("://");
    proof {
        reveal_strlit("://");
    }
    let parts = split_at_each(chars.as_slice(), mark.as_slice());
    assert(pieces(parts@).len() == parts@.len());
    if parts.len() > 1 {
        assert(pieces(parts@)[1] == parts@[1]@);
        let slash: [char; 1] = ['/'];
        let colon: [char; 1] = [':'];
        assert(slash@ =~= seq!['/']);
        assert(colon@ =~= seq![':']);
        let sections = split_at_each(parts[1], &slash);
        assert(pieces(sections@)[0] == sections@[0]@);
        let names = split_at_each(sections[0], &colon);
        assert(pieces(names@)[0] == names@[0]@);
        string_of(names[0])
    } else {
        String::new()
    }
}

/// The program that measures the link to the panel, where the platform has one and the address has
/// a host.
pub open spec fn network_query(platform: Platform, base: Option<Seq<char>>) -> Option<StepView> {
    match base {
        Some(address) => if platform == Platform::Windows && host_of(address).len() > 0 {
            Some(quiet_script(NETWORK_HEAD@ + host_of(address) + NETWORK_TAIL@))
        } else {
            None
        },
        None => None,
    }
}

/// The program that measures the link to the panel. Where there is none the reading is null.
pub fn collect_network_quality(platform: Platform, base: Option<&str>) -> (step: Option<Step>)
    ensures
        step.deep_view() == network_query(platform, base.deep_view()),
{
    match base {
        Some(address) => {
            let host = api_host(address);
            if platform == Platform::Windows && !host.as_str().is_empty() {
                let script = glue3(NETWORK_HEAD, host.as_str(), NETWORK_TAIL);
                Some(quiet_step(script.as_str()))
            } else {
                None
            }
        },
        None => None,
    }
}

// ---------------------------------------------------------------------------------------------
// The report
// ---------------------------------------------------------------------------------------------

/// What the scripts wrote: nothing for one that could not be run.
#[derive(Debug)]
pub struct HealthOutputs {
    pub disks: Option<Vec<u8>>,
    pub ups: Option<Vec<u8>>,
    pub events: Option<Vec<u8>>,
    pub last_update: Option<Vec<u8>>,
    pub defender: Option<Vec<u8>>,
    pub firewall: Option<Vec<u8>>,
    pub licensed: Option<Vec<u8>>,
    pub printers: Option<Vec<u8>>,
    pub network: Option<Vec<u8>>,
    pub disk_latency: Option<Vec<u8>>,
}

/// The readings, null in the place of one that failed.
#[derive(Debug)]
pub struct Readings {
    pub disks: Json,
    pub ups: Json,
    pub events: Json,
    pub last_update: Json,
    pub defender: Json,
    pub firewall: Json,
    pub licensed: Json,
    pub printers: Json,
    pub network: Json,
    pub disk_latency: Json,
}

/// The mathematical value of `Readings`.
pub struct ReadingsView {
    pub disks: JsonView,
    pub ups: JsonView,
    pub events: JsonView,
    pub last_update: JsonView,
    pub defender: JsonView,
    pub firewall: JsonView,
    pub licensed: JsonView,
    pub printers: JsonView,
    pub network: JsonView,
    pub disk_latency: JsonView,
}

impl DeepView for Readings {
    type V = ReadingsView;

    open spec fn deep_view(&self) -> ReadingsView {
        ReadingsView {
            disks: self.disks@,
            ups: self.ups@,
            events: self.events@,
            last_update: self.last_update@,
            defender: self.defender@,
            firewall: self.firewall@,
            licensed: self.licensed@,
            printers: self.printers@,
            network: self.network@,
            disk_latency: self.disk_latency@,
        }
    }
}

/// What a script wrote, as a reading.
pub open spec fn reading_in(output: Option<Vec<u8>>) -> JsonView {
    or_null(written_json(kept_text(output)))
}

/// What the scripts wrote, as readings.
pub open spec fn readings_in(outputs: HealthOutputs) -> ReadingsView {
    ReadingsView {
        disks: reading_in(outputs.disks),
        ups: reading_in(outputs.ups),
        events: reading_in(outputs.events),
        last_update: reading_in(outputs.last_update),
        defender: reading_in(outputs.defender),
        firewall: reading_in(outputs.firewall),
        licensed: reading_in(outputs.licensed),
        printers: reading_in(outputs.printers),
        network: reading_in(outputs.network),
        disk_latency: reading_in(outputs.disk_latency),
    }
}

/// The report on the readings.
pub open spec fn health_report(r: ReadingsView) -> JsonView {
    JsonView::Object(
        seq![
            (
                "health"@,
                JsonView::Object(
                    seq![
                        ("disks"@, listed(r.disks)),
                        ("ups"@, r.ups),
                        ("events"@, listed(r.events)),
                        ("diskLatencyMs"@, r.disk_latency),
                    ],
                ),
            ),
            (
                "security"@,
                JsonView::Object(
                    seq![
                        ("lastWindowsUpdate"@, r.last_update),
                        ("defender"@, r.defender),
                        ("firewall"@, listed(r.firewall)),
                        ("windowsLicensed"@, r.licensed),
                    ],
                ),
            ),
            ("redeQualidade"@, r.network),
            ("peripherals"@, JsonView::Object(seq![("printers"@, listed(r.printers))])),
        ],
    )
}

/// The report on the readings. Only Windows has any.
pub open spec fn health_view(platform: Platform, r: ReadingsView) -> JsonView {
    match platform {
        Platform::Windows => health_report(r),
        Platform::Other => JsonView::Object(Seq::empty()),
    }
}

/// The report on the readings.
pub fn report_health(platform: Platform, readings: Readings) -> (report: Json)
    ensures
        report@ == health_view(platform, readings.deep_view()),
{
    if platform == Platform::Other {
        let report = Json::object(Vec::new());
        assert(report@->Object_0 =~= Seq::<(Seq<char>, JsonView)>::empty());
        return report;
    }
    let ghost want = health_report(readings.deep_view());
    let mut health: Vec<(String, Json)> = Vec::new();
    push_field(&mut health, "disks", as_array(readings.disks));
    push_field(&mut health, "ups", readings.ups);
    push_field(&mut health, "events", as_array(readings.events));
    push_field(&mut health, "diskLatencyMs", readings.disk_latency);
    let mut security: Vec<(String, Json)> = Vec::new();
    push_field(&mut security, "lastWindowsUpdate", readings.last_update);
    push_field(&mut security, "defender", readings.defender);
    push_field(&mut security, "firewall", as_array(readings.firewall));
    push_field(&mut security, "windowsLicensed", readings.licensed);
    let mut peripherals: Vec<(String, Json)> = Vec::new();
    push_field(&mut peripherals, "printers", as_array(readings.printers));
    assert(health.deep_view() =~= want->Object_0[0].1->Object_0);
    assert(security.deep_view() =~= want->Object_0[1].1->Object_0);
    assert(peripherals.deep_view() =~= want->Object_0[3].1->Object_0);
    let mut fields: Vec<(String, Json)> = Vec::new();
    push_field(&mut fields, "health", Json::object(health));
    push_field(&mut fields, "security", Json::object(security));
    push_field(&mut fields, "redeQualidade", readings.network);
    push_field(&mut fields, "peripherals", Json::object(peripherals));
    assert(fields.deep_view() =~= want->Object_0);
    Json::object(fields)
}

/// The report on the readings, out of what the scripts wrote.
pub fn collect_health_blocks(platform: Platform, outputs: &HealthOutputs) -> (report: Json)
    ensures
        report@ == health_view(platform, readings_in(*outputs)),
{
    let readings = Readings {
        disks: ps_json(borrowed(&outputs.disks)),
        ups: ps_json(borrowed(&outputs.ups)),
        events: ps_json(borrowed(&outputs.events)),
        last_update: ps_json(borrowed(&outputs.last_update)),
        defender: ps_json(borrowed(&outputs.defender)),
        firewall: ps_json(borrowed(&outputs.firewall)),
        licensed: ps_json(borrowed(&outputs.licensed)),
        printers: ps_json(borrowed(&outputs.printers)),
        network: ps_json(borrowed(&outputs.network)),
        disk_latency: ps_json(borrowed(&outputs.disk_latency)),
    };
    report_health(platform, readings)
}

/// A reading that failed is null, and an empty list where a list is reported.
pub proof fn law_failed_reading_is_null(output: Option<Vec<u8>>)
    requires
        written_json(kept_text(output)) is None,
    ensures
        reading_in(output) == JsonView::Null,
        listed(reading_in(output)) == JsonView::Array(Seq::empty()),
{
}

/// The host of an address is what stands between the scheme and the next slash or colon, whatever
/// follows, and an address without a scheme has none.
pub proof fn law_host_stands_behind_the_scheme(
    scheme: Seq<char>,
    host: Seq<char>,
    rest: Seq<char>,
    bare: Seq<char>,
)
    requires
        is_first_mark(scheme, "://"@),
        !host.contains('/') && !host.contains(':'),
        rest.len() == 0 || rest[0] == '/' || rest[0] == ':',
        forall|j: int| 0 <= j <= rest.len() - 3 ==> #[trigger] rest.subrange(j, j + 3) != "://"@,
        forall|j: int| 0 <= j <= bare.len() - 3 ==> #[trigger] bare.subrange(j, j + 3) != "://"@,
    ensures
        host_of(scheme + "://"@ + (host + rest)) == host,
        host_of(bare) == Seq::<char>::empty(),
{
    reveal_strlit("://");
    let mark = "://"@;
    let tail = host + rest;
    law_first_mark_is_found(scheme, mark, tail);
    assert forall|j: int| 0 <= j <= tail.len() - mark.len() implies #[trigger] tail.subrange(
        j,
        j + mark.len(),
    ) != mark by {
        let part = tail.subrange(j, j + mark.len());
        if j < host.len() {
            assert(part[0] == host[j]);
            assert(mark[0] == ':');
        } else {
            assert(part =~= rest.subrange(j - host.len(), j - host.len() + 3));
        }
    }
    law_missing_mark_is_not_found(tail, mark);
    let parts = split(scheme + mark + tail, mark);
    assert(parts =~= seq![scheme, tail]);
    lemma_up_to(host, rest, '/');
    let section = split(tail, seq!['/'])[0];
    if rest.len() > 0 && rest[0] == ':' {
        let k = section.len() - host.len();
        assert(section =~= host + rest.take(k));
        lemma_up_to(host, rest.take(k), ':');
    } else {
        assert(section =~= host);
        lemma_only_part(host, ':');
    }
    law_missing_mark_is_not_found(bare, mark);
}

/// The first part of a text begins with what has no mark in it, and is just that where the mark
/// follows or nothing does.
proof fn lemma_up_to(host: Seq<char>, rest: Seq<char>, mark: char)
    requires
        !host.contains(mark),
    ensures
        rest.len() == 0 || rest[0] == mark ==> split(host + rest, seq![mark])[0] == host,
        rest.len() > 0 && rest[0] != mark ==> {
            let first = split(host + rest, seq![mark])[0];
            &&& host.len() < first.len() <= host.len() + rest.len()
            &&& first == host + rest.take(first.len() - host.len())
        },
{
    if rest.len() == 0 {
        assert(host + rest =~= host);
        lemma_only_part(host, mark);
    } else if rest[0] == mark {
        assert(host + rest =~= host + seq![mark] + rest.drop_first());
        lemma_first_part(host, mark, rest.drop_first());
    } else {
        let whole = host + rest;
        if rest.contains(mark) {
            let n = first_index(rest, mark);
            lemma_first_index(rest, mark);
            let a = host + rest.take(n);
            assert(!a.contains(mark)) by {
                if a.contains(mark) {
                    let i = choose|i: int| 0 <= i < a.len() && a[i] == mark;
                    if i < host.len() {
                        assert(host[i] == mark);
                    } else {
                        assert(rest[i - host.len()] == mark);
                    }
                }
            }
            assert(whole =~= a + seq![mark] + rest.skip(n + 1));
            lemma_first_part(a, mark, rest.skip(n + 1));
            assert(split(whole, seq![mark])[0] == a);
            assert(a.len() - host.len() == n);
        } else {
            assert(!whole.contains(mark)) by {
                if whole.contains(mark) {
                    let i = choose|i: int| 0 <= i < whole.len() && whole[i] == mark;
                    if i < host.len() {
                        assert(host[i] == mark);
                    } else {
                        assert(rest[i - host.len()] == mark);
                    }
                }
            }
            lemma_only_part(whole, mark);
            assert(rest.take(rest.len() as int) =~= rest);
        }
    }
}

/// Where a mark stands first.
spec fn first_index(s: Seq<char>, mark: char) -> int
    decreases s.len(),
{
    if s.len() == 0 || s[0] == mark {
        0
    } else {
        1 + first_index(s.drop_first(), mark)
    }
}

/// The first mark is one, and none stands before it.
proof fn lemma_first_index(s: Seq<char>, mark: char)
    requires
        s.contains(mark),
    ensures
        0 <= first_index(s, mark) < s.len(),
        s[first_index(s, mark)] == mark,
        forall|k: int| 0 <= k < first_index(s, mark) ==> #[trigger] s[k] != mark,
        s[0] != mark ==> first_index(s, mark) > 0,
    decreases s.len(),
{
    if s[0] != mark {
        let rest = s.drop_first();
        let i = choose|i: int| 0 <= i < s.len() && s[i] == mark;
        assert(rest[i - 1] == mark);
        lemma_first_index(rest, mark);
        assert(rest[first_index(rest, mark)] == s[first_index(s, mark)]);
        assert forall|k: int| 0 <= k < first_index(s, mark) implies #[trigger] s[k] != mark by {
            if k > 0 {
                assert(rest[k - 1] == s[k]);
            }
        }
    }
}

/// The link is measured on Windows wherever the address of the panel has a host, and that host is
/// measured.
pub proof fn law_link_to_the_panel_is_measured(address: Seq<char>)
    ensures
        host_of(address).len() > 0 ==> network_query(Platform::Windows, Some(address)) == Some(
            StepView::Run {
                program: "powershell.exe"@,
                args: seq![
                    "-NoProfile"@,
                    "-NonInteractive"@,
                    "-Command"@,
                    "try { $r = Test-Connection -ComputerName '"@ + host_of(address) + "' -Count 4 -ErrorAction Stop; [pscustomobject]@{ avgMs=[math]::Round(($r | Measure-Object ResponseTime -Average).Average); loss=0 } | ConvertTo-Json -Compress } catch { '{\"avgMs\":null,\"loss\":100}' }"@,
                ],
            },
        ),
        host_of(address).len() == 0 ==> network_query(Platform::Windows, Some(address)) is None,
        network_query(Platform::Other, Some(address)) is None,
        network_query(Platform::Windows, None) is None,
{
}

/// Each reading stands in its place in the report: a list where there may be several, and the value
/// itself elsewhere.
pub proof fn law_every_reading_has_its_place(r: ReadingsView)
    ensures
        ({
            let report = health_view(Platform::Windows, r);
            let fields = report->Object_0;
            let health = fields[0].1->Object_0;
            let security = fields[1].1->Object_0;
            let peripherals = fields[3].1->Object_0;
            &&& report is Object && fields.len() == 4
            &&& fields[0].0 == "health"@ && fields[0].1 is Object && health.len() == 4
            &&& health[0] == ("disks"@, as_list(r.disks))
            &&& health[1] == ("ups"@, r.ups)
            &&& health[2] == ("events"@, as_list(r.events))
            &&& health[3] == ("diskLatencyMs"@, r.disk_latency)
            &&& fields[1].0 == "security"@ && fields[1].1 is Object && security.len() == 4
            &&& security[0] == ("lastWindowsUpdate"@, r.last_update)
            &&& security[1] == ("defender"@, r.defender)
            &&& security[2] == ("firewall"@, as_list(r.firewall))
            &&& security[3] == ("windowsLicensed"@, r.licensed)
            &&& fields[2] == ("redeQualidade"@, r.network)
            &&& fields[3].0 == "peripherals"@ && fields[3].1 is Object && peripherals.len() == 1
            &&& peripherals[0] == ("printers"@, as_list(r.printers))
        }),
        health_view(Platform::Other, r) == JsonView::Object(Seq::empty()),
{
}

/// A list is itself, null is the empty list, and any other value is a list of one.
pub open spec fn as_list(value: JsonView) -> JsonView {
    if value is Array {
        value
    } else if value == JsonView::Null {
        JsonView::Array(Seq::empty())
    } else {
        JsonView::Array(seq![value])
    }
}

/// Each reading is what its own script wrote.
pub proof fn law_every_reading_is_of_its_script(outputs: HealthOutputs)
    ensures
        readings_in(outputs).disks == reading_in(outputs.disks),
        readings_in(outputs).ups == reading_in(outputs.ups),
        readings_in(outputs).events == reading_in(outputs.events),
        readings_in(outputs).last_update == reading_in(outputs.last_update),
        readings_in(outputs).defender == reading_in(outputs.defender),
        readings_in(outputs).firewall == reading_in(outputs.firewall),
        readings_in(outputs).licensed == reading_in(outputs.licensed),
        readings_in(outputs).printers == reading_in(outputs.printers),
        readings_in(outputs).network == reading_in(outputs.network),
        readings_in(outputs).disk_latency == reading_in(outputs.disk_latency),
        reading_script(Reading::Disks) == "Get-PhysicalDisk | Select-Object -First 12 FriendlyName,MediaType,HealthStatus,@{n='sizeGB';e={[math]::Round($_.Size/1GB)}} | ConvertTo-Json -Compress"@,
        reading_script(Reading::Ups) == "Get-CimInstance Win32_Battery | Select-Object -First 1 BatteryStatus,EstimatedChargeRemaining,EstimatedRunTime | ConvertTo-Json -Compress"@,
        reading_script(Reading::Events) == "try { Get-WinEvent -FilterHashtable @{LogName='System';Level=1,2;StartTime=(Get-Date).AddDays(-3)} -MaxEvents 12 -ErrorAction Stop | Select-Object @{n='ts';e={$_.TimeCreated.ToString('s')}},Id,ProviderName,LevelDisplayName,@{n='msg';e={$_.Message -replace '\\s+',' ' | ForEach-Object { $_.Substring(0,[math]::Min(140,$_.Length)) }}} | ConvertTo-Json -Compress } catch { '[]' }"@,
        reading_script(Reading::LastUpdate) == "try { (Get-HotFix | Sort-Object InstalledOn -Descending | Select-Object -First 1).InstalledOn.ToString('yyyy-MM-dd') | ConvertTo-Json -Compress } catch { 'null' }"@,
        reading_script(Reading::Defender) == "try { Get-MpComputerStatus | Select-Object AntivirusEnabled,RealTimeProtectionEnabled,@{n='sigAgeDays';e={$_.AntivirusSignatureAge}} | ConvertTo-Json -Compress } catch { 'null' }"@,
        reading_script(Reading::Firewall) == "Get-NetFirewallProfile | Select-Object Name,Enabled | ConvertTo-Json -Compress"@,
        reading_script(Reading::Licensed) == "try { (Get-CimInstance SoftwareLicensingProduct -Filter \"Name like 'Windows%25' AND PartialProductKey is not null\" | Select-Object -First 1).LicenseStatus | ConvertTo-Json -Compress } catch { 'null' }"@,
        reading_script(Reading::Printers) == "Get-Printer | Select-Object -First 20 Name,@{n='status';e={$_.PrinterStatus.ToString()}} | ConvertTo-Json -Compress"@,
        reading_script(Reading::DiskLatency) == "try { [int]((Get-CimInstance Win32_PerfFormattedData_PerfDisk_PhysicalDisk | Where-Object Name -eq '_Total').AvgDisksecPerTransfer * 1000) | ConvertTo-Json -Compress } catch { 'null' }"@,
{
}

/// A reading that came is the value that the script wrote, whatever white space stands around it.
pub proof fn law_reading_is_the_value_that_was_written(
    output: Vec<u8>,
    before: Seq<char>,
    inner: Seq<char>,
    after: Seq<char>,
)
    requires
        forall|i: int| 0 <= i < before.len() ==> is_white_space(#[trigger] before[i]),
        forall|i: int| 0 <= i < after.len() ==> is_white_space(#[trigger] after[i]),
        inner.len() > 0 ==> !is_white_space(inner[0]) && !is_white_space(inner.last()),
        lossy_text(output@) == before + inner + after,
    ensures
        json_of_bytes(encode_utf8(inner)) matches Some(value) ==> reading_in(Some(output)) == value,
        json_of_bytes(encode_utf8(inner)) is None ==> reading_in(Some(output)) == JsonView::Null,
        reading_in(None) == JsonView::Null,
{
    law_white_space_around_is_trimmed(before, inner, after);
}

} // verus!
