//! The regular report on the machine.

use vstd::prelude::*;
use crate::command::{borrowed, kept_text, Platform};
use crate::disks::{collect_disks, disks_view};
use crate::inventory::{
    collect_processes_cpu, collect_services, first_iface, iface_view, memory_percent,
    processes_cpu_view, services_view, used_percent, written_json, GIBIBYTE,
};
use crate::json::{push_field, Json, JsonView};
use crate::processes::{collect_processes, is_processes_report};

verus! {

/// What the host knows of the machine.
#[derive(Debug)]
pub struct Machine {
    pub hostname: String,
    pub os: String,
    /// The version of the system, where it is known.
    pub os_version: Option<String>,
    /// For how many seconds the machine has been up.
    pub uptime: u64,
    /// The number of processors.
    pub cores: usize,
    /// The brand of the first processor, where there is one.
    pub brand: Option<String>,
    /// The bytes of memory.
    pub total_memory: u64,
    /// The bytes of memory that are in use.
    pub used_memory: u64,
}

/// What the agent collected.
#[derive(Debug)]
pub struct Collected {
    pub mac: String,
    pub ip: String,
    pub disks: Json,
    pub services: Json,
    pub processes: Json,
    pub processes_cpu: Json,
}

/// The mathematical value of a `Collected`.
pub struct CollectedView {
    pub mac: Seq<char>,
    pub ip: Seq<char>,
    pub disks: JsonView,
    pub services: JsonView,
    pub processes: JsonView,
    pub processes_cpu: JsonView,
}

impl DeepView for Collected {
    type V = CollectedView;

    open spec fn deep_view(&self) -> CollectedView {
        CollectedView {
            mac: self.mac@,
            ip: self.ip@,
            disks: self.disks@,
            services: self.services@,
            processes: self.processes@,
            processes_cpu: self.processes_cpu@,
        }
    }
}

/// What the programs wrote that the host ran: nothing for one that could not be run.
#[derive(Debug)]
pub struct SysinfoOutputs {
    pub disks: Option<Vec<u8>>,
    pub ifaces: Option<Vec<u8>>,
    pub services: Option<Vec<u8>>,
    pub processes: Option<Vec<u8>>,
    pub processes_cpu: Option<Vec<u8>>,
}

/// The text, empty in the place of none.
pub open spec fn or_empty(text: Option<String>) -> Seq<char> {
    match text {
        Some(chars) => chars@,
        None => Seq::empty(),
    }
}

/// A number of 64 bits, read as a signed one.
pub open spec fn signed_view(n: u64) -> JsonView {
    if n <= i64::MAX {
        JsonView::Unsigned(n)
    } else {
        JsonView::Negative((n - 0x1_0000_0000_0000_0000) as i64)
    }
}

/// The report on the machine.
pub open spec fn sysinfo_view(machine: Machine, collected: CollectedView) -> JsonView {
    JsonView::Object(
        seq![
            (
                "sistema"@,
                JsonView::Object(
                    seq![
                        ("hostname"@, JsonView::Text(machine.hostname@)),
                        ("os"@, JsonView::Text(machine.os@)),
                        ("osVersion"@, JsonView::Text(or_empty(machine.os_version))),
                        ("uptimeSec"@, signed_view(machine.uptime)),
                    ],
                ),
            ),
            (
                "hardware"@,
                JsonView::Object(
                    seq![
                        (
                            "cpu"@,
                            JsonView::Object(
                                seq![
                                    ("cores"@, JsonView::Unsigned(machine.cores as u64)),
                                    ("brand"@, JsonView::Text(or_empty(machine.brand))),
                                ],
                            ),
                        ),
                        (
                            "mem"@,
                            JsonView::Object(
                                seq![
                                    (
                                        "totalGB"@,
                                        JsonView::Unsigned(machine.total_memory / GIBIBYTE),
                                    ),
                                    (
                                        "usedPct"@,
                                        JsonView::Unsigned(
                                            used_percent(
                                                machine.used_memory,
                                                machine.total_memory,
                                            ) as u64,
                                        ),
                                    ),
                                ],
                            ),
                        ),
                        ("disks"@, collected.disks),
                    ],
                ),
            ),
            (
                "rede"@,
                JsonView::Object(
                    seq![
                        ("mac"@, JsonView::Text(collected.mac)),
                        ("ip"@, JsonView::Text(collected.ip)),
                    ],
                ),
            ),
            (
                "software"@,
                JsonView::Object(
                    seq![
                        ("services"@, collected.services),
                        ("processes"@, collected.processes),
                        ("processesCpu"@, collected.processes_cpu),
                    ],
                ),
            ),
        ],
    )
}

/// A number of 64 bits, read as a signed one.
fn signed(n: u64) -> (json: Json)
    ensures
        json@ == signed_view(n),
{
    if n <= i64::MAX as u64 {
        Json::Unsigned(n)
    } else {
        let below: u64 = u64::MAX - n;
        Json::Negative(-1 - (below as i64))
    }
}

/// The text, empty in the place of none.
fn text_or_empty(text: Option<String>) -> (json: Json)
    ensures
        json@ == JsonView::Text(or_empty(text)),
{
    match text {
        Some(chars) => Json::Text(chars),
        None => Json::Text(String::new()),
    }
}

/// The report on the machine, out of what was collected.
pub fn report_sysinfo(machine: Machine, collected: Collected) -> (report: Json)
    ensures
        report@ == sysinfo_view(machine, collected.deep_view()),
{
    let ghost want = sysinfo_view(machine, collected.deep_view());
    let percent: u32 = memory_percent(machine.used_memory, machine.total_memory);
    let mut system: Vec<(String, Json)> = Vec::new();
    push_field(&mut system, "hostname", Json::Text(machine.hostname));
    push_field(&mut system, "os", Json::Text(machine.os));
    push_field(&mut system, "osVersion", text_or_empty(machine.os_version));
    push_field(&mut system, "uptimeSec", signed(machine.uptime));
    let mut cpu: Vec<(String, Json)> = Vec::new();
    push_field(&mut cpu, "cores", Json::Unsigned(machine.cores as u64));
    push_field(&mut cpu, "brand", text_or_empty(machine.brand));
    let mut mem: Vec<(String, Json)> = Vec::new();
    push_field(&mut mem, "totalGB", Json::Unsigned(machine.total_memory / GIBIBYTE));
    push_field(&mut mem, "usedPct", Json::Unsigned(percent as u64));
    assert(system.deep_view() =~= want->Object_0[0].1->Object_0);
    assert(cpu.deep_view() =~= want->Object_0[1].1->Object_0[0].1->Object_0);
    assert(mem.deep_view() =~= want->Object_0[1].1->Object_0[1].1->Object_0);
    let mut hardware: Vec<(String, Json)> = Vec::new();
    push_field(&mut hardware, "cpu", Json::object(cpu));
    push_field(&mut hardware, "mem", Json::object(mem));
    push_field(&mut hardware, "disks", collected.disks);
    let mut net: Vec<(String, Json)> = Vec::new();
    push_field(&mut net, "mac", Json::Text(collected.mac));
    push_field(&mut net, "ip", Json::Text(collected.ip));
    let mut software: Vec<(String, Json)> = Vec::new();
    push_field(&mut software, "services", collected.services);
    push_field(&mut software, "processes", collected.processes);
    push_field(&mut software, "processesCpu", collected.processes_cpu);
    assert(hardware.deep_view() =~= want->Object_0[1].1->Object_0);
    assert(net.deep_view() =~= want->Object_0[2].1->Object_0);
    assert(software.deep_view() =~= want->Object_0[3].1->Object_0);
    let mut fields: Vec<(String, Json)> = Vec::new();
    push_field(&mut fields, "sistema", Json::object(system));
    push_field(&mut fields, "hardware", Json::object(hardware));
    push_field(&mut fields, "rede", Json::object(net));
    push_field(&mut fields, "software", Json::object(software));
    assert(fields.deep_view() =~= want->Object_0);
    Json::object(fields)
}

/// The report on the machine, with this report on its processes: nothing where the memory of a
/// process cannot be counted.
pub open spec fn sysinfo_with(
    platform: Platform,
    machine: Machine,
    outputs: SysinfoOutputs,
    processes: Option<JsonView>,
) -> Option<JsonView> {
    match processes {
        Some(processes) => Some(
            sysinfo_view(
                machine,
                CollectedView {
                    mac: iface_view(platform, kept_text(outputs.ifaces)).0,
                    ip: iface_view(platform, kept_text(outputs.ifaces)).1,
                    disks: disks_view(platform, kept_text(outputs.disks)),
                    services: services_view(platform, written_json(kept_text(outputs.services))),
                    processes,
                    processes_cpu: processes_cpu_view(
                        platform,
                        written_json(kept_text(outputs.processes_cpu)),
                    ),
                },
            ),
        ),
        None => None,
    }
}

/// The report on the machine, out of what the programs wrote. Which of two processes with the same
/// memory is named first is left open.
pub fn collect_sysinfo(platform: Platform, machine: Machine, outputs: &SysinfoOutputs) -> (report:
    Option<Json>)
    ensures
        exists|processes: Option<JsonView>| #[trigger]
            is_processes_report(platform, kept_text(outputs.processes), processes)
                && report.deep_view() == sysinfo_with(platform, machine, *outputs, processes),
{
    let (mac, ip) = first_iface(platform, borrowed(&outputs.ifaces));
    let disks = collect_disks(platform, borrowed(&outputs.disks));
    let services = collect_services(platform, borrowed(&outputs.services));
    let processes = collect_processes(platform, borrowed(&outputs.processes));
    let processes_cpu = collect_processes_cpu(platform, borrowed(&outputs.processes_cpu));
    assert(is_processes_report(platform, kept_text(outputs.processes), processes.deep_view()));
    match processes {
        Some(processes) => Some(
            report_sysinfo(
                machine,
                Collected { mac, ip, disks, services, processes, processes_cpu },
            ),
        ),
        None => None,
    }
}

/// Everything that is known of the machine stands in its place in the report.
pub proof fn law_everything_has_its_place(machine: Machine, collected: CollectedView)
    ensures
        ({
            let fields = sysinfo_view(machine, collected)->Object_0;
            let system = fields[0].1->Object_0;
            let hardware = fields[1].1->Object_0;
            let cpu = hardware[0].1->Object_0;
            let mem = hardware[1].1->Object_0;
            let net = fields[2].1->Object_0;
            let software = fields[3].1->Object_0;
            &&& sysinfo_view(machine, collected) is Object && fields.len() == 4
            &&& fields[0].0 == "sistema"@ && fields[0].1 is Object && system.len() == 4
            &&& system[0] == ("hostname"@, JsonView::Text(machine.hostname@))
            &&& system[1] == ("os"@, JsonView::Text(machine.os@))
            &&& system[2].0 == "osVersion"@
            &&& machine.os_version is Some ==> system[2].1 == JsonView::Text(
                machine.os_version->0@,
            )
            &&& machine.os_version is None ==> system[2].1 == JsonView::Text(Seq::empty())
            &&& system[3].0 == "uptimeSec"@
            &&& machine.uptime <= 0x7fff_ffff_ffff_ffff ==> system[3].1 == JsonView::Unsigned(
                machine.uptime,
            )
            &&& machine.uptime > 0x7fff_ffff_ffff_ffff ==> system[3].1 is Negative
                && system[3].1->Negative_0 + 0x1_0000_0000_0000_0000 == machine.uptime
            &&& fields[1].0 == "hardware"@ && fields[1].1 is Object && hardware.len() == 3
            &&& hardware[0].0 == "cpu"@ && hardware[0].1 is Object && cpu.len() == 2
            &&& cpu[0] == ("cores"@, JsonView::Unsigned(machine.cores as u64))
            &&& cpu[1].0 == "brand"@
            &&& machine.brand is Some ==> cpu[1].1 == JsonView::Text(machine.brand->0@)
            &&& machine.brand is None ==> cpu[1].1 == JsonView::Text(Seq::empty())
            &&& hardware[1].0 == "mem"@ && hardware[1].1 is Object && mem.len() == 2
            &&& mem[0] == ("totalGB"@, JsonView::Unsigned(machine.total_memory / 1073741824))
            &&& mem[1] == (
                "usedPct"@,
                JsonView::Unsigned(used_percent(machine.used_memory, machine.total_memory) as u64),
            )
            &&& hardware[2] == ("disks"@, collected.disks)
            &&& fields[2].0 == "rede"@ && fields[2].1 is Object && net.len() == 2
            &&& net[0] == ("mac"@, JsonView::Text(collected.mac))
            &&& net[1] == ("ip"@, JsonView::Text(collected.ip))
            &&& fields[3].0 == "software"@ && fields[3].1 is Object && software.len() == 3
            &&& software[0] == ("services"@, collected.services)
            &&& software[1] == ("processes"@, collected.processes)
            &&& software[2] == ("processesCpu"@, collected.processes_cpu)
        }),
{
}

/// Each part of the report is what its own program wrote.
pub proof fn law_every_part_is_of_its_program(
    platform: Platform,
    machine: Machine,
    outputs: SysinfoOutputs,
    processes: JsonView,
)
    ensures
        ({
            let report = sysinfo_with(platform, machine, outputs, Some(processes));
            let fields = report->0->Object_0;
            let hardware = fields[1].1->Object_0;
            let net = fields[2].1->Object_0;
            let software = fields[3].1->Object_0;
            &&& report is Some
            &&& hardware[2].1 == disks_view(platform, kept_text(outputs.disks))
            &&& net[0].1 == JsonView::Text(iface_view(platform, kept_text(outputs.ifaces)).0)
            &&& net[1].1 == JsonView::Text(iface_view(platform, kept_text(outputs.ifaces)).1)
            &&& software[0].1 == services_view(platform, written_json(kept_text(outputs.services)))
            &&& software[1].1 == processes
            &&& software[2].1 == processes_cpu_view(
                platform,
                written_json(kept_text(outputs.processes_cpu)),
            )
        }),
        sysinfo_with(platform, machine, outputs, None) is None,
{
}

} // verus!
