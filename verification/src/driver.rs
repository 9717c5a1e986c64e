//! One cycle after another: what follows a cycle, and the summary that a run
//! without a view shows.

use vstd::prelude::*;
use vstd::string::StringExecFns;
use crate::args::Cli;
use crate::binary32::{fixed1, fixed1_text};
use crate::fmt::{
    bytes_text,
    closed_line,
    field_line,
    format_bytes,
    format_system_info,
    is_field_line,
    is_system_report,
};
use crate::models::{MemoryInfo, MemoryView, SystemInfo, SystemView};
use crate::numeral::{decimal, decimal_text};
use crate::paint::{banner_style, bright_cyan_bold, shows};

verus! {

/// What follows a cycle of collecting, rendering and emitting.
#[derive(Copy, Clone, Debug, PartialEq, Eq)]
pub enum NextStep {
    /// The run ends.
    Stop,
    /// The run sleeps for `seconds`, clears the screen if `clear_screen` is
    /// set, and goes through the next cycle.
    Repeat { seconds: u64, clear_screen: bool },
}

/// The escape codes that clear the screen and put the cursor in its first
/// place.
pub const CLEAR_SCREEN: &'static str = "\x1B[2J\x1B[1;1H";

/// What follows a cycle: a run without a watch interval stops after its one
/// cycle; a watching run repeats after its interval for ever, and clears the
/// screen between two cycles where it prints text to the terminal, that is
/// when it neither emits JSON nor writes to a file.
pub fn after_cycle(cli: &Cli) -> (step: NextStep)
    ensures
        cli.watch is None ==> step == NextStep::Stop,
        cli.watch matches Some(seconds) ==> step == (NextStep::Repeat {
            seconds,
            clear_screen: !cli.json && cli.output is None,
        }),
{
    match cli.watch {
        Some(seconds) => {
            let to_file = match &cli.output {
                Some(_) => true,
                None => false,
            };
            NextStep::Repeat { seconds, clear_screen: !cli.json && !to_file }
        },
        None => NextStep::Stop,
    }
}

/// `line` is a banner line: the banner shown bold and bright cyan, and a
/// line end.
pub open spec fn is_banner_line(banner: Seq<char>, line: Seq<char>) -> bool {
    exists|shown: Seq<char>|
        #[trigger] shows(banner_style(), banner, shown) && line == shown + seq!['\n']
}

/// `out` is the summary: under the banner of the system its report; under
/// the banner of the memory, after an empty line, the field lines of total
/// and used memory; and under the banner of the CPU, after an empty line,
/// the field lines of the number of CPUs and of their usage in percent.
pub open spec fn is_summary(
    system: SystemView,
    memory: MemoryView,
    nb_cpus: usize,
    total_usage: u32,
    out: Seq<char>,
) -> bool {
    exists|parts: Seq<Seq<char>>|
        {
            &&& parts.len() == 8
            &&& is_banner_line("--- System Summary ---"@, #[trigger] parts[0])
            &&& is_system_report(system, parts[1])
            &&& is_banner_line("--- Memory Summary ---"@, parts[2])
            &&& is_field_line("Total memory:"@, bytes_text(memory.total_memory), parts[3])
            &&& is_field_line("Used memory:"@, bytes_text(memory.used_memory), parts[4])
            &&& is_banner_line("--- CPU Summary ---"@, parts[5])
            &&& is_field_line("NB CPUs:"@, decimal(nb_cpus as nat), parts[6])
            &&& is_field_line(
                "Total CPU usage:"@,
                fixed1_text(total_usage) + seq!['%'],
                parts[7],
            )
            &&& out == parts[0] + parts[1] + seq!['\n'] + parts[2] + parts[3] + parts[4] + seq![
                '\n',
            ] + parts[5] + parts[6] + parts[7]
        }
}

/// The banner line of a part of the summary.
pub fn banner_line(banner: &str) -> (line: String)
    ensures
        is_banner_line(banner@, line@),
{
    let shown = bright_cyan_bold(banner);
    proof {
        assert(shows(banner_style(), banner@, shown@));
    }
    closed_line(shown.as_str())
}

/// Renders the summary of system, memory and CPU.
pub fn format_summary(
    system: &SystemInfo,
    memory: &MemoryInfo,
    nb_cpus: usize,
    total_usage: u32,
) -> (out: String)
    ensures
        is_summary(system@, memory@, nb_cpus, total_usage, out@),
{
    let system_banner = banner_line("--- System Summary ---");
    let system_report = format_system_info(system);
    let memory_banner = banner_line("--- Memory Summary ---");
    let total = field_line("Total memory:", format_bytes(memory.total_memory).as_str());
    let used = field_line("Used memory:", format_bytes(memory.used_memory).as_str());
    let cpu_banner = banner_line("--- CPU Summary ---");
    let count = field_line("NB CPUs:", decimal_text(nb_cpus as u128).as_str());
    let mut percent = fixed1(total_usage);
    percent.push('%');
    proof {
        assert(percent@ =~= fixed1_text(total_usage) + seq!['%']);
    }
    let usage = field_line("Total CPU usage:", percent.as_str());
    let mut out = String::new();
    out.append(system_banner.as_str());
    out.append(system_report.as_str());
    out.push('\n');
    out.append(memory_banner.as_str());
    out.append(total.as_str());
    out.append(used.as_str());
    out.push('\n');
    out.append(cpu_banner.as_str());
    out.append(count.as_str());
    out.append(usage.as_str());
    proof {
        let parts = seq![
            system_banner@,
            system_report@,
            memory_banner@,
            total@,
            used@,
            cpu_banner@,
            count@,
            usage@,
        ];
        assert(parts[0] == system_banner@);
        assert(out@ =~= parts[0] + parts[1] + seq!['\n'] + parts[2] + parts[3] + parts[4] + seq![
            '\n',
        ] + parts[5] + parts[6] + parts[7]);
    }
    out
}

} // verus!
