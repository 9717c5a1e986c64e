//! The text reports: field lines, tables and byte counts.
//!
//! A report is a text of lines. What `colored` and `comfy_table` write is
//! not fixed by the snapshot alone (see `paint` and `table`), so the
//! contract of a report says which texts are reports of a snapshot: every
//! part is pinned down but for the colour codes, which are there or not, and
//! the drawing of the table, which is named.

use vstd::prelude::*;
use vstd::string::StringExecFns;
use vstd::arithmetic::div_mod::lemma_div_denominator;
use crate::models::{
    text_of,
    views,
    ComponentInfo,
    ComponentView,
    CoreView,
    CpuInfo,
    CpuView,
    DiskInfo,
    DiskView,
    MemoryInfo,
    MemoryView,
    NetworkInfo,
    NetworkView,
    ProcessInfo,
    ProcessView,
    SingleCpuInfo,
    SystemInfo,
    SystemView,
};
use crate::numeral::{decimal, decimal_text, div_round, push_two_places, rounded_div, two_places};
use crate::paint::{
    blue,
    blue_style,
    bright_green_bold,
    cyan,
    cyan_style,
    shows,
    title_style,
    yellow,
    yellow_style,
};
use crate::table::{
    cell_texts,
    table_add_row,
    table_header,
    table_is_plain,
    table_new,
    table_rows,
    table_set_header,
    table_text,
    table_to_string,
};
use crate::binary32::{fixed1, fixed1_text};
use crate::text::{
    chars_of,
    debug_text,
    fitting,
    leading,
    longer_than,
    pad_left,
    pad_right,
    padded_left,
    padded_right,
    quoted,
    utf8_len,
};

verus! {

/// How many times `bytes` can be divided by 1024 before it drops below 1024.
pub open spec fn unit_index(bytes: nat) -> nat
    decreases bytes,
{
    if bytes < 1024 {
        0
    } else {
        1 + unit_index(bytes / 1024)
    }
}

/// The number of bytes in one unit of index `i`: 1024 to the power `i`.
pub open spec fn unit_size(i: nat) -> nat
    decreases i,
{
    if i == 0 {
        1
    } else {
        1024 * unit_size((i - 1) as nat)
    }
}

/// The name of the unit of index `i`; the units end with `EiB`.
pub open spec fn unit_name(i: nat) -> Seq<char> {
    if i == 0 {
        "B"@
    } else if i == 1 {
        "KiB"@
    } else if i == 2 {
        "MiB"@
    } else if i == 3 {
        "GiB"@
    } else if i == 4 {
        "TiB"@
    } else if i == 5 {
        "PiB"@
    } else {
        "EiB"@
    }
}

/// A byte count as text: `0 B` for zero; otherwise the count divided by the
/// largest power of 1024 that does not exceed it, rounded to two decimal
/// places (halfway cases to the even digit), a space and the unit of that
/// power.
pub open spec fn bytes_text(bytes: u64) -> Seq<char> {
    if bytes == 0 {
        "0 B"@
    } else {
        let i = unit_index(bytes as nat);
        two_places(rounded_div(bytes as nat * 100, unit_size(i))) + seq![' '] + unit_name(i)
    }
}

fn unit_label(i: usize) -> (name: &'static str)
    ensures
        name@ == unit_name(i as nat),
{
    match i {
        0 => "B",
        1 => "KiB",
        2 => "MiB",
        3 => "GiB",
        4 => "TiB",
        5 => "PiB",
        _ => "EiB",
    }
}

/// Renders a byte count with a binary unit.
pub fn format_bytes(bytes: u64) -> (out: String)
    ensures
        out@ == bytes_text(bytes),
{
    if bytes == 0 {
        return "0 B".to_string();
    }
    let mut i: usize = 0;
    let mut size: u64 = 1;
    while bytes / size >= 1024
        invariant
            size >= 1,
            size == unit_size(i as nat),
            i <= 64,
            size <= bytes,
            unit_index(bytes as nat) == i + unit_index((bytes / size) as nat),
        decreases bytes / size,
    {
        proof {
            lemma_div_denominator(bytes as int, size as int, 1024);
            assert(bytes >= 1024 * size) by (nonlinear_arith)
                requires
                    bytes / size >= 1024,
                    size >= 1,
            ;
            assert((bytes as int) / (size * 1024) < bytes / size) by (nonlinear_arith)
                requires
                    bytes / size >= 1024,
                    size >= 1,
                    (bytes as int / size as int) / 1024 == (bytes as int) / (size * 1024),
            ;
            assert(i < 64) by {
                lemma_unit_size_grows(i as nat);
            }
        }
        size = size * 1024;
        i = i + 1;
    }
    let hundredths = div_round(bytes as u128 * 100, size as u128);
    let mut out = String::new();
    push_two_places(&mut out, hundredths);
    out.push(' ');
    out.append(unit_label(i));
    out
}

/// The width to which the label of a field is padded.
pub open spec fn label_width() -> nat {
    25
}

/// `line` is the line of a field: the label, padded to the label width and
/// shown in yellow, a space, the value and a line end.
pub open spec fn is_field_line(label: Seq<char>, value: Seq<char>, line: Seq<char>) -> bool {
    exists|shown: Seq<char>|
        #[trigger] shows(yellow_style(), padded_right(label, label_width()), shown) && line
            == shown + seq![' '] + value + seq!['\n']
}

/// `line` is a title line: the title shown bold and bright green, and a line
/// end.
pub open spec fn is_title_line(title: Seq<char>, line: Seq<char>) -> bool {
    exists|shown: Seq<char>|
        #[trigger] shows(title_style(), title, shown) && line == shown + seq!['\n']
}

/// A text closed by a line end.
pub fn closed_line(text: &str) -> (line: String)
    ensures
        line@ == text@ + seq!['\n'],
{
    let mut line = text.to_string();
    line.push('\n');
    assert(line@ =~= text@ + seq!['\n']);
    line
}

/// The line of a field whose label is already padded and shown: the label, a
/// space, the value and a line end.
pub fn labelled_line(label: &str, value: &str) -> (line: String)
    ensures
        line@ == label@ + seq![' '] + value@ + seq!['\n'],
{
    let mut line = label.to_string();
    line.push(' ');
    line.append(value);
    line.push('\n');
    assert(line@ =~= label@ + seq![' '] + value@ + seq!['\n']);
    line
}

/// The line of a field of a report.
pub fn field_line(label: &str, value: &str) -> (line: String)
    ensures
        is_field_line(label@, value@, line@),
{
    let padded = pad_right(label, 25);
    let shown = yellow(padded.as_str());
    proof {
        assert(shows(yellow_style(), padded_right(label@, label_width()), shown@));
    }
    labelled_line(shown.as_str(), value)
}

/// The title line of a report.
pub fn title_line(title: &str) -> (line: String)
    ensures
        is_title_line(title@, line@),
{
    let shown = bright_green_bold(title);
    proof {
        assert(shows(title_style(), title@, shown@));
    }
    closed_line(shown.as_str())
}

/// A drawn table under the lines that lead to it, closed by a line end.
pub fn table_section(lead: &str, table: &str) -> (out: String)
    ensures
        out@ == lead@ + table@ + seq!['\n'],
{
    let mut out = lead.to_string();
    out.append(table);
    out.push('\n');
    out
}

/// The text of a field that the OS may not have reported: empty when absent.
pub open spec fn text_or_empty(field: Option<Seq<char>>) -> Seq<char> {
    match field {
        Some(text) => text,
        None => Seq::<char>::empty(),
    }
}

/// `out` is the report of the host's identification: four field lines, for
/// the system name, the kernel version, the OS version and the host name,
/// each value as std's `Debug` writes it, an absent one as the empty text.
pub open spec fn is_system_report(info: SystemView, out: Seq<char>) -> bool {
    exists|name: Seq<char>, kernel: Seq<char>, os: Seq<char>, host: Seq<char>|
        {
            &&& #[trigger] is_field_line(
                "System name:"@,
                debug_text(text_or_empty(info.name)),
                name,
            )
            &&& #[trigger] is_field_line(
                "Kernel version:"@,
                debug_text(text_or_empty(info.kernel_version)),
                kernel,
            )
            &&& #[trigger] is_field_line(
                "OS version:"@,
                debug_text(text_or_empty(info.os_version)),
                os,
            )
            &&& #[trigger] is_field_line(
                "Host name:"@,
                debug_text(text_or_empty(info.host_name)),
                host,
            )
            &&& out == name + kernel + os + host
        }
}

fn quoted_or_empty(field: &Option<String>) -> (out: String)
    ensures
        out@ == debug_text(text_or_empty(text_of(*field))),
{
    match field {
        Some(text) => quoted(text.as_str()),
        None => {
            let empty = String::new();
            quoted(empty.as_str())
        },
    }
}

/// Renders the host's identification.
pub fn format_system_info(info: &SystemInfo) -> (out: String)
    ensures
        is_system_report(info@, out@),
{
    let name = field_line("System name:", quoted_or_empty(&info.name).as_str());
    let kernel = field_line("Kernel version:", quoted_or_empty(&info.kernel_version).as_str());
    let os = field_line("OS version:", quoted_or_empty(&info.os_version).as_str());
    let host = field_line("Host name:", quoted_or_empty(&info.host_name).as_str());
    let mut out = String::new();
    out.append(name.as_str());
    out.append(kernel.as_str());
    out.append(os.as_str());
    out.append(host.as_str());
    proof {
        assert(out@ =~= name@ + kernel@ + os@ + host@);
    }
    out
}

/// `out` is the memory report: four field lines, for total and used memory
/// and total and used swap, each amount as `bytes_text` writes it.
pub open spec fn is_memory_report(info: MemoryView, out: Seq<char>) -> bool {
    exists|total: Seq<char>, used: Seq<char>, swap: Seq<char>, used_swap: Seq<char>|
        {
            &&& #[trigger] is_field_line("Total memory:"@, bytes_text(info.total_memory), total)
            &&& #[trigger] is_field_line("Used memory:"@, bytes_text(info.used_memory), used)
            &&& #[trigger] is_field_line("Total swap:"@, bytes_text(info.total_swap), swap)
            &&& #[trigger] is_field_line("Used swap:"@, bytes_text(info.used_swap), used_swap)
            &&& out == total + used + swap + used_swap
        }
}

/// Renders the memory snapshot.
pub fn format_memory_info(info: &MemoryInfo) -> (out: String)
    ensures
        is_memory_report(info@, out@),
{
    let total = field_line("Total memory:", format_bytes(info.total_memory).as_str());
    let used = field_line("Used memory:", format_bytes(info.used_memory).as_str());
    let swap = field_line("Total swap:", format_bytes(info.total_swap).as_str());
    let used_swap = field_line("Used swap:", format_bytes(info.used_swap).as_str());
    let mut out = String::new();
    out.append(total.as_str());
    out.append(used.as_str());
    out.append(swap.as_str());
    out.append(used_swap.as_str());
    proof {
        assert(is_field_line("Total memory:"@, bytes_text(info@.total_memory), total@));
        assert(is_field_line("Used memory:"@, bytes_text(info@.used_memory), used@));
        assert(is_field_line("Total swap:"@, bytes_text(info@.total_swap), swap@));
        assert(is_field_line("Used swap:"@, bytes_text(info@.used_swap), used_swap@));
        assert(out@ =~= total@ + used@ + swap@ + used_swap@);
    }
    out
}

/// The texts of a list of labels.
pub open spec fn label_texts(labels: Seq<&'static str>) -> Seq<Seq<char>> {
    labels.map_values(|label: &'static str| label@)
}

fn header_cells(labels: Vec<&'static str>) -> (cells: Vec<String>)
    ensures
        cell_texts(cells@) == label_texts(labels@),
{
    let mut cells: Vec<String> = Vec::new();
    let mut i: usize = 0;
    while i < labels.len()
        invariant
            i <= labels.len(),
            cells@.len() == i,
            forall|k: int| 0 <= k < i ==> (#[trigger] cells@[k])@ == labels@[k]@,
        decreases labels.len() - i,
    {
        cells.push(labels[i].to_string());
        i = i + 1;
    }
    proof {
        assert(cell_texts(cells@) =~= label_texts(labels@));
    }
    cells
}

/// `out` is a table report: a title line, the drawing of the plain table
/// with the header `header` and the rows `rows`, and a line end.
pub open spec fn is_table_report(
    title: Seq<char>,
    header: Seq<Seq<char>>,
    rows: Seq<Seq<Seq<char>>>,
    out: Seq<char>,
) -> bool {
    exists|line: Seq<char>|
        #[trigger] is_title_line(title, line) && out == line + table_text(Some(header), rows)
            + seq!['\n']
}

/// The header of the table of cores.
pub open spec fn cpu_header() -> Seq<Seq<char>> {
    seq!["ID"@, "Usage %"@, "Vendor"@, "Brand"@]
}

/// The row of a core: its id, its usage with one decimal place, its vendor
/// and its brand.
pub open spec fn cpu_row(cpu: CoreView) -> Seq<Seq<char>> {
    seq![decimal(cpu.id as nat), fixed1_text(cpu.usage), cpu.vendor, cpu.brand]
}

/// The rows of the table of cores.
pub open spec fn cpu_rows(cpus: Seq<CoreView>) -> Seq<Seq<Seq<char>>> {
    cpus.map_values(|cpu: CoreView| cpu_row(cpu))
}

/// `out` is the CPU report: the title line, the field lines of the number of
/// CPUs and of the usage over all of them in percent, and the table of the
/// cores.
pub open spec fn is_cpu_report(info: CpuView, out: Seq<char>) -> bool {
    exists|title: Seq<char>, count: Seq<char>, usage: Seq<char>|
        {
            &&& #[trigger] is_title_line("=> CPUs:"@, title)
            &&& #[trigger] is_field_line("Total CPUs:"@, decimal(info.nb_cpus as nat), count)
            &&& #[trigger] is_field_line(
                "Global usage:"@,
                fixed1_text(info.total_usage) + seq!['%'],
                usage,
            )
            &&& out == title + count + usage + table_text(
                Some(cpu_header()),
                cpu_rows(info.cpus),
            ) + seq!['\n']
        }
}

/// The cells of the row of a core.
pub fn cpu_cells(cpu: &SingleCpuInfo) -> (cells: Vec<String>)
    ensures
        cell_texts(cells@) == cpu_row(cpu@),
{
    let mut cells: Vec<String> = Vec::new();
    cells.push(decimal_text(cpu.id as u128));
    cells.push(fixed1(cpu.usage));
    cells.push(cpu.vendor.clone());
    cells.push(cpu.brand.clone());
    proof {
        assert(cell_texts(cells@) =~= cpu_row(cpu@));
    }
    cells
}

/// Renders the CPU snapshot.
pub fn format_cpu_info(info: &CpuInfo) -> (out: String)
    ensures
        is_cpu_report(info@, out@),
{
    let title = title_line("=> CPUs:");
    let count = field_line("Total CPUs:", decimal_text(info.nb_cpus as u128).as_str());
    let mut percent = fixed1(info.total_usage);
    percent.push('%');
    let usage = field_line("Global usage:", percent.as_str());
    let mut table = table_new();
    table_set_header(&mut table, header_cells(vec!["ID", "Usage %", "Vendor", "Brand"]));
    proof {
        assert(label_texts(seq!["ID", "Usage %", "Vendor", "Brand"]) =~= cpu_header());
    }
    let mut i: usize = 0;
    while i < info.cpus.len()
        invariant
            i <= info.cpus@.len(),
            table_is_plain(table),
            table_header(table) == Some(cpu_header()),
            table_rows(table) =~= cpu_rows(views(info.cpus@).take(i as int)),
        decreases info.cpus@.len() - i,
    {
        table_add_row(&mut table, cpu_cells(&info.cpus[i]));
        i = i + 1;
        proof {
            let cores = views(info.cpus@);
            assert(cores.take(i as int) =~= cores.take(i - 1).push(cores[i - 1]));
        }
    }
    let drawn = table_to_string(&table);
    let mut lead = String::new();
    lead.append(title.as_str());
    lead.append(count.as_str());
    lead.append(usage.as_str());
    let out = table_section(lead.as_str(), drawn.as_str());
    proof {
        assert(views(info.cpus@).take(i as int) =~= views(info.cpus@));
        assert(percent@ =~= fixed1_text(info.total_usage) + seq!['%']);
        assert(is_field_line("Total CPUs:"@, decimal(info@.nb_cpus as nat), count@));
        assert(is_field_line(
            "Global usage:"@,
            fixed1_text(info@.total_usage) + seq!['%'],
            usage@,
        ));
        assert(out@ =~= title@ + count@ + usage@ + table_text(
            Some(cpu_header()),
            cpu_rows(info@.cpus),
        ) + seq!['\n']);
    }
    out
}

/// The header of the table of disks.
pub open spec fn disks_header() -> Seq<Seq<char>> {
    seq!["Name"@, "Kind"@, "FS"@, "Available"@, "Total"@]
}

/// `row` is the row of a disk: its name shown in cyan, its kind in blue, its
/// file system in yellow, and the texts of the available and the total
/// space.
pub open spec fn is_disk_row(disk: DiskView, row: Seq<Seq<char>>) -> bool {
    &&& row.len() == 5
    &&& shows(cyan_style(), disk.name, row[0])
    &&& shows(blue_style(), disk.kind, row[1])
    &&& shows(yellow_style(), disk.file_system, row[2])
    &&& row[3] == bytes_text(disk.available_space)
    &&& row[4] == bytes_text(disk.total_space)
}

/// `out` is the report of the disks: the title line and the table with one
/// row for each disk, in their order.
pub open spec fn is_disks_report(disks: Seq<DiskView>, out: Seq<char>) -> bool {
    exists|rows: Seq<Seq<Seq<char>>>|
        {
            &&& rows.len() == disks.len()
            &&& forall|i: int| 0 <= i < disks.len() ==> is_disk_row(disks[i], #[trigger] rows[i])
            &&& #[trigger] is_table_report("=> Disks:"@, disks_header(), rows, out)
        }
}

fn disk_cells(disk: &DiskInfo) -> (cells: Vec<String>)
    ensures
        is_disk_row(disk@, cell_texts(cells@)),
{
    let mut cells: Vec<String> = Vec::new();
    cells.push(cyan(disk.name.as_str()));
    cells.push(blue(disk.kind.as_str()));
    cells.push(yellow(disk.file_system.as_str()));
    cells.push(format_bytes(disk.available_space));
    cells.push(format_bytes(disk.total_space));
    cells
}

/// Renders the disks.
pub fn format_disks_info(info: &[DiskInfo]) -> (out: String)
    ensures
        is_disks_report(views(info@), out@),
{
    let title = title_line("=> Disks:");
    let mut table = table_new();
    table_set_header(
        &mut table,
        header_cells(vec!["Name", "Kind", "FS", "Available", "Total"]),
    );
    proof {
        assert(label_texts(seq!["Name", "Kind", "FS", "Available", "Total"]) =~= disks_header());
    }
    let mut i: usize = 0;
    while i < info.len()
        invariant
            i <= info@.len(),
            table_is_plain(table),
            table_header(table) == Some(disks_header()),
            table_rows(table).len() == i,
            forall|k: int| 0 <= k < i ==> is_disk_row(info@[k]@, #[trigger] table_rows(table)[k]),
        decreases info@.len() - i,
    {
        table_add_row(&mut table, disk_cells(&info[i]));
        i = i + 1;
    }
    let drawn = table_to_string(&table);
    let out = table_section(title.as_str(), drawn.as_str());
    proof {
        assert(is_table_report("=> Disks:"@, disks_header(), table_rows(table), out@));
    }
    out
}

/// The header of the table of network interfaces.
pub open spec fn network_header() -> Seq<Seq<char>> {
    seq!["Interface"@, "Received"@, "Transmitted"@]
}

/// `row` is the row of an interface: its name shown in cyan, and the texts of
/// the bytes received and transmitted, each shown in yellow.
pub open spec fn is_network_row(net: NetworkView, row: Seq<Seq<char>>) -> bool {
    &&& row.len() == 3
    &&& shows(cyan_style(), net.interface, row[0])
    &&& shows(yellow_style(), bytes_text(net.received), row[1])
    &&& shows(yellow_style(), bytes_text(net.transmitted), row[2])
}

/// `out` is the report of the network interfaces: the title line and the
/// table with one row for each interface, in their order.
pub open spec fn is_network_report(networks: Seq<NetworkView>, out: Seq<char>) -> bool {
    exists|rows: Seq<Seq<Seq<char>>>|
        {
            &&& rows.len() == networks.len()
            &&& forall|i: int|
                0 <= i < networks.len() ==> is_network_row(networks[i], #[trigger] rows[i])
            &&& #[trigger] is_table_report("=> Networks:"@, network_header(), rows, out)
        }
}

fn network_cells(net: &NetworkInfo) -> (cells: Vec<String>)
    ensures
        is_network_row(net@, cell_texts(cells@)),
{
    let mut cells: Vec<String> = Vec::new();
    cells.push(cyan(net.interface.as_str()));
    cells.push(yellow(format_bytes(net.received).as_str()));
    cells.push(yellow(format_bytes(net.transmitted).as_str()));
    cells
}

/// Renders the network interfaces.
pub fn format_network_info(info: &[NetworkInfo]) -> (out: String)
    ensures
        is_network_report(views(info@), out@),
{
    let title = title_line("=> Networks:");
    let mut table = table_new();
    table_set_header(&mut table, header_cells(vec!["Interface", "Received", "Transmitted"]));
    proof {
        assert(label_texts(seq!["Interface", "Received", "Transmitted"]) =~= network_header());
    }
    let mut i: usize = 0;
    while i < info.len()
        invariant
            i <= info@.len(),
            table_is_plain(table),
            table_header(table) == Some(network_header()),
            table_rows(table).len() == i,
            forall|k: int|
                0 <= k < i ==> is_network_row(info@[k]@, #[trigger] table_rows(table)[k]),
        decreases info@.len() - i,
    {
        table_add_row(&mut table, network_cells(&info[i]));
        i = i + 1;
    }
    let drawn = table_to_string(&table);
    let out = table_section(title.as_str(), drawn.as_str());
    proof {
        assert(is_table_report("=> Networks:"@, network_header(), table_rows(table), out@));
    }
    out
}

/// The header of the table of sensors.
pub open spec fn components_header() -> Seq<Seq<char>> {
    seq!["Label"@, "Temp"@, "Max"@]
}

/// A temperature as text: the reading with one decimal place, or `N/A` where
/// there is none, and the unit.
pub open spec fn temperature_text(reading: Option<u32>) -> Seq<char> {
    (match reading {
        Some(bits) => fixed1_text(bits),
        None => "N/A"@,
    }) + seq!['\u{b0}', 'C']
}

/// `row` is the row of a sensor: its label shown in cyan, its temperature and
/// its highest temperature.
pub open spec fn is_component_row(component: ComponentView, row: Seq<Seq<char>>) -> bool {
    &&& row.len() == 3
    &&& shows(cyan_style(), component.label, row[0])
    &&& row[1] == temperature_text(component.temperature)
    &&& row[2] == temperature_text(component.max)
}

/// `out` is the report of the sensors: the title line and the table with one
/// row for each sensor, in their order.
pub open spec fn is_components_report(components: Seq<ComponentView>, out: Seq<char>) -> bool {
    exists|rows: Seq<Seq<Seq<char>>>|
        {
            &&& rows.len() == components.len()
            &&& forall|i: int|
                0 <= i < components.len() ==> is_component_row(components[i], #[trigger] rows[i])
            &&& #[trigger] is_table_report("=> Components:"@, components_header(), rows, out)
        }
}

/// A temperature as a cell shows it.
pub fn format_temperature(reading: Option<u32>) -> (out: String)
    ensures
        out@ == temperature_text(reading),
{
    let mut out = match reading {
        Some(bits) => fixed1(bits),
        None => "N/A".to_string(),
    };
    let ghost number = out@;
    out.push('\u{b0}');
    out.push('C');
    proof {
        assert(out@ =~= number + seq!['\u{b0}', 'C']);
    }
    out
}

fn component_cells(component: &ComponentInfo) -> (cells: Vec<String>)
    ensures
        is_component_row(component@, cell_texts(cells@)),
{
    let mut cells: Vec<String> = Vec::new();
    cells.push(cyan(component.label.as_str()));
    cells.push(format_temperature(component.temperature));
    cells.push(format_temperature(component.max));
    cells
}

/// Renders the sensors.
pub fn format_components_info(info: &[ComponentInfo]) -> (out: String)
    ensures
        is_components_report(views(info@), out@),
{
    let title = title_line("=> Components:");
    let mut table = table_new();
    table_set_header(&mut table, header_cells(vec!["Label", "Temp", "Max"]));
    proof {
        assert(label_texts(seq!["Label", "Temp", "Max"]) =~= components_header());
    }
    let mut i: usize = 0;
    while i < info.len()
        invariant
            i <= info@.len(),
            table_is_plain(table),
            table_header(table) == Some(components_header()),
            table_rows(table).len() == i,
            forall|k: int|
                0 <= k < i ==> is_component_row(info@[k]@, #[trigger] table_rows(table)[k]),
        decreases info@.len() - i,
    {
        table_add_row(&mut table, component_cells(&info[i]));
        i = i + 1;
    }
    let drawn = table_to_string(&table);
    let out = table_section(title.as_str(), drawn.as_str());
    proof {
        assert(is_table_report("=> Components:"@, components_header(), table_rows(table), out@));
    }
    out
}

/// The header of the table of processes.
pub open spec fn processes_header() -> Seq<Seq<char>> {
    seq!["PID"@, "Name"@, "CPU %"@, "Memory"@]
}

/// The longest name, in bytes of UTF-8, that a row shows in full.
pub open spec fn name_limit() -> nat {
    30
}

/// The bytes of UTF-8 that a row keeps of a longer name.
pub open spec fn name_kept() -> nat {
    27
}

/// The name of a process as a row shows it: in full up to 30 bytes of UTF-8;
/// of a longer name the leading characters that fit into 27 bytes, and three
/// dots.
pub open spec fn short_name(name: Seq<char>) -> Seq<char> {
    if utf8_len(name) > name_limit() {
        name.take(fitting(name, name_kept()) as int) + seq!['.', '.', '.']
    } else {
        name
    }
}

/// `row` is the row of a process: its pid shown in cyan, its name cut to
/// length, its CPU usage with one decimal place, put to the right of five
/// columns, and the text of its memory.
pub open spec fn is_process_row(process: ProcessView, row: Seq<Seq<char>>) -> bool {
    &&& row.len() == 4
    &&& shows(cyan_style(), process.pid, row[0])
    &&& row[1] == short_name(process.name)
    &&& row[2] == padded_left(fixed1_text(process.cpu_usage), 5)
    &&& row[3] == bytes_text(process.memory)
}

/// `out` is the report of the processes: the title line and the table with
/// one row for each process, in their order.
pub open spec fn is_processes_report(processes: Seq<ProcessView>, out: Seq<char>) -> bool {
    exists|rows: Seq<Seq<Seq<char>>>|
        {
            &&& rows.len() == processes.len()
            &&& forall|i: int|
                0 <= i < processes.len() ==> is_process_row(processes[i], #[trigger] rows[i])
            &&& #[trigger] is_table_report("=> Processes:"@, processes_header(), rows, out)
        }
}

/// The name of a process as a row shows it.
pub fn shorten_name(name: &str) -> (out: String)
    ensures
        out@ == short_name(name@),
{
    let chars = chars_of(name);
    if longer_than(&chars, 30) {
        let mut out = leading(&chars, 27);
        let ghost kept = out@;
        out.push('.');
        out.push('.');
        out.push('.');
        proof {
            assert(out@ =~= kept + seq!['.', '.', '.']);
        }
        out
    } else {
        name.to_string()
    }
}

fn process_cells(process: &ProcessInfo) -> (cells: Vec<String>)
    ensures
        is_process_row(process@, cell_texts(cells@)),
{
    let mut cells: Vec<String> = Vec::new();
    cells.push(cyan(process.pid.as_str()));
    cells.push(shorten_name(process.name.as_str()));
    cells.push(pad_left(fixed1(process.cpu_usage).as_str(), 5));
    cells.push(format_bytes(process.memory));
    cells
}

/// Renders the processes.
pub fn format_processes_info(info: &[ProcessInfo]) -> (out: String)
    ensures
        is_processes_report(views(info@), out@),
{
    let title = title_line("=> Processes:");
    let mut table = table_new();
    table_set_header(&mut table, header_cells(vec!["PID", "Name", "CPU %", "Memory"]));
    proof {
        assert(label_texts(seq!["PID", "Name", "CPU %", "Memory"]) =~= processes_header());
    }
    let mut i: usize = 0;
    while i < info.len()
        invariant
            i <= info@.len(),
            table_is_plain(table),
            table_header(table) == Some(processes_header()),
            table_rows(table).len() == i,
            forall|k: int|
                0 <= k < i ==> is_process_row(info@[k]@, #[trigger] table_rows(table)[k]),
        decreases info@.len() - i,
    {
        table_add_row(&mut table, process_cells(&info[i]));
        i = i + 1;
    }
    let drawn = table_to_string(&table);
    let out = table_section(title.as_str(), drawn.as_str());
    proof {
        assert(is_table_report("=> Processes:"@, processes_header(), table_rows(table), out@));
    }
    out
}

proof fn lemma_unit_size_grows(i: nat)
    ensures
        unit_size(i) >= 1,
        i >= 7 ==> unit_size(i) > u64::MAX,
    decreases i,
{
    if i > 0 {
        lemma_unit_size_grows((i - 1) as nat);
    }
    if i >= 7 {
        reveal_with_fuel(unit_size, 8);
        if i == 7 {
            assert(unit_size(7) == 1024 * 1024 * 1024 * 1024 * 1024 * 1024 * 1024);
        }
    }
}

/// The unit of a count is the largest that does not exceed it: a count of at
/// least one byte lies between the size of its unit and 1024 times that
/// size, so that the scaled value is at least 1 and below 1024.
pub proof fn lemma_unit_fits(bytes: nat)
    requires
        bytes >= 1,
    ensures
        unit_size(unit_index(bytes)) <= bytes < 1024 * unit_size(unit_index(bytes)),
    decreases bytes,
{
    if bytes >= 1024 {
        let rest = bytes / 1024;
        lemma_unit_fits(rest);
        let size = unit_size(unit_index(rest));
        assert(unit_size(unit_index(bytes)) == 1024 * size);
        assert(bytes >= 1024 * rest && bytes < 1024 * rest + 1024) by {
            vstd::arithmetic::div_mod::lemma_fundamental_div_mod(bytes as int, 1024);
        }
        assert(1024 * size <= 1024 * rest);
        assert(1024 * rest + 1024 <= 1024 * (1024 * size)) by {
            assert(rest + 1 <= 1024 * size);
        }
    }
}

/// Every count that fits 64 bits has one of the seven units from `B` to
/// `EiB`.
pub proof fn lemma_unit_index_at_most_six(bytes: u64)
    ensures
        unit_index(bytes as nat) <= 6,
{
    if bytes >= 1 {
        lemma_unit_fits(bytes as nat);
        lemma_unit_size_grows(unit_index(bytes as nat));
    }
}

} // verus!
