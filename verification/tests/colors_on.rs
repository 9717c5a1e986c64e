use colored::control::set_override;
use sysinfo_cli::driver::{banner_line, format_summary};
use sysinfo_cli::fmt::{
    field_line, format_components_info, format_disks_info, format_network_info,
    format_processes_info, title_line,
};
use sysinfo_cli::models::{
    ComponentInfo, DiskInfo, MemoryInfo, NetworkInfo, ProcessInfo, SystemInfo,
};

#[test]
fn a_label_is_padded_inside_its_yellow() {
    set_override(true);
    assert_eq!(
        field_line("Total memory:", "1.00 MiB"),
        "\u{1b}[33mTotal memory:            \u{1b}[0m 1.00 MiB\n"
    );
}

#[test]
fn a_long_label_is_not_cut() {
    set_override(true);
    assert_eq!(
        field_line("A label of more than 25 characters", "x"),
        "\u{1b}[33mA label of more than 25 characters\u{1b}[0m x\n"
    );
}

#[test]
fn a_title_is_bold_bright_green() {
    set_override(true);
    assert_eq!(title_line("=> Disks:"), "\u{1b}[1;92m=> Disks:\u{1b}[0m\n");
}

#[test]
fn a_banner_is_bold_bright_cyan() {
    set_override(true);
    assert_eq!(
        banner_line("--- CPU Summary ---"),
        "\u{1b}[1;96m--- CPU Summary ---\u{1b}[0m\n"
    );
}

#[test]
fn a_style_goes_on_behind_a_reset_in_the_text() {
    set_override(true);
    assert_eq!(
        title_line("a\u{1b}[0mb"),
        "\u{1b}[1;92ma\u{1b}[0m\u{1b}[1;92mb\u{1b}[0m\n"
    );
}

#[test]
fn the_cells_of_a_disk_have_their_colours() {
    set_override(true);
    let info = vec![DiskInfo {
        name: "TestDisk".to_string(),
        kind: "SSD".to_string(),
        file_system: "ext4".to_string(),
        available_space: 100 * 1024,
        total_space: 200 * 1024,
    }];
    let output = format_disks_info(&info);
    assert!(output.starts_with("\u{1b}[1;92m=> Disks:\u{1b}[0m\n"));
    assert!(output.contains("\u{1b}[36mTestDisk\u{1b}[0m"));
    assert!(output.contains("\u{1b}[34mSSD\u{1b}[0m"));
    assert!(output.contains("\u{1b}[33mext4\u{1b}[0m"));
    assert!(output.contains(" 100.00 KiB "));
    assert!(output.contains(" 200.00 KiB "));
}

#[test]
fn the_cells_of_an_interface_have_their_colours() {
    set_override(true);
    let info = vec![NetworkInfo { interface: "eth0".to_string(), received: 1000, transmitted: 2000 }];
    let output = format_network_info(&info);
    assert!(output.contains("\u{1b}[36meth0\u{1b}[0m"));
    assert!(output.contains("\u{1b}[33m1000.00 B\u{1b}[0m"));
    assert!(output.contains("\u{1b}[33m1.95 KiB\u{1b}[0m"));
}

#[test]
fn the_label_of_a_sensor_and_the_pid_of_a_process_are_cyan() {
    set_override(true);
    let sensors = vec![ComponentInfo { label: "core".to_string(), temperature: None, max: None }];
    assert!(format_components_info(&sensors).contains("\u{1b}[36mcore\u{1b}[0m"));
    let processes = vec![ProcessInfo {
        pid: "123".to_string(),
        name: "init".to_string(),
        cpu_usage: 0,
        memory: 0,
    }];
    assert!(format_processes_info(&processes).contains("\u{1b}[36m123\u{1b}[0m"));
}

#[test]
fn the_summary_in_colour() {
    set_override(true);
    let system = SystemInfo { name: None, kernel_version: None, os_version: None, host_name: None };
    let memory = MemoryInfo { total_memory: 2048, used_memory: 1024, total_swap: 0, used_swap: 0 };
    let output = format_summary(&system, &memory, 8, 12.5f32.to_bits());
    assert!(output.starts_with("\u{1b}[1;96m--- System Summary ---\u{1b}[0m\n\u{1b}[33mSystem name:"));
    assert!(output.contains("\n\n\u{1b}[1;96m--- Memory Summary ---\u{1b}[0m\n"));
    assert!(output.ends_with("\u{1b}[33mTotal CPU usage:         \u{1b}[0m 12.5%\n"));
}
