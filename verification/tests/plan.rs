use sysinfo_cli::args::{Cli, Commands, SortBy};
use sysinfo_cli::collector::{get_cpu_info, init_system, CoreSample, RefreshPlan, Settle};
use sysinfo_cli::driver::{after_cycle, NextStep, CLEAR_SCREEN};
use sysinfo_cli::models::SingleCpuInfo;

fn plan(cpu_usage: bool, ram: bool, swap: bool, processes: bool, settle: Settle) -> RefreshPlan {
    RefreshPlan { cpu_usage, ram, swap, processes, settle }
}

#[test]
fn the_system_view_refreshes_nothing() {
    assert_eq!(
        init_system(&Some(Commands::System)),
        plan(false, false, false, false, Settle::Nothing)
    );
}

#[test]
fn the_cpu_view_samples_usage_twice() {
    assert_eq!(init_system(&Some(Commands::Cpu)), plan(true, false, false, false, Settle::CpuUsage));
}

#[test]
fn the_memory_view_loads_ram_and_swap() {
    assert_eq!(init_system(&Some(Commands::Memory)), plan(false, true, true, false, Settle::Nothing));
}

#[test]
fn the_process_view_samples_processes_twice() {
    let command = Commands::Processes { filter: None, limit: Some(3), sort: SortBy::Name };
    assert_eq!(init_system(&Some(command)), plan(true, false, false, true, Settle::Processes));
}

#[test]
fn the_views_with_lists_of_their_own_refresh_nothing() {
    for command in [Commands::Disks, Commands::Network, Commands::Components] {
        assert_eq!(
            init_system(&Some(command)),
            plan(false, false, false, false, Settle::Nothing)
        );
    }
}

#[test]
fn a_second_sample_comes_only_with_what_was_loaded() {
    let views = [
        None,
        Some(Commands::System),
        Some(Commands::Cpu),
        Some(Commands::Memory),
        Some(Commands::Disks),
        Some(Commands::Network),
        Some(Commands::Components),
        Some(Commands::Processes { filter: None, limit: None, sort: SortBy::Cpu }),
    ];
    for command in views {
        let plan = init_system(&command);
        match plan.settle {
            Settle::Nothing => {}
            Settle::CpuUsage => assert!(plan.cpu_usage),
            Settle::Processes => assert!(plan.processes && plan.cpu_usage),
        }
        assert!(!plan.swap || plan.ram);
    }
}

#[test]
fn the_summary_samples_usage_twice() {
    assert_eq!(init_system(&None), plan(true, true, false, false, Settle::CpuUsage));
}

fn cli(json: bool, watch: Option<u64>, output: Option<&str>) -> Cli {
    Cli { command: None, json, watch, output: output.map(|s| s.to_string()) }
}

#[test]
fn a_single_shot_stops() {
    assert_eq!(after_cycle(&cli(false, None, None)), NextStep::Stop);
    assert_eq!(after_cycle(&cli(true, None, Some("out.txt"))), NextStep::Stop);
}

#[test]
fn a_watch_repeats_and_clears_the_terminal_for_text() {
    assert_eq!(
        after_cycle(&cli(false, Some(2), None)),
        NextStep::Repeat { seconds: 2, clear_screen: true }
    );
    assert_eq!(
        after_cycle(&cli(true, Some(2), None)),
        NextStep::Repeat { seconds: 2, clear_screen: false }
    );
    assert_eq!(
        after_cycle(&cli(false, Some(0), Some("out.txt"))),
        NextStep::Repeat { seconds: 0, clear_screen: false }
    );
    assert_eq!(
        after_cycle(&cli(true, Some(7), Some("out.txt"))),
        NextStep::Repeat { seconds: 7, clear_screen: false }
    );
}

#[test]
fn the_code_that_clears_the_screen() {
    assert_eq!(CLEAR_SCREEN, "\u{1b}[2J\u{1b}[1;1H");
}

#[test]
fn cores_are_numbered_in_their_order() {
    let cores = vec![
        CoreSample { usage: 1.5f32.to_bits(), vendor: "V".to_string(), brand: "first".to_string() },
        CoreSample { usage: 2.5f32.to_bits(), vendor: "W".to_string(), brand: "second".to_string() },
    ];
    let info = get_cpu_info(&cores, 2.0f32.to_bits());
    assert_eq!(info.nb_cpus, 2);
    assert_eq!(info.total_usage, 2.0f32.to_bits());
    assert_eq!(
        info.cpus,
        vec![
            SingleCpuInfo {
                id: 0,
                usage: 1.5f32.to_bits(),
                vendor: "V".to_string(),
                brand: "first".to_string(),
            },
            SingleCpuInfo {
                id: 1,
                usage: 2.5f32.to_bits(),
                vendor: "W".to_string(),
                brand: "second".to_string(),
            },
        ]
    );
    let none = get_cpu_info(&[], 0);
    assert_eq!(none.nb_cpus, 0);
    assert!(none.cpus.is_empty());
}
