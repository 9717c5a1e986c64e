use sysinfo_cli::args::SortBy;
use sysinfo_cli::collector::{get_processes_info, passes_filter, sort_key_of, sort_processes};
use sysinfo_cli::models::ProcessInfo;
use sysinfo_cli::order::{key_le_exec, sort_order, Keyed};
use sysinfo_cli::text::contains;

fn process(pid: &str, name: &str, cpu: f32, memory: u64) -> ProcessInfo {
    ProcessInfo {
        pid: pid.to_string(),
        name: name.to_string(),
        cpu_usage: cpu.to_bits(),
        memory,
    }
}

fn pids(list: &[ProcessInfo]) -> Vec<&str> {
    list.iter().map(|p| p.pid.as_str()).collect()
}

fn sample() -> Vec<ProcessInfo> {
    vec![
        process("9", "firefox", 12.5, 300),
        process("10", "Bash", 0.0, 100),
        process("100", "campfire", 99.0, 300),
        process("2", "alpha", 12.5, 50),
        process("31", "Firefox", 3.25, 100),
    ]
}

#[test]
fn without_options_every_process_is_listed_by_cpu() {
    let out = get_processes_info(&sample(), &None, None, SortBy::Cpu);
    assert_eq!(pids(&out), ["100", "9", "2", "31", "10"]);
}

#[test]
fn memory_sorts_descending_and_ties_keep_their_order() {
    let out = get_processes_info(&sample(), &None, None, SortBy::Memory);
    assert_eq!(pids(&out), ["9", "100", "10", "31", "2"]);
    for pair in out.windows(2) {
        assert!(pair[0].memory >= pair[1].memory);
    }
}

#[test]
fn pid_sorts_as_text() {
    let out = get_processes_info(&sample(), &None, None, SortBy::Pid);
    assert_eq!(pids(&out), ["10", "100", "2", "31", "9"]);
}

#[test]
fn name_sorts_without_regard_to_case() {
    let out = get_processes_info(&sample(), &None, None, SortBy::Name);
    let names: Vec<&str> = out.iter().map(|p| p.name.as_str()).collect();
    assert_eq!(names, ["alpha", "Bash", "campfire", "firefox", "Firefox"]);
}

#[test]
fn names_that_differ_in_case_only_keep_their_order() {
    let list = vec![
        process("1", "ZSH", 0.0, 0),
        process("2", "zsh", 0.0, 0),
        process("3", "Zsh", 0.0, 0),
        process("4", "ash", 0.0, 0),
    ];
    let out = get_processes_info(&list, &None, None, SortBy::Name);
    assert_eq!(pids(&out), ["4", "1", "2", "3"]);
}

#[test]
fn filter_keeps_exactly_the_names_that_contain_the_text() {
    let filter = Some("fire".to_string());
    let out = get_processes_info(&sample(), &filter, None, SortBy::Pid);
    assert_eq!(pids(&out), ["100", "9"]);
    for p in &sample() {
        assert_eq!(out.contains(p), p.name.contains("fire"));
    }
}

#[test]
fn filter_tells_upper_case_from_lower_case() {
    let filter = Some("Fire".to_string());
    let out = get_processes_info(&sample(), &filter, None, SortBy::Pid);
    assert_eq!(pids(&out), ["31"]);
}

#[test]
fn an_empty_filter_keeps_all_and_a_strange_one_none() {
    let all = get_processes_info(&sample(), &Some(String::new()), None, SortBy::Pid);
    assert_eq!(all.len(), 5);
    let none = get_processes_info(&sample(), &Some("nothing".to_string()), None, SortBy::Pid);
    assert!(none.is_empty());
}

#[test]
fn limit_keeps_the_head_of_the_sorted_list() {
    let full = get_processes_info(&sample(), &None, None, SortBy::Memory);
    for limit in 0..8 {
        let out = get_processes_info(&sample(), &None, Some(limit), SortBy::Memory);
        assert_eq!(out.len(), limit.min(5));
        assert_eq!(out[..], full[..out.len()]);
    }
}

#[test]
fn filter_sort_and_limit_together() {
    let filter = Some("e".to_string());
    let out = get_processes_info(&sample(), &filter, Some(2), SortBy::Cpu);
    assert_eq!(pids(&out), ["100", "9"]);
}

#[test]
fn a_reading_that_is_no_number_sorts_last() {
    let list = vec![
        process("1", "a", f32::NAN, 0),
        process("2", "b", -1.0, 0),
        process("3", "c", f32::INFINITY, 0),
        process("4", "d", 0.0, 0),
    ];
    let out = get_processes_info(&list, &None, None, SortBy::Cpu);
    assert_eq!(pids(&out), ["3", "4", "2", "1"]);
}

#[test]
fn an_empty_snapshot_gives_an_empty_listing() {
    let out = get_processes_info(&[], &Some("x".to_string()), Some(3), SortBy::Name);
    assert!(out.is_empty());
}

#[test]
fn the_listing_keeps_every_field() {
    let out = get_processes_info(&sample(), &Some("alpha".to_string()), None, SortBy::Cpu);
    assert_eq!(out, vec![process("2", "alpha", 12.5, 50)]);
}

#[test]
fn keys_of_each_order() {
    let p = process("42", "Ab", 1.0, 7);
    assert_eq!(sort_key_of(&p, SortBy::Memory), vec![-7]);
    assert_eq!(sort_key_of(&p, SortBy::Cpu), vec![-(0x3f80_0000i128)]);
    assert_eq!(sort_key_of(&p, SortBy::Pid), vec![52, 50]);
    assert_eq!(sort_key_of(&p, SortBy::Name), vec![97, 98]);
}

#[test]
fn keys_are_ordered_lexicographically() {
    assert!(key_le_exec(&vec![], &vec![]));
    assert!(key_le_exec(&vec![], &vec![0]));
    assert!(!key_le_exec(&vec![0], &vec![]));
    assert!(key_le_exec(&vec![1, 2], &vec![1, 2]));
    assert!(key_le_exec(&vec![1, 2], &vec![1, 3]));
    assert!(key_le_exec(&vec![1, 2], &vec![1, 2, 0]));
    assert!(!key_le_exec(&vec![2], &vec![1, 9]));
    assert!(key_le_exec(&vec![-5], &vec![-4]));
}

#[test]
fn the_sorted_order_is_a_stable_permutation() {
    let entries: Vec<Keyed<char>> = [(3, 'a'), (1, 'b'), (3, 'c'), (2, 'd'), (1, 'e')]
        .into_iter()
        .map(|(key, item)| Keyed { key: vec![key], item })
        .collect();
    assert_eq!(sort_order(&entries), vec![1, 4, 3, 0, 2]);
    assert_eq!(sort_order(&Vec::<Keyed<char>>::new()), Vec::<usize>::new());
}

#[test]
fn sorting_by_given_keys() {
    let entries: Vec<Keyed<ProcessInfo>> = sample()
        .into_iter()
        .zip([2, 0, 2, 1, 0])
        .map(|(item, key)| Keyed { key: vec![key], item })
        .collect();
    let out = sort_processes(&entries, Some(4));
    assert_eq!(pids(&out), ["10", "31", "2", "9"]);
    assert_eq!(sort_processes(&entries, None).len(), 5);
}

#[test]
fn substring_search() {
    assert!(contains("firefox", "fox"));
    assert!(contains("firefox", "firefox"));
    assert!(contains("firefox", ""));
    assert!(contains("", ""));
    assert!(!contains("", "a"));
    assert!(!contains("fox", "firefox"));
    assert!(!contains("firefox", "Fox"));
    assert!(contains("aab", "ab"));
    assert!(contains("grüße", "üß"));
    assert!(!contains("grüße", "us"));
}

#[test]
fn the_filter_looks_at_the_name_only() {
    let p = process("77", "sshd", 0.0, 0);
    assert!(passes_filter(&p, &None));
    assert!(passes_filter(&p, &Some("ssh".to_string())));
    assert!(!passes_filter(&p, &Some("77".to_string())));
}

fn next(seed: &mut u64) -> u64 {
    *seed ^= *seed << 13;
    *seed ^= *seed >> 7;
    *seed ^= *seed << 17;
    *seed
}

fn random_list(seed: &mut u64) -> Vec<ProcessInfo> {
    let letters = ["a", "B", "c", "D", "e", "é", "Z", "z", "Ω", "ω", "𝄞", "-", "0", "9"];
    let readings = [0.0f32, -0.0, 0.5, 1.0, 12.5, 99.9, 100.0, f32::INFINITY, -3.0, 1.0e-40];
    let count = (next(seed) % 12) as usize;
    let mut list = Vec::new();
    for _ in 0..count {
        let mut name = String::new();
        for _ in 0..(next(seed) % 4) {
            name.push_str(letters[(next(seed) % letters.len() as u64) as usize]);
        }
        list.push(ProcessInfo {
            pid: (next(seed) % 120).to_string(),
            name,
            cpu_usage: readings[(next(seed) % readings.len() as u64) as usize].to_bits(),
            memory: next(seed) % 5,
        });
    }
    list
}

#[test]
fn agrees_with_filter_sort_and_truncate_of_std() {
    let mut seed: u64 = 0x1234_5678_9abc_def1;
    let filters = [None, Some(String::new()), Some("a".to_string()), Some("é".to_string())];
    let limits = [None, Some(0), Some(1), Some(3), Some(50)];
    for round in 0..3000 {
        let list = random_list(&mut seed);
        let filter = &filters[round % filters.len()];
        let limit = limits[(round / 4) % limits.len()];
        for sort in [SortBy::Cpu, SortBy::Memory, SortBy::Pid, SortBy::Name] {
            let mut expected: Vec<ProcessInfo> = list
                .iter()
                .filter(|p| match filter {
                    Some(f) => p.name.contains(f.as_str()),
                    None => true,
                })
                .cloned()
                .collect();
            match sort {
                SortBy::Cpu => expected.sort_by(|a, b| {
                    f32::from_bits(b.cpu_usage).partial_cmp(&f32::from_bits(a.cpu_usage)).unwrap()
                }),
                SortBy::Memory => expected.sort_by(|a, b| b.memory.cmp(&a.memory)),
                SortBy::Pid => expected.sort_by(|a, b| a.pid.cmp(&b.pid)),
                SortBy::Name => {
                    expected.sort_by(|a, b| a.name.to_lowercase().cmp(&b.name.to_lowercase()))
                }
            }
            if let Some(l) = limit {
                expected.truncate(l);
            }
            assert_eq!(get_processes_info(&list, filter, limit, sort), expected);
        }
    }
}
