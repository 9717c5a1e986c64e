//! What to ask of the metrics provider for a view, and the shaping of what it
//! hands back.

use vstd::prelude::*;
use crate::args::{Commands, SortBy};
use crate::binary32::{rank, rank_of};
use crate::models::{
    text_of,
    views,
    CoreView,
    CpuInfo,
    CpuView,
    ProcessInfo,
    ProcessView,
    SingleCpuInfo,
};
use crate::order::{
    arranged,
    ints,
    is_permutation,
    entry_items,
    entry_keys,
    key_le,
    lemma_arranged_same_items,
    lemma_key_le_reflexive,
    lemma_key_le_single,
    lemma_sorted_order,
    sort_order,
    sorted_order,
    Keyed,
};
use crate::text::{chars_of, contains, is_substring, lowercased};

verus! {

/// What is sampled a second time, once the provider's minimum interval
/// between two CPU samples has elapsed.
#[derive(Copy, Clone, Debug, PartialEq, Eq)]
pub enum Settle {
    /// Nothing: the first reading is final and no wait is needed.
    Nothing,
    /// The CPU usage counters.
    CpuUsage,
    /// The process list, with CPU and memory of each process, dropping the
    /// processes that are gone.
    Processes,
}

/// The narrowest refresh that a view needs.
#[derive(Copy, Clone, Debug, PartialEq, Eq)]
pub struct RefreshPlan {
    /// Load the CPU usage counters.
    pub cpu_usage: bool,
    /// Load the amount of RAM.
    pub ram: bool,
    /// Load the amount of swap.
    pub swap: bool,
    /// Load the processes, with CPU and memory of each.
    pub processes: bool,
    /// The second sample, taken after the wait.
    pub settle: Settle,
}

/// The refresh plan of a view: the narrowest that shows what the view shows.
///
/// CPU counters are loaded for the views that show a usage: `cpu`,
/// `processes` and the summary. RAM is loaded for `memory` and the summary,
/// swap for `memory` only, the processes for `processes` only. The views
/// `system`, `disks`, `network` and `components` read lists of their own and
/// ask nothing of the provider. A usage is the difference of two samples, so
/// the views that show one wait and sample again.
pub fn init_system(command: &Option<Commands>) -> (plan: RefreshPlan)
    ensures
        plan.cpu_usage <==> (*command is None || (*command matches Some(c) && (c is Cpu
            || c is Processes))),
        plan.ram <==> (*command is None || (*command matches Some(c) && c is Memory)),
        plan.swap <==> (*command matches Some(c) && c is Memory),
        plan.processes <==> (*command matches Some(c) && c is Processes),
        plan.settle == (match *command {
            None => Settle::CpuUsage,
            Some(Commands::Cpu) => Settle::CpuUsage,
            Some(Commands::Processes { .. }) => Settle::Processes,
            Some(_) => Settle::Nothing,
        }),
{
    match command {
        Some(Commands::Cpu) => RefreshPlan {
            cpu_usage: true,
            ram: false,
            swap: false,
            processes: false,
            settle: Settle::CpuUsage,
        },
        Some(Commands::Memory) => RefreshPlan {
            cpu_usage: false,
            ram: true,
            swap: true,
            processes: false,
            settle: Settle::Nothing,
        },
        Some(Commands::Processes { .. }) => RefreshPlan {
            cpu_usage: true,
            ram: false,
            swap: false,
            processes: true,
            settle: Settle::Processes,
        },
        Some(_) => RefreshPlan {
            cpu_usage: false,
            ram: false,
            swap: false,
            processes: false,
            settle: Settle::Nothing,
        },
        None => RefreshPlan {
            cpu_usage: true,
            ram: true,
            swap: false,
            processes: false,
            settle: Settle::CpuUsage,
        },
    }
}

/// What the provider reports of one core.
#[derive(Debug, Clone, PartialEq)]
pub struct CoreSample {
    /// Usage in percent, as a binary32 bit pattern.
    pub usage: u32,
    pub vendor: String,
    pub brand: String,
}

/// The view of a `CoreSample`.
pub struct CoreSampleView {
    pub usage: u32,
    pub vendor: Seq<char>,
    pub brand: Seq<char>,
}

impl View for CoreSample {
    type V = CoreSampleView;

    open spec fn view(&self) -> CoreSampleView {
        CoreSampleView { usage: self.usage, vendor: self.vendor@, brand: self.brand@ }
    }
}

/// The cores of a snapshot: the samples in the order reported, the id of a
/// core being its position.
pub open spec fn numbered(cores: Seq<CoreSampleView>) -> Seq<CoreView> {
    Seq::new(
        cores.len(),
        |i: int|
            CoreView {
                id: i as usize,
                usage: cores[i].usage,
                vendor: cores[i].vendor,
                brand: cores[i].brand,
            },
    )
}

/// The CPU snapshot of the cores in the order reported: as many CPUs as
/// there are samples, each numbered by its position.
pub fn get_cpu_info(cores: &[CoreSample], total_usage: u32) -> (info: CpuInfo)
    ensures
        info@ == (CpuView {
            nb_cpus: cores@.len() as usize,
            cpus: numbered(views(cores@)),
            total_usage,
        }),
{
    let mut cpus: Vec<SingleCpuInfo> = Vec::new();
    let mut i: usize = 0;
    while i < cores.len()
        invariant
            i <= cores@.len(),
            cpus@.len() == i,
            forall|k: int| 0 <= k < i ==> (#[trigger] cpus@[k])@ == numbered(views(cores@))[k],
        decreases cores@.len() - i,
    {
        cpus.push(
            SingleCpuInfo {
                id: i,
                usage: cores[i].usage,
                vendor: cores[i].vendor.clone(),
                brand: cores[i].brand.clone(),
            },
        );
        i = i + 1;
    }
    proof {
        assert(views(cpus@) =~= numbered(views(cores@)));
    }
    CpuInfo { nb_cpus: cores.len(), cpus, total_usage }
}

/// The process passes the filter: there is none, or its text stands in the
/// name of the process.
pub open spec fn passes(filter: Option<Seq<char>>, p: ProcessView) -> bool {
    filter matches Some(f) ==> is_substring(f, p.name)
}

/// The predicate of the processes that pass `filter`.
pub open spec fn keeps(filter: Option<Seq<char>>) -> spec_fn(ProcessView) -> bool {
    |p: ProcessView| passes(filter, p)
}

/// The code points of a text.
pub open spec fn codes(text: Seq<char>) -> Seq<int> {
    text.map_values(|c: char| c as u32 as int)
}

/// The key by which a process is sorted, smaller keys first: the negated
/// rank of its CPU usage or the negated amount of its memory, so that the
/// largest comes first; the code points of its pid; or those of its name in
/// lowercase.
pub open spec fn sort_key(p: ProcessView, sort: SortBy) -> Seq<int> {
    match sort {
        SortBy::Cpu => seq![-rank(p.cpu_usage)],
        SortBy::Memory => seq![-(p.memory as int)],
        SortBy::Pid => codes(p.pid),
        SortBy::Name => codes(lowercased(p.name)),
    }
}

/// The sort keys of a list of processes.
pub open spec fn sort_keys(processes: Seq<ProcessView>, sort: SortBy) -> Seq<Seq<int>> {
    processes.map_values(|p: ProcessView| sort_key(p, sort))
}

/// The processes stably sorted in the order `sort`.
pub open spec fn sorted_processes(processes: Seq<ProcessView>, sort: SortBy) -> Seq<ProcessView> {
    arranged(processes, sort_keys(processes, sort))
}

/// The first `limit` entries of `list`, or all of it where it has no more or
/// there is no limit.
pub open spec fn limited<T>(list: Seq<T>, limit: Option<usize>) -> Seq<T> {
    match limit {
        Some(n) => if n < list.len() {
            list.take(n as int)
        } else {
            list
        },
        None => list,
    }
}

/// The process listing: the processes that pass the filter, sorted, and cut
/// to the limit.
pub open spec fn listing(
    all: Seq<ProcessView>,
    filter: Option<Seq<char>>,
    limit: Option<usize>,
    sort: SortBy,
) -> Seq<ProcessView> {
    limited(sorted_processes(all.filter(keeps(filter)), sort), limit)
}

/// The positions of `processes` in the order in which sorting by `sort`
/// lists them: the entry at place `a` of the sorted list is
/// `processes[visits(processes, sort)[a]]`.
pub open spec fn visits(processes: Seq<ProcessView>, sort: SortBy) -> Seq<int> {
    sorted_order(sort_keys(processes, sort), processes.len())
}

/// Sorting rearranges the processes: the sorted list holds each process as
/// often as the unsorted one, at the place that `visits` names.
pub proof fn lemma_sort_rearranges(processes: Seq<ProcessView>, sort: SortBy)
    ensures
        sorted_processes(processes, sort).len() == processes.len(),
        sorted_processes(processes, sort).to_multiset() == processes.to_multiset(),
        is_permutation(visits(processes, sort), processes.len()),
        forall|a: int|
            0 <= a < processes.len() ==> #[trigger] sorted_processes(processes, sort)[a]
                == processes[visits(processes, sort)[a]],
{
    let keys = sort_keys(processes, sort);
    lemma_sorted_order(keys, keys.len());
    lemma_arranged_same_items(processes, keys);
}

/// In every order the sort is total and stable: of two places in the sorted
/// list the earlier holds the key that does not come after the other, and
/// two processes whose keys tie stay in the order in which they came.
pub proof fn lemma_sort_is_stable(processes: Seq<ProcessView>, sort: SortBy, a: int, b: int)
    requires
        0 <= a < b < processes.len(),
    ensures
        ({
            let sorted = sorted_processes(processes, sort);
            let from = visits(processes, sort);
            &&& key_le(sort_key(sorted[a], sort), sort_key(sorted[b], sort))
            &&& sort_key(sorted[a], sort) == sort_key(sorted[b], sort) ==> from[a] < from[b]
        }),
{
    let keys = sort_keys(processes, sort);
    let from = visits(processes, sort);
    lemma_sorted_order(keys, keys.len());
    assert(key_le(keys[from[a]], keys[from[b]]));
    assert(0 <= from[a] < processes.len() && 0 <= from[b] < processes.len());
    lemma_key_le_reflexive(keys[from[a]]);
}

/// Sorting by memory puts the larger amount first, and processes with the
/// same amount stay in the order in which they came.
pub proof fn lemma_sort_by_memory(processes: Seq<ProcessView>, a: int, b: int)
    requires
        0 <= a < b < processes.len(),
    ensures
        ({
            let sorted = sorted_processes(processes, SortBy::Memory);
            let from = visits(processes, SortBy::Memory);
            &&& sorted[a].memory >= sorted[b].memory
            &&& sorted[a].memory == sorted[b].memory ==> from[a] < from[b]
        }),
{
    let sorted = sorted_processes(processes, SortBy::Memory);
    lemma_sort_is_stable(processes, SortBy::Memory, a, b);
    lemma_key_le_single(-(sorted[a].memory as int), -(sorted[b].memory as int));
}

/// Sorting by CPU puts the higher usage first, readings that are no number
/// last, and processes with the same usage stay in the order in which they
/// came.
pub proof fn lemma_sort_by_cpu(processes: Seq<ProcessView>, a: int, b: int)
    requires
        0 <= a < b < processes.len(),
    ensures
        ({
            let sorted = sorted_processes(processes, SortBy::Cpu);
            let from = visits(processes, SortBy::Cpu);
            &&& rank(sorted[a].cpu_usage) >= rank(sorted[b].cpu_usage)
            &&& rank(sorted[a].cpu_usage) == rank(sorted[b].cpu_usage) ==> from[a] < from[b]
        }),
{
    let sorted = sorted_processes(processes, SortBy::Cpu);
    lemma_sort_is_stable(processes, SortBy::Cpu, a, b);
    lemma_key_le_single(-rank(sorted[a].cpu_usage), -rank(sorted[b].cpu_usage));
}

/// Sorting by pid puts the pids in lexicographic order of their characters,
/// and processes with the same pid stay in the order in which they came.
pub proof fn lemma_sort_by_pid(processes: Seq<ProcessView>, a: int, b: int)
    requires
        0 <= a < b < processes.len(),
    ensures
        ({
            let sorted = sorted_processes(processes, SortBy::Pid);
            let from = visits(processes, SortBy::Pid);
            &&& key_le(codes(sorted[a].pid), codes(sorted[b].pid))
            &&& sorted[a].pid == sorted[b].pid ==> from[a] < from[b]
        }),
{
    lemma_sort_is_stable(processes, SortBy::Pid, a, b);
}

/// Sorting by name puts the names in lexicographic order of their lowercase
/// forms, whatever the case of their letters, and processes whose lowercase
/// names are the same stay in the order in which they came.
pub proof fn lemma_sort_by_name(processes: Seq<ProcessView>, a: int, b: int)
    requires
        0 <= a < b < processes.len(),
    ensures
        ({
            let sorted = sorted_processes(processes, SortBy::Name);
            let from = visits(processes, SortBy::Name);
            &&& key_le(codes(lowercased(sorted[a].name)), codes(lowercased(sorted[b].name)))
            &&& lowercased(sorted[a].name) == lowercased(sorted[b].name) ==> from[a] < from[b]
        }),
{
    lemma_sort_is_stable(processes, SortBy::Name, a, b);
}

/// Without a limit the listing holds exactly the processes that pass the
/// filter, each as often as the snapshot holds it: a process is listed if
/// and only if it is in the snapshot and the filter's text stands in its
/// name.
pub proof fn lemma_filter_is_exact(all: Seq<ProcessView>, filter: Option<Seq<char>>, sort: SortBy)
    ensures
        listing(all, filter, None, sort).to_multiset() == all.filter(
            keeps(filter),
        ).to_multiset(),
        forall|p: ProcessView|
            listing(all, filter, None, sort).contains(p) <==> all.contains(p) && passes(
                filter,
                p,
            ),
{
    broadcast use vstd::seq_lib::group_to_multiset_ensures;

    let kept = all.filter(keeps(filter));
    let listed = listing(all, filter, None, sort);
    lemma_sort_rearranges(kept, sort);
    assert forall|p: ProcessView| listed.contains(p) <==> all.contains(p) && passes(
        filter,
        p,
    ) by {
        assert(listed.contains(p) <==> kept.contains(p)) by {
            assert(listed.to_multiset().count(p) == kept.to_multiset().count(p));
        }
        if kept.contains(p) {
            all.lemma_filter_contains_rev(keeps(filter), p);
            let i = choose|i: int| 0 <= i < kept.len() && kept[i] == p;
            all.lemma_filter_pred(keeps(filter), i);
        }
        if all.contains(p) && passes(filter, p) {
            let i = choose|i: int| 0 <= i < all.len() && all[i] == p;
            all.lemma_filter_contains(keeps(filter), i);
        }
    }
}

/// A limit cuts the listing to its first `limit` entries and changes nothing
/// else: the entries that stay are those that lead the unlimited listing, in
/// the same order.
pub proof fn lemma_limit_truncates(
    all: Seq<ProcessView>,
    filter: Option<Seq<char>>,
    limit: usize,
    sort: SortBy,
)
    ensures
        listing(all, filter, Some(limit), sort).len() == if limit < listing(
            all,
            filter,
            None,
            sort,
        ).len() {
            limit as nat
        } else {
            listing(all, filter, None, sort).len()
        },
        listing(all, filter, Some(limit), sort) == listing(all, filter, None, sort).take(
            listing(all, filter, Some(limit), sort).len() as int,
        ),
{
    let full = listing(all, filter, None, sort);
    if limit >= full.len() {
        assert(full.take(full.len() as int) =~= full);
    }
}

fn duplicate(p: &ProcessInfo) -> (q: ProcessInfo)
    ensures
        q == *p,
{
    ProcessInfo {
        pid: p.pid.clone(),
        name: p.name.clone(),
        cpu_usage: p.cpu_usage,
        memory: p.memory,
    }
}

fn codes_of(text: &str) -> (key: Vec<i128>)
    ensures
        ints(key@) == codes(text@),
{
    let chars = chars_of(text);
    let mut key: Vec<i128> = Vec::new();
    let mut i: usize = 0;
    while i < chars.len()
        invariant
            i <= chars.len(),
            chars@ == text@,
            key@.len() == i,
            forall|k: int| 0 <= k < i ==> #[trigger] key@[k] == text@[k] as u32 as int,
        decreases chars.len() - i,
    {
        key.push(chars[i] as u32 as i128);
        i = i + 1;
    }
    assert(ints(key@) =~= codes(text@));
    key
}

/// Whether a process passes the filter.
pub fn passes_filter(p: &ProcessInfo, filter: &Option<String>) -> (keep: bool)
    ensures
        keep == passes(text_of(*filter), p@),
{
    match filter {
        Some(f) => contains(p.name.as_str(), f.as_str()),
        None => true,
    }
}

/// The key by which a process is sorted.
pub fn sort_key_of(p: &ProcessInfo, sort: SortBy) -> (key: Vec<i128>)
    ensures
        ints(key@) == sort_key(p@, sort),
{
    match sort {
        SortBy::Cpu => {
            let mut key: Vec<i128> = Vec::new();
            key.push(-(rank_of(p.cpu_usage) as i128));
            assert(ints(key@) =~= seq![-rank(p.cpu_usage)]);
            key
        },
        SortBy::Memory => {
            let mut key: Vec<i128> = Vec::new();
            key.push(-(p.memory as i128));
            assert(ints(key@) =~= seq![-(p.memory as int)]);
            key
        },
        SortBy::Pid => codes_of(p.pid.as_str()),
        SortBy::Name => {
            let lower = p.name.as_str().to_lowercase();
            codes_of(lower.as_str())
        },
    }
}

/// Sorts processes stably by the keys that come with them, and cuts the
/// result to `limit`.
pub fn sort_processes(entries: &Vec<Keyed<ProcessInfo>>, limit: Option<usize>) -> (out: Vec<
    ProcessInfo,
>)
    ensures
        views(out@) == limited(
            arranged(views(entry_items(entries@)), entry_keys(entries@)),
            limit,
        ),
{
    let order = sort_order(entries);
    let ghost keys = entry_keys(entries@);
    let ghost items = views(entry_items(entries@));
    let ghost visits = sorted_order(keys, keys.len());
    let ghost sorted = arranged(items, keys);
    proof {
        lemma_sorted_order(keys, keys.len());
        assert(order@.len() == visits.len());
    }
    let count: usize = match limit {
        Some(n) => if n < order.len() {
            n
        } else {
            order.len()
        },
        None => order.len(),
    };
    let mut out: Vec<ProcessInfo> = Vec::new();
    let mut a: usize = 0;
    while a < count
        invariant
            a <= count <= order@.len(),
            order@.map_values(|i: usize| i as int) == visits,
            is_permutation(visits, entries@.len()),
            keys == entry_keys(entries@),
            items == views(entry_items(entries@)),
            sorted == arranged(items, keys),
            views(out@) == sorted.take(a as int),
            visits == sorted_order(keys, keys.len()),
        decreases count - a,
    {
        let ghost before = views(out@);
        proof {
            assert(visits[a as int] == order@[a as int] as int);
            assert(0 <= visits[a as int] < entries@.len());
            assert(sorted[a as int] == items[visits[a as int]]);
        }
        out.push(duplicate(&entries[order[a]].item));
        a = a + 1;
        proof {
            assert(views(out@) =~= before.push(sorted[a - 1]));
            assert(sorted.take(a as int) =~= sorted.take(a - 1).push(sorted[a - 1]));
        }
    }
    proof {
        assert(sorted.len() == order@.len());
        if count == sorted.len() {
            assert(sorted.take(count as int) =~= sorted);
        }
    }
    out
}

/// The process listing of a snapshot: the processes whose name contains the
/// filter's text, in the order asked for, at most `limit` of them.
pub fn get_processes_info(
    processes: &[ProcessInfo],
    filter: &Option<String>,
    limit: Option<usize>,
    sort: SortBy,
) -> (out: Vec<ProcessInfo>)
    ensures
        views(out@) == listing(views(processes@), text_of(*filter), limit, sort),
{
    let ghost all = views(processes@);
    let ghost keep = keeps(text_of(*filter));
    let mut kept: Vec<Keyed<ProcessInfo>> = Vec::new();
    let mut i: usize = 0;
    proof {
        reveal(Seq::filter);
        assert(all.take(0) =~= Seq::<ProcessView>::empty());
    }
    while i < processes.len()
        invariant
            i <= processes@.len(),
            all == views(processes@),
            keep == keeps(text_of(*filter)),
            views(entry_items(kept@)) == all.take(i as int).filter(keep),
            forall|k: int|
                0 <= k < kept@.len() ==> ints((#[trigger] kept@[k]).key@) == sort_key(
                    kept@[k].item@,
                    sort,
                ),
        decreases processes@.len() - i,
    {
        proof {
            let seen = all.take(i as int);
            seen.lemma_filter_push(all[i as int], keep);
            assert(all.take(i + 1) =~= seen.push(all[i as int]));
            assert(all[i as int] == processes@[i as int]@);
        }
        if passes_filter(&processes[i], filter) {
            let ghost before = views(entry_items(kept@));
            let key = sort_key_of(&processes[i], sort);
            kept.push(Keyed { key, item: duplicate(&processes[i]) });
            assert(views(entry_items(kept@)) =~= before.push(all[i as int]));
        }
        i = i + 1;
    }
    proof {
        assert(all.take(i as int) =~= all);
        assert(entry_keys(kept@) =~= sort_keys(views(entry_items(kept@)), sort));
    }
    sort_processes(&kept, limit)
}

} // verus!
