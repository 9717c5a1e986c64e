//! Snapshot records: plain values captured at one poll instant.
//!
//! Percentages and temperatures are single-precision readings kept as their
//! IEEE 754 binary32 bit patterns, so that a record holds integers and text
//! only; `crate::binary32` says what a pattern stands for.
//!
//! Each record has a view, which holds its texts as sequences of characters
//! and its lists as sequences; the contracts of this library speak of views.

use vstd::prelude::*;

verus! {

/// The text of a field that the OS may not have reported.
pub open spec fn text_of(field: Option<String>) -> Option<Seq<char>> {
    match field {
        Some(text) => Some(text@),
        None => None,
    }
}

/// The views of a list of records.
pub open spec fn views<T: View>(records: Seq<T>) -> Seq<T::V> {
    records.map_values(|record: T| record@)
}

/// Identification of the host; a field is absent when the OS did not report it.
#[derive(Debug, Clone, PartialEq)]
pub struct SystemInfo {
    pub name: Option<String>,
    pub kernel_version: Option<String>,
    pub os_version: Option<String>,
    pub host_name: Option<String>,
}

/// The view of a `SystemInfo`.
pub struct SystemView {
    pub name: Option<Seq<char>>,
    pub kernel_version: Option<Seq<char>>,
    pub os_version: Option<Seq<char>>,
    pub host_name: Option<Seq<char>>,
}

impl View for SystemInfo {
    type V = SystemView;

    open spec fn view(&self) -> SystemView {
        SystemView {
            name: text_of(self.name),
            kernel_version: text_of(self.kernel_version),
            os_version: text_of(self.os_version),
            host_name: text_of(self.host_name),
        }
    }
}

/// All cores of the host with their usage, and the usage over all of them.
#[derive(Debug, Clone, PartialEq)]
pub struct CpuInfo {
    pub nb_cpus: usize,
    pub cpus: Vec<SingleCpuInfo>,
    /// Usage in percent, as a binary32 bit pattern.
    pub total_usage: u32,
}

/// The view of a `CpuInfo`.
pub struct CpuView {
    pub nb_cpus: usize,
    pub cpus: Seq<CoreView>,
    pub total_usage: u32,
}

impl View for CpuInfo {
    type V = CpuView;

    open spec fn view(&self) -> CpuView {
        CpuView { nb_cpus: self.nb_cpus, cpus: views(self.cpus@), total_usage: self.total_usage }
    }
}

/// One core.
#[derive(Debug, Clone, PartialEq)]
pub struct SingleCpuInfo {
    pub id: usize,
    /// Usage in percent, as a binary32 bit pattern.
    pub usage: u32,
    pub vendor: String,
    pub brand: String,
}

/// The view of a `SingleCpuInfo`.
pub struct CoreView {
    pub id: usize,
    pub usage: u32,
    pub vendor: Seq<char>,
    pub brand: Seq<char>,
}

impl View for SingleCpuInfo {
    type V = CoreView;

    open spec fn view(&self) -> CoreView {
        CoreView { id: self.id, usage: self.usage, vendor: self.vendor@, brand: self.brand@ }
    }
}

/// Memory and swap, in bytes.
#[derive(Debug, Clone, PartialEq)]
pub struct MemoryInfo {
    pub total_memory: u64,
    pub used_memory: u64,
    pub total_swap: u64,
    pub used_swap: u64,
}

/// The view of a `MemoryInfo`.
pub struct MemoryView {
    pub total_memory: u64,
    pub used_memory: u64,
    pub total_swap: u64,
    pub used_swap: u64,
}

impl View for MemoryInfo {
    type V = MemoryView;

    open spec fn view(&self) -> MemoryView {
        MemoryView {
            total_memory: self.total_memory,
            used_memory: self.used_memory,
            total_swap: self.total_swap,
            used_swap: self.used_swap,
        }
    }
}

/// One mounted disk; sizes in bytes.
#[derive(Debug, Clone, PartialEq)]
pub struct DiskInfo {
    pub name: String,
    pub kind: String,
    pub file_system: String,
    pub available_space: u64,
    pub total_space: u64,
}

/// The view of a `DiskInfo`.
pub struct DiskView {
    pub name: Seq<char>,
    pub kind: Seq<char>,
    pub file_system: Seq<char>,
    pub available_space: u64,
    pub total_space: u64,
}

impl View for DiskInfo {
    type V = DiskView;

    open spec fn view(&self) -> DiskView {
        DiskView {
            name: self.name@,
            kind: self.kind@,
            file_system: self.file_system@,
            available_space: self.available_space,
            total_space: self.total_space,
        }
    }
}

/// One network interface with its cumulative traffic in bytes.
#[derive(Debug, Clone, PartialEq)]
pub struct NetworkInfo {
    pub interface: String,
    pub received: u64,
    pub transmitted: u64,
}

/// The view of a `NetworkInfo`.
pub struct NetworkView {
    pub interface: Seq<char>,
    pub received: u64,
    pub transmitted: u64,
}

impl View for NetworkInfo {
    type V = NetworkView;

    open spec fn view(&self) -> NetworkView {
        NetworkView {
            interface: self.interface@,
            received: self.received,
            transmitted: self.transmitted,
        }
    }
}

/// One thermal sensor.
#[derive(Debug, Clone, PartialEq)]
pub struct ComponentInfo {
    pub label: String,
    /// Degrees Celsius, as a binary32 bit pattern.
    pub temperature: Option<u32>,
    /// Highest reading in degrees Celsius, as a binary32 bit pattern.
    pub max: Option<u32>,
}

/// The view of a `ComponentInfo`.
pub struct ComponentView {
    pub label: Seq<char>,
    pub temperature: Option<u32>,
    pub max: Option<u32>,
}

impl View for ComponentInfo {
    type V = ComponentView;

    open spec fn view(&self) -> ComponentView {
        ComponentView { label: self.label@, temperature: self.temperature, max: self.max }
    }
}

/// One running process.
#[derive(Debug, Clone, PartialEq)]
pub struct ProcessInfo {
    pub pid: String,
    pub name: String,
    /// Usage in percent, as a binary32 bit pattern.
    pub cpu_usage: u32,
    /// Resident memory in bytes.
    pub memory: u64,
}

/// The view of a `ProcessInfo`.
pub struct ProcessView {
    pub pid: Seq<char>,
    pub name: Seq<char>,
    pub cpu_usage: u32,
    pub memory: u64,
}

impl View for ProcessInfo {
    type V = ProcessView;

    open spec fn view(&self) -> ProcessView {
        ProcessView {
            pid: self.pid@,
            name: self.name@,
            cpu_usage: self.cpu_usage,
            memory: self.memory,
        }
    }
}

} // verus!
