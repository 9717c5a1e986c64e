//! Shaping and rendering of host metric snapshots.
//!
//! A program polls the host (system identification, CPU, memory, disks,
//! network interfaces, thermal sensors, processes) and hands this library the
//! values it read. The library decides what a view needs refreshed
//! (`collector`), selects and orders the processes to list (`collector`,
//! `order`), and renders a snapshot as a text report (`fmt`, `driver`) with
//! byte counts scaled to binary units. Colours come from the `colored` crate
//! (`paint`) and tables from `comfy_table` (`table`); what this library
//! assumes of them is stated there.

pub mod args;
pub mod binary32;
pub mod collector;
pub mod driver;
pub mod fmt;
pub mod models;
pub mod numeral;
pub mod order;
pub mod paint;
pub mod table;
pub mod text;
