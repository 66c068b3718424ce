//! Decision core of a userspace performance controller.

pub mod config;
pub mod controller;
pub mod cpu;
pub mod double;
pub mod fsm;
pub mod gpu;
pub mod input;
pub mod outside;
pub mod sched;
pub mod strmap;
pub mod sysfs;
pub mod text;
pub mod watcher;
