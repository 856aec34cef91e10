//! A monitor for TPUs: which chips a machine has, which processes hold them, how full their
//! memory is and how busy they are.
pub mod address;
pub mod collect;
pub mod device;
pub mod format;
pub mod host;
pub mod laws;
pub mod layout;
pub mod metrics;
pub mod number;
pub mod panel;
pub mod procfs;
pub mod ranges;
pub mod reading;
pub mod rows;
pub mod session;
pub mod snapshot;
pub mod sysmon;
pub mod text;
pub mod ui;
