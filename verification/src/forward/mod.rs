//! The data planes and the manager that supervises them.

pub mod cache;
pub mod course;
pub mod manager;
pub mod stats;
pub mod supervision;
pub mod task;
pub mod tcp;
pub mod udp;
pub mod utils;
