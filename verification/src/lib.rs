//! The logic of a Windows tray controller for a MySQL or MariaDB service:
//! reading and writing its configuration file, the service states and what
//! the tray menu shows for them, the steps of starting, stopping and
//! restarting the service, the decisions of the event loop, and the
//! integer parts of drawing the status icon.
//!
//! Everything that talks to Windows (the Service Control Manager, the
//! registry, the shell, the tray itself) and the floating-point rendering
//! live in the application around this library.
use vstd::prelude::*;

pub mod text;
pub mod config;
pub mod state;
pub mod service;
pub mod icon;
pub mod tray;

verus! {

} // verus!
