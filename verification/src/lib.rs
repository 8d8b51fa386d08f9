//! Bebasin: installs a curated hosts list over the system's hosts file.
//!
//! The library holds the decisions of the terminal installer: the menu and
//! its selection, the event-driven installer session, the hosts file format,
//! and the screen geometry. Terminal drawing and file access live in the
//! application around it.
pub mod app;
pub mod error;
pub mod hosts;
pub mod layout;
pub mod os;
pub mod ui;
pub mod updater;
