//! A focus manager for Linux desktops: it gives one application most of the CPU, I/O and memory,
//! throttles everything else, and freezes it in the extreme mode.
//!
//! The library decides, and never touches the system itself but to send signals and to
//! read the clock.  What a command
//! takes is a list of [`task`]s; an engine works them off and hands out one [`system::SystemCall`] at
//! a time; a driver carries it out and hands the reply back.  So every decision is a function with a
//! contract, whatever the system replies.
//!
//! - [`modes`], [`protocol`] and [`state`] are the data that the programs share.
//! - [`whitelist`] says which processes must be left alone, and [`freezer`] and [`cgroup`] what is
//!   done to the others.  [`hyprland`] talks to the compositor.
//! - [`policy`] says what a mode takes, and [`plan`] what a command takes and comes to.
//! - [`daemon`] is the daemon, and [`recovery`] what it does after a crash.  [`disk`] is about what a
//!   crash finds, and [`lock`] about what a lock leaves behind.
//! - [`cli`] and [`ui`] are the two clients, and [`group`] is about who may be one.
//! - [`system`], [`script`] and [`task`] are the way to the system, and [`text`] and [`pids`] the
//!   tools.

pub mod cgroup;
pub mod cli;
pub mod daemon;
pub mod disk;
pub mod freezer;
pub mod group;
pub mod hyprland;
pub mod lock;
pub mod modes;
pub mod pids;
pub mod plan;
pub mod policy;
pub mod protocol;
pub mod recovery;
pub mod script;
pub mod state;
pub mod system;
pub mod task;
pub mod text;
pub mod ui;
pub mod whitelist;
