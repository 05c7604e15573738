//! Verified core of the DBI backend: the USB wire protocol spoken with the
//! DBI homebrew installer, the text the backend shows to its user, the list
//! of files it serves, and the command loop that drives a session.

pub mod text;
pub mod stats;
pub mod paths;
pub mod files;
pub mod protocol;
pub mod session;
pub mod listing;
pub mod control;
