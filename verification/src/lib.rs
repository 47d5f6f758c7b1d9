//! Wallpaper configuration for Linux desktop environments.
//!
//! Two adapters share one data model: a KDE adapter that builds scripts for
//! the desktop shell's remote-scripting interface and parses its JSON
//! replies, and an XFCE adapter that interprets the configuration store's
//! hierarchical key listing. All request building and reply parsing is done
//! here; performing the actual IPC or subprocess calls is left to the caller.

pub mod kde;
pub mod screen;
pub mod text;
pub mod xfce;

