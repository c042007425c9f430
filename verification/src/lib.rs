//! Session and project launcher core: the session archive scanner, the fuzzy
//! query engine and the picker state machine, with their contracts.

pub mod archive;
pub mod config;
pub mod frame;
pub mod fuzzy;
pub mod index;
pub mod json;
pub mod paths;
pub mod projects;
pub mod quick;
pub mod rank;
pub mod scan;
pub mod sessions;
pub mod text;
pub mod timefmt;
pub mod tui;
pub mod ui;
