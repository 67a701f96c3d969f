//! The logic of the OGEdit text editor, verified: its configuration file,
//! debug log, documents, file watching and dialogs. Reading and writing
//! files, the clock aside, is left to the program around it.

pub mod text;
pub mod paths;
pub mod clock;
pub mod json_string;
pub mod folders;
pub mod config_parse;
pub mod config_write;
pub mod config;
pub mod recent;
pub mod utf8_len;
pub mod logging;
pub mod content;
pub mod goto;
pub mod documents;
pub mod dialogs;
pub mod picker;
pub mod statusbar;
pub mod editor_state;
pub mod watch;
pub mod tables;
pub mod inotify;
pub mod dir_watch;
pub mod log_file;
pub mod calendar;
pub mod escaped;
pub mod section_laws;
pub mod config_laws;
pub mod file_laws;
