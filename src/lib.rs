//! Verified core of a rating and transition logger: the text that is appended
//! to a CSV log, and the name of a session's output folder.

pub mod csv_append;
pub mod folder;
pub mod greeting;
