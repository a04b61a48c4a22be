//! A weekly schedule: dated entries read from a line-oriented text, the week
//! that contains a given day, and the rules that choose which entries to show.

pub mod date;
pub mod entry;
pub mod plan;
pub mod report;
pub mod text;
pub mod week;
