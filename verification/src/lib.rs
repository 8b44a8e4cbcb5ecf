//! A local issue tracker: the verified model of its store, its queries and
//! edits, and the text it shows to agents and to people at a terminal.

pub mod cli;
pub mod db;
pub mod git;
pub mod instructions;
pub mod markdown;
pub mod render;
pub mod style;
pub mod text;
pub mod report;
