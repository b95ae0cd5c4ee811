//! Length-first import sorting for Python sources, with verified contracts.

pub mod text;
pub mod stable;
pub mod error;
pub mod parser;
pub mod stdlib;
pub mod keys;
pub mod sorter;
pub mod diff;
pub mod cli;
pub mod reparse;
pub mod rereading;
pub mod paths;
