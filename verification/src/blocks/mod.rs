//! Block parsers: each takes the lines of a block starting at its opener
//! and returns the parsed structure plus the number of lines consumed.

pub mod attribute;
pub mod dispatch;
pub mod query;
pub mod policy;
pub mod command;
pub mod rule;
pub mod value_object;
pub mod entity;
pub mod view;
pub mod section;
pub mod aggregate;
