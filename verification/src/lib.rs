//! A personal time tracker: frames of work on a project, optionally tagged,
//! kept in an embedded database. At most one frame is ever open; starting,
//! stopping, cancelling and the atomic context switch preserve that invariant,
//! and reports aggregate durations over date ranges by project or by tag.

pub mod clock;
pub mod dates;
pub mod display;
pub mod edit;
pub mod errors;
pub mod export;
pub mod frame;
pub mod lifecycle;
pub mod numfmt;
pub mod query;
pub mod report;
pub mod store;
pub mod text;
