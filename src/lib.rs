//! Reports the commits of one branch whose summaries are absent from another.

pub mod branches;
pub mod commit;
pub mod diff;
pub mod text;
