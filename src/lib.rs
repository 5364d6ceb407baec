pub mod counts;
pub mod flags;
pub mod report;
pub mod stream;
