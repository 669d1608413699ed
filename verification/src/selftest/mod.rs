//! Self tests that the kernel runs while it boots.

pub mod disk;
pub mod fat;
pub mod files;
pub mod programs;
pub mod report;
pub mod storage;
pub mod volume;
