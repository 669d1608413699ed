//! Processes, the round-robin scheduler and what wakes and signals processes.
pub mod context_switch;
pub mod init;
pub mod pipe;
pub mod process;
pub mod scheduler;
pub mod spawn;
pub mod trace;
pub mod wake;
