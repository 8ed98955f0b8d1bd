//! Parents and children of Linux processes, their exits and waits, and pipes.

pub mod children;
pub mod exec_resolve;
pub mod exit_publish;
pub mod fault;
pub mod fork;
pub mod pipe;
pub mod pipe_ends;
pub mod table;
pub mod wait;
