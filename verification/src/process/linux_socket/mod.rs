//! Linux sockets: their pool, the brokering of their requests to the network service, and datagrams and
//! streams.

pub mod broker;
pub mod pool;
pub mod protocol;
pub mod syscalls;
pub mod tcp;
pub mod traffic;
pub mod udp;
pub mod wake;
