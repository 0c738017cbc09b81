//! Verified core of an RDMA / network throughput monitor: netlink wire
//! framing, interface statistics extraction, counter arithmetic, fixed-point
//! text formatting and key handling.

pub mod wire;
pub mod netlink;
pub mod net;
pub mod text;
pub mod events;
pub mod layout;
pub mod style;
