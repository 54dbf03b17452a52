//! Host and port scanning core: address ranges in CIDR notation, the ICMP echo
//! codec with the internet checksum, and the decisions of the host and port probes.

pub mod checksum;
pub mod cidr;
pub mod hosts;
pub mod icmp;
pub mod ports;

pub use crate::cidr::{IpAddr, IpAddrRange};
pub use crate::hosts::HostStatus;
pub use crate::ports::PortStatus;
