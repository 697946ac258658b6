//! Verified core of a small link-layer probing tool: it builds ARP, NDP and
//! DHCP requests as byte frames, reads the answers back, and picks the local
//! interface through which a target address is reached.

pub mod arp;
pub mod bytes;
pub mod dhcp;
pub mod error;
pub mod ndp;
pub mod util;
