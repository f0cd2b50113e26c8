//! A VPN relay: the byte-level decisions of the server, verified with Verus.

pub mod buffer_util;
pub mod encryption;
pub mod hide_bytearray;
pub mod header;
pub mod checksum;
pub mod packet;
pub mod momid_vpn_server;
pub mod protocol;
pub mod arp_packet;
