//! Numbers of the PPP protocols that the tunnel carries.

use vstd::prelude::*;

verus! {

pub const PPP_IP: u16 = 0x0021;

pub const LCP: u16 = 0xC021;

pub const IPCP: u16 = 0x8021;

pub const LCP_CONF_REQ: u8 = 0x01;

pub const LCP_CONF_ACK: u8 = 0x02;

pub const LCP_CONF_NAK: u8 = 0x03;

pub const IPCP_CONF_REQ: u8 = 0x01;

pub const IPCP_CONF_ACK: u8 = 0x02;

pub const IPCP_CONF_NAK: u8 = 0x03;

pub const LCP_OPT_MRU: u8 = 0x01;

pub const LCP_OPT_MAGIC_NUMBER: u8 = 0x05;

pub const IPCP_OPT_IP_ADDRESS: u8 = 0x03;

pub const HDLC_ADDR: u8 = 0xFF;

pub const HDLC_CTRL: u8 = 0x03;

pub const PPP_FCS_SIZE: usize = 2;

pub const PPP_OVERHEAD: usize = 4;

} // verus!
