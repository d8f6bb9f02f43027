//! Wi-Fi network addressing: the static IPv4 configuration of access-point
//! mode, and the DHCP pool the access point serves.
use vstd::prelude::*;
use core::str::FromStr;

verus! {

/// What `core::net::Ipv4Addr::from_str` makes of a text, as the address's
/// 32-bit big-endian value (`u32::from`), or `None` if it rejects it.
pub uninterp spec fn parse_ipv4(s: Seq<char>) -> Option<u32>;

/// Parses a dotted-quad IPv4 address with `core::net::Ipv4Addr::from_str`.
/// Trusted: the result is the name `parse_ipv4` of the text.
#[verifier::external_body]
fn ipv4_from_str(s: &str) -> (r: Option<u32>)
    ensures
        r == parse_ipv4(s@),
{
    match core::net::Ipv4Addr::from_str(s) {
        Ok(a) => Some(u32::from(a)),
        Err(_) => None,
    }
}

/// The static IPv4 configuration of access-point mode: the device address
/// with its prefix length, and the gateway.
#[derive(Clone, Copy, Debug, PartialEq, Eq)]
pub struct ApIpConfig {
    pub address: u32,
    pub prefix_len: u8,
    pub gateway: u32,
}

/// The configuration for parsed addresses: present only when both parsed
/// and the prefix length is at most 32 (an IPv4 CIDR takes no longer one).
pub fn ap_ip_config_from(address: Option<u32>, gateway: Option<u32>, prefix_len: u8) -> (r: Option<ApIpConfig>)
    ensures
        r == (match (address, gateway) {
            (Some(a), Some(g)) => if prefix_len <= 32 {
                Some(ApIpConfig { address: a, prefix_len, gateway: g })
            } else {
                None
            },
            _ => None,
        }),
{
    if prefix_len > 32 {
        return None;
    }
    match (address, gateway) {
        (Some(a), Some(g)) => Some(ApIpConfig { address: a, prefix_len, gateway: g }),
        _ => None,
    }
}

/// The access point's static configuration for the address `ip`/`prefix_len`
/// and gateway `gateway`; `None` when either text is not an IPv4 address
/// or the prefix length exceeds 32.
pub fn ap_ip_config(ip: &str, gateway: &str, prefix_len: u8) -> (r: Option<ApIpConfig>)
    ensures
        r == (match (parse_ipv4(ip@), parse_ipv4(gateway@)) {
            (Some(a), Some(g)) => if prefix_len <= 32 {
                Some(ApIpConfig { address: a, prefix_len, gateway: g })
            } else {
                None
            },
            _ => None,
        }),
{
    let address = ipv4_from_str(ip);
    let gw = ipv4_from_str(gateway);
    ap_ip_config_from(address, gw, prefix_len)
}

/// The DHCP service of access-point mode: the server address, the lease
/// time and the pool of client addresses (all IPv4 values big-endian).
#[derive(Clone, Copy, Debug, PartialEq, Eq)]
pub struct DhcpPlan {
    pub server: u32,
    pub lease_secs: u64,
    pub pool_start: u32,
    pub pool_end: u32,
}

/// The DHCP service the access point runs: server 192.168.2.1, one-hour
/// leases, clients 192.168.2.50 to 192.168.2.200, no gateway, no DNS, no
/// captive portal.
pub fn dhcp_plan() -> (p: DhcpPlan)
    ensures
        p.server == 0xC0A8_0201,
        p.lease_secs == 3600,
        p.pool_start == 0xC0A8_0232,
        p.pool_end == 0xC0A8_02C8,
{
    DhcpPlan { server: 0xC0A8_0201, lease_secs: 3600, pool_start: 0xC0A8_0232, pool_end: 0xC0A8_02C8 }
}

} // verus!
