//! Network endpoints as plain integers.
//!
//! The server listens on an IPv4 address, so every peer is an IPv4 address
//! and a port. An endpoint packs both into one `u64`: the address in bits
//! 16..48 and the port in bits 0..16.

use vstd::prelude::*;

verus! {

/// The IPv4 address of an endpoint.
pub open spec fn endpoint_ip(e: u64) -> int {
    e as int / 65536
}

/// The port of an endpoint.
pub open spec fn endpoint_port(e: u64) -> int {
    e as int % 65536
}

/// The endpoint of IPv4 address `ip` and port `port`.
pub fn endpoint(ip: u32, port: u16) -> (e: u64)
    ensures
        endpoint_ip(e) == ip,
        endpoint_port(e) == port,
{
    (ip as u64) * 65536 + (port as u64)
}

/// The IPv4 address of an endpoint.
pub fn ip_of(e: u64) -> (ip: u32)
    requires
        endpoint_ip(e) <= u32::MAX,
    ensures
        ip == endpoint_ip(e),
{
    (e / 65536) as u32
}

/// The port of an endpoint.
pub fn port_of(e: u64) -> (port: u16)
    ensures
        port == endpoint_port(e),
{
    (e % 65536) as u16
}

/// The endpoint with the address of `addr` and the port `port`.
pub fn with_port(addr: u64, port: u16) -> (e: u64)
    ensures
        endpoint_ip(e) == endpoint_ip(addr),
        endpoint_port(e) == port,
{
    let base = addr - addr % 65536;
    assert(base as int == endpoint_ip(addr) * 65536);
    assert(base as int + 65535 <= u64::MAX) by (nonlinear_arith)
        requires
            base as int == (addr as int / 65536) * 65536,
            addr <= u64::MAX,
    ;
    base + port as u64
}

} // verus!
