//! The local machine's inventory: what the report shows of its processor and
//! network interfaces, from the values the operating system gives.
use vstd::prelude::*;

use crate::text::to_owned_string;

verus! {

/// The processor.
#[derive(Debug)]
pub struct CpuInfo {
    pub brand: String,
    pub vendor: String,
    pub cores_physical: Option<usize>,
    pub cores_logical: usize,
    pub frequency_mhz: u64,
}

/// A network interface: its name, MAC address and IP addresses.
#[derive(Debug)]
pub struct NetInterface {
    pub name: String,
    pub mac: String,
    pub ips: Vec<String>,
}

/// A value reported by the operating system, or `unknown` when it gave none.
pub fn or_unknown(v: Option<String>) -> (r: String)
    ensures
        r@ == match v {
            Some(s) => s@,
            None => "unknown"@,
        },
{
    match v {
        Some(s) => s,
        None => to_owned_string("unknown"),
    }
}

/// What the operating system tells of one logical core.
#[derive(Debug)]
pub struct CoreReading {
    pub brand: String,
    pub vendor_id: String,
    pub frequency_mhz: u64,
}

impl CpuInfo {
    /// The processor as described by its first logical core (`unknown` and
    /// 0 MHz without one), with the core counts.
    pub fn from_cores(first: Option<CoreReading>, cores_physical: Option<usize>, cores_logical: usize) -> (c: CpuInfo)
        ensures
            c.brand@ == match first {
                Some(f) => f.brand@,
                None => "unknown"@,
            },
            c.vendor@ == match first {
                Some(f) => f.vendor_id@,
                None => "unknown"@,
            },
            c.frequency_mhz == match first {
                Some(f) => f.frequency_mhz,
                None => 0u64,
            },
            c.cores_physical == cores_physical,
            c.cores_logical == cores_logical,
    {
        match first {
            Some(f) => CpuInfo {
                brand: f.brand,
                vendor: f.vendor_id,
                cores_physical,
                cores_logical,
                frequency_mhz: f.frequency_mhz,
            },
            None => CpuInfo {
                brand: to_owned_string("unknown"),
                vendor: to_owned_string("unknown"),
                cores_physical,
                cores_logical,
                frequency_mhz: 0,
            },
        }
    }
}

impl NetInterface {
    /// An interface as the operating system lists it: a name and a MAC
    /// address; its IP addresses are not known there.
    pub fn new(name: String, mac: String) -> (n: NetInterface)
        ensures
            n.name == name,
            n.mac == mac,
            n.ips@.len() == 0,
    {
        NetInterface { name, mac, ips: Vec::new() }
    }
}

} // verus!
