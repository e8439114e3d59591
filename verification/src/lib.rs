//! AuDeep: an offline auditor of the local machine and its network.
//!
//! The library holds what the audit decides and computes: the subnet and
//! the hosts to probe, the vendor and ARP tables, port results and banners,
//! vulnerability matching, the report's HTML and the server's answers.
//! Reading the machine, the sockets, the clock and the files stay with the
//! program around it.
use vstd::prelude::*;

pub mod hardware;
pub mod json;
pub mod network;
pub mod report;
pub mod scanner;
pub mod serve;
pub mod sorting;
pub mod templates;
pub mod text;
pub mod vuln;

verus! {

} // verus!
