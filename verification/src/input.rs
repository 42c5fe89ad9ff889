//! Scan options as the command line and configuration deliver them.

use vstd::prelude::*;

verus! {

/// The order in which the ports of a scan are visited.
#[derive(Clone, Copy, Debug, PartialEq, Eq, Structural)]
pub enum ScanOrder {
    Serial,
    Random,
}

/// A closed range of ports, `start..=end`.
#[derive(Clone, Copy, Debug, PartialEq, Eq, Structural)]
pub struct PortRange {
    pub start: u16,
    pub end: u16,
}

/// Everything a scan is configured with.
#[derive(Debug)]
pub struct Opts {
    /// Targets as typed by the user, before resolution.
    pub addresses: Vec<String>,
    /// An explicit list of ports; takes precedence over `range`.
    pub ports: Option<Vec<u16>>,
    /// A closed range of ports.
    pub range: Option<PortRange>,
    /// Suppress progress output while scanning.
    pub greppable: bool,
    /// Rendering hint for screen readers.
    pub accessible: bool,
    /// Requested number of probes in flight.
    pub batch_size: u16,
    /// Per-probe deadline in milliseconds.
    pub timeout: u32,
    /// Number of passes over the endpoints not yet found open.
    pub tries: u8,
    /// Open-file limit the user asked for, if any.
    pub ulimit: Option<u64>,
    /// Serial or random port order.
    pub scan_order: ScanOrder,
    /// Seed of the random port order; drawn afresh by the caller when absent.
    pub seed: Option<u64>,
    /// Ports that must never be probed.
    pub exclude_ports: Option<Vec<u16>>,
}

impl Default for Opts {
    fn default() -> (opts: Self)
        ensures
            opts.addresses@.len() == 0,
            opts.ports is None,
            opts.range is None,
            opts.greppable,
            !opts.accessible,
            opts.batch_size == 0,
            opts.timeout == 0,
            opts.tries == 0,
            opts.ulimit is None,
            opts.scan_order == ScanOrder::Serial,
            opts.seed is None,
            opts.exclude_ports is None,
    {
        Opts {
            addresses: Vec::new(),
            ports: None,
            range: None,
            greppable: true,
            accessible: false,
            batch_size: 0,
            timeout: 0,
            tries: 0,
            ulimit: None,
            scan_order: ScanOrder::Serial,
            seed: None,
            exclude_ports: None,
        }
    }
}

} // verus!
