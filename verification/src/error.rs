//! Why a scan cannot be set up.

use vstd::prelude::*;

verus! {

/// A configuration that no scan can start from.
#[derive(Clone, Copy, Debug, PartialEq, Eq, Structural)]
pub enum ConfigError {
    /// There is no address to scan.
    NoTargets,
    /// The batch size is zero.
    InvalidBatchSize,
    /// The number of tries is zero.
    NoTries,
    /// A port range whose start lies above its end.
    MalformedRange,
    /// No port is left to probe.
    EmptyPortSet,
}

} // verus!
