//! Static run parameters, read once from the persisted job document.

use vstd::prelude::*;

verus! {

/// The operator-supplied configuration of a run. The image, size, region
/// and credential identifiers are passed through opaquely to the
/// provisioning and transport collaborators.
#[derive(Clone, Debug)]
pub struct Config {
    /// Upper bound on the machine pool size.
    pub max_machines: usize,
    /// Number of task slots on every machine.
    pub tasks_per_machine: usize,
    /// Naming prefix for provisioned machines.
    pub name: String,
    pub image: String,
    pub size: String,
    pub region: String,
    pub ssh_key: String,
    pub ssh_user: String,
    /// Command run once per machine after the bootstrap copy.
    pub install_cmd: String,
    /// Seconds between successive probes of the same slot.
    pub check_interval: u64,
    /// When set, results are synced on every probe, not only on completion.
    pub fetch_partial_results: bool,
}

} // verus!
