//! Health of the service containers, as shown in the user interface.

use vstd::prelude::*;

verus! {

/// The state of one service container.
#[derive(Debug, Clone, PartialEq, Eq, PartialOrd, Ord, Hash)]
pub struct ContainerHealthUi {
    /// Container id.
    pub container_id: String,
    /// Container name.
    pub container_name: String,
    /// Whether the container runs, as reported.
    pub container_running: String,
    /// Health of the container, as reported.
    pub container_health: String,
}

} // verus!
