//! Declarative output of a plugin's build phase.

use vstd::prelude::*;

verus! {

/// What a plugin asks the host to add to the application.
///
/// A plugin's build phase returns a list of `Contribution`s; the host
/// applies them after collecting them from all plugins.  The plugin never
/// touches the application directly.
#[derive(Clone, Debug)]
pub enum Contribution {
    /// Add a system to a schedule.
    System(SystemDecl),
    /// Add a resource with a default value.
    Resource(ResourceDecl),
    /// Add a known engine plugin, referenced by name.
    Plugin(&'static str),
    /// Reserve a service domain (prevents conflicts).
    ServiceDomain(String),
}

/// Describes a system to be added to a schedule.
///
/// The system function itself lives in the plugin and is called through
/// the host bridge at run time.
#[derive(Clone, Debug)]
pub struct SystemDecl {
    /// Schedule label (e.g. "Update", "FixedUpdate", "Startup").
    pub schedule: String,
    /// Human-readable system name for logging / debugging.
    pub name: String,
}

/// Describes a resource to be registered in the world.
#[derive(Clone, Debug)]
pub struct ResourceDecl {
    /// Type name for dynamic registration (the name of the resource type).
    pub resource_type: String,
    /// Serialised default value.
    pub default_value: Vec<u8>,
}

} // verus!
