use vstd::prelude::*;

verus! {

/// Why a configuration fragment could not be turned into a descriptor.
///
/// A descriptor constructor reports the first required field that is
/// absent, in the order the fields are checked.
#[derive(Debug, Clone, Copy, PartialEq, Eq, Structural)]
pub enum ConfigError {
    MissingName,
    MissingServer,
    MissingVersion,
}

/// Why an assembled output tree could not be produced.
#[derive(Debug, PartialEq, Eq)]
pub enum BuildError {
    /// No tier of the plugin search space holds an artifact for this plugin.
    PluginNotFound(String),
    /// The server package does not contain its primary executable artifact.
    MissingServerArtifact,
}

} // verus!
