use vstd::prelude::*;

verus! {

/// Errors reported by membership validation and membership transitions.
#[derive(Debug, Clone, Copy, PartialEq, Eq, Structural)]
pub enum ConfigurationError {
    /// The configuration holds no server.
    EmptyConfiguration,
    /// A server has an empty id.
    EmptyIdInConfiguration,
    /// A server has an empty address.
    EmptyAddressInConfiguration,
    /// Two servers share an id.
    FoundDuplicateIdInConfiguration,
    /// Two servers share an address.
    FoundDuplicateAddressInConfiguration,
    /// No server has the `Voter` suffrage.
    NeedAtLeastOneVoterInConfiguration,
    /// A change request was computed against another configuration index.
    ConfigurationChanged,
    /// The change would produce an invalid configuration.
    NextConfigurationFailed,
    /// The change produced an unexpected configuration.
    NextConfigurationUnexpected,
}

} // verus!
