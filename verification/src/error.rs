use vstd::prelude::*;

verus! {

/// Why the registry turned an operation down. A refused operation changes nothing.
#[derive(Clone, Copy, Debug, PartialEq, Eq, Structural)]
pub enum RegistryError {
    /// The identity is not registered. Callers that race against removals may ignore it.
    MissingEntity,
    /// The identity to register is registered already.
    DuplicateIdentity,
    /// Going on would leave the indexes in disagreement with each other or with the
    /// kernel. It shows a fault in the caller or the kernel and is not to be papered over.
    InvariantViolation,
}

} // verus!
