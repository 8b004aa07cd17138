//! Failures reported by the runtime.

use vstd::prelude::*;

verus! {

/// Why a dotted name could not be resolved to a symbol.
#[derive(Clone, Copy, Debug, PartialEq, Eq)]
pub enum ImportError {
    /// The name is the empty string.
    EmptyName,
    /// No module of that name is known to the resolver.
    ModuleNotFound,
    /// The module is known but has no such member.
    MemberNotFound,
}

/// Why a schema document was rejected.
#[derive(Clone, Copy, Debug, PartialEq, Eq)]
pub enum SchemaError {
    /// The document has no top-level `container` mapping.
    MissingContainer,
    /// A node does not have the shape its position requires.
    InvalidNode,
    /// The name given as a provider class resolves to something else.
    NotAProviderClass,
    /// The provider class could not be imported; the cause is attached.
    ImportFailed(ImportError),
}

/// Every failure the runtime can report.
#[derive(Clone, Copy, Debug, PartialEq, Eq)]
pub enum Error {
    /// A provider was offered to a container whose provider type it does not satisfy.
    WrongProviderType,
    /// A provider or container was asked to override itself.
    SelfOverrideError,
    /// A reset was requested on an empty override stack.
    NotOverriddenError,
    /// A name, a path or an identity names no registered provider.
    ProviderNotFound,
    /// The schema document cannot be processed.
    SchemaError(SchemaError),
    /// The parent links of a container lead back to a container already passed.
    CyclicParentError,
}

} // verus!
