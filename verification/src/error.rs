use vstd::prelude::*;

verus! {

/// Errors raised by the execution engine and its marshalling layer.
///
/// The variants follow the runtime's error taxonomy: build-fatal errors
/// (`InvalidModule`, `MissingImport`, `DirectoryNotAvailable`), per-invocation
/// errors (`MissingExport`, `GuestTrap`, `OutOfBounds`, `AllocFailed`,
/// `NotLive`, `InvalidUtf8`, `InvalidVariant`, `BadInt`, `SizeOverflow`),
/// policy rejections (`HostNotAllowed`), boundary violations
/// (`InvalidHeaderName`, `InvalidHeaderValue`, `MalformedHeader`), and
/// configuration-surface errors (`EnvVarSyntax`, `MapDirSyntax`,
/// `NotConfigured`).
#[derive(Clone, Copy, Debug, PartialEq, Eq, Structural)]
pub enum EngineError {
    /// The guest binary is malformed or uses an unsupported feature.
    InvalidModule,
    /// The module needs an import that no registered capability provides.
    MissingImport,
    /// A host directory named in the configuration cannot be opened.
    DirectoryNotAvailable,
    /// A required export is absent from the instantiated module.
    MissingExport,
    /// The guest signalled a trap while executing.
    GuestTrap,
    /// A pointer/length pair crossing the boundary fell outside linear memory.
    OutOfBounds,
    /// The guest allocator could not satisfy an allocation request.
    AllocFailed,
    /// A deallocation was requested for a buffer that is not live.
    NotLive,
    /// Guest-produced bytes that must be a string are not valid UTF-8.
    InvalidUtf8,
    /// An enumerated value's integer tag lies outside the known range.
    InvalidVariant,
    /// An integer crossing the boundary does not fit its target type.
    BadInt,
    /// A size computation exceeded the addressable range.
    SizeOverflow,
    /// A header name contains a control or separator character.
    InvalidHeaderName,
    /// A header value contains a control character.
    InvalidHeaderValue,
    /// A serialized header pair lacks the name/value separator.
    MalformedHeader,
    /// The outbound host is not on the configured allow-list.
    HostNotAllowed,
    /// An accessor reached into a capability that was not configured.
    NotConfigured,
    /// An environment-variable argument is not of the form `key=value`.
    EnvVarSyntax,
    /// A directory-mapping argument does not contain exactly one `::`.
    MapDirSyntax,
}

/// A trap reported by guest code: the guest aborted or faulted, carrying no
/// further detail across the boundary.
#[derive(Clone, Copy, Debug, PartialEq, Eq, Structural)]
pub struct GuestTrap {
}

} // verus!
