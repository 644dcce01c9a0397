use vstd::prelude::*;

verus! {

/// Paths the registry-fetch collaborator uses: a component reference is
/// downloaded and linked into a cache directory, and the linked entrypoint
/// is written next to it. The download and the linking themselves are the
/// collaborator's work; this type fixes where their results live.
pub struct RegistryHelper {
}

impl RegistryHelper {
    /// The cache directory component downloads are linked under.
    pub fn cache_dir() -> (r: String)
        ensures
            r@ == ".wasi"@,
    {
        String::from_str(".wasi")
    }

    /// The working directory one linking pass uses.
    pub fn linking_path() -> (r: String)
        ensures
            r@ == ".wasi"@ + "/_linking"@,
    {
        Self::cache_dir().concat("/_linking")
    }

    /// Where the linked entrypoint module is written, and the only path the
    /// execution engine accepts from the registry collaborator.
    pub fn entrypoint_path() -> (r: String)
        ensures
            r@ == ".wasi"@ + "/_linking"@ + "/entrypoint.wasm"@,
    {
        Self::linking_path().concat("/entrypoint.wasm")
    }
}

} // verus!
