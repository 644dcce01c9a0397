use vstd::prelude::*;

use crate::error::EngineError;

verus! {

/// Configuration for the engine: environment variables handed to the guest,
/// guest-to-host directory mappings, an optional allow-list of outbound HTTP
/// hosts, and the engine feature flags. Immutable after construction; consumed
/// by the template builder and by capability-context construction.
pub struct Config {
    pub vars: Vec<(String, String)>,
    pub preopen_dirs: Vec<(String, String)>,
    pub allowed_http_hosts: Option<Vec<String>>,
    pub multi_memory: bool,
    pub module_linking: bool,
}

impl Config {
    /// Build a configuration; the multi-memory and module-linking engine
    /// features are always enabled before any module is compiled.
    pub fn new(
        vars: Vec<(String, String)>,
        preopen_dirs: Vec<(String, String)>,
        allowed_http_hosts: Option<Vec<String>>,
    ) -> (r: Config)
        ensures
            r.vars == vars,
            r.preopen_dirs == preopen_dirs,
            r.allowed_http_hosts == allowed_http_hosts,
            r.multi_memory,
            r.module_linking,
    {
        Config { vars, preopen_dirs, allowed_http_hosts, multi_memory: true, module_linking: true }
    }
}

/// Parse a `key=value` command-line argument, splitting at the first `=`.
pub fn parse_env_var(s: &str) -> (r: Result<(String, String), EngineError>)
    ensures
        match r {
            Ok(kv) => exists|i: int|
                0 <= i < s@.len() && #[trigger] s@[i] == '=' && (forall|j: int|
                    0 <= j < i ==> s@[j] != '=') && kv.0@ == s@.subrange(0, i) && kv.1@
                    == s@.subrange(i + 1, s@.len() as int),
            Err(e) => e == EngineError::EnvVarSyntax && (forall|j: int|
                0 <= j < s@.len() ==> s@[j] != '='),
        },
{
    let n: usize = s.unicode_len();
    let mut i: usize = 0;
    while i < n
        invariant
            n == s@.len(),
            0 <= i <= n,
            forall|j: int| 0 <= j < i ==> s@[j] != '=',
        decreases n - i,
    {
        if s.get_char(i) == '=' {
            let key = s.substring_char(0, i).to_owned();
            let value = s.substring_char(i + 1, n).to_owned();
            return Ok((key, value));
        }
        i = i + 1;
    }
    Err(EngineError::EnvVarSyntax)
}

/// True when a `::` separator starts at position `i` of `s`.
pub open spec fn dsep_at(s: Seq<char>, i: int) -> bool {
    0 <= i && i + 2 <= s.len() && s[i] == ':' && s[i + 1] == ':'
}

/// Parse a `guest::host` directory-mapping argument. The argument must
/// contain exactly one `::` separator.
pub fn parse_map_dirs(s: &str) -> (r: Result<(String, String), EngineError>)
    ensures
        match r {
            Ok(kv) => exists|i: int|
                #[trigger] dsep_at(s@, i) && (forall|j: int| 0 <= j < i ==> !dsep_at(s@, j)) && (
                forall|j: int| i + 2 <= j ==> !dsep_at(s@, j)) && kv.0@ == s@.subrange(0, i)
                    && kv.1@ == s@.subrange(i + 2, s@.len() as int),
            Err(e) => e == EngineError::MapDirSyntax && ((forall|j: int| !dsep_at(s@, j)) || (
            exists|i: int, j: int| #[trigger] dsep_at(s@, i) && #[trigger] dsep_at(s@, j) && i + 2
                <= j)),
        },
{
    let n: usize = s.unicode_len();
    let mut i: usize = 0;
    let mut first: Option<usize> = None;
    while n >= 2 && i < n - 1
        invariant
            n == s@.len(),
            0 <= i <= n,
            match first {
                Some(f) => dsep_at(s@, f as int) && (forall|j: int|
                    0 <= j < f ==> !dsep_at(s@, j)) && f + 2 <= i && (forall|j: int|
                    f + 2 <= j < i ==> !dsep_at(s@, j)),
                None => forall|j: int| 0 <= j < i ==> !dsep_at(s@, j),
            },
        decreases n - i,
    {
        if s.get_char(i) == ':' && s.get_char(i + 1) == ':' {
            match first {
                None => {
                    first = Some(i);
                    i = i + 2;
                },
                Some(f) => {
                    assert(dsep_at(s@, f as int) && dsep_at(s@, i as int) && f + 2 <= i);
                    return Err(EngineError::MapDirSyntax);
                },
            }
        } else {
            i = i + 1;
        }
    }
    match first {
        Some(f) => {
            assert(forall|j: int| f + 2 <= j ==> !dsep_at(s@, j));
            let guest = s.substring_char(0, f).to_owned();
            let host = s.substring_char(f + 2, n).to_owned();
            Ok((guest, host))
        },
        None => {
            assert(forall|j: int| !dsep_at(s@, j));
            Err(EngineError::MapDirSyntax)
        },
    }
}

/// Combine plain directory grants (mapped to themselves) with explicit
/// guest-to-host mappings into the pre-open list handed to the engine.
pub fn compute_preopen_dirs(dirs: Vec<String>, map_dirs: Vec<(String, String)>) -> (r: Result<
    Vec<(String, String)>,
    EngineError,
>)
    ensures
        match r {
            Ok(v) => {
                &&& v@.len() == dirs@.len() + map_dirs@.len()
                &&& forall|i: int|
                    0 <= i < dirs@.len() ==> (#[trigger] v@[i]).0@ == dirs@[i]@ && v@[i].1@
                        == dirs@[i]@
                &&& forall|i: int|
                    0 <= i < map_dirs@.len() ==> (#[trigger] v@[dirs@.len() + i]).0@
                        == map_dirs@[i].0@ && v@[dirs@.len() + i].1@ == map_dirs@[i].1@
            },
            Err(_) => false,
        },
{
    let mut preopen_dirs: Vec<(String, String)> = Vec::new();
    let mut i: usize = 0;
    while i < dirs.len()
        invariant
            0 <= i <= dirs@.len(),
            preopen_dirs@.len() == i,
            forall|k: int|
                0 <= k < i ==> (#[trigger] preopen_dirs@[k]).0@ == dirs@[k]@ && preopen_dirs@[k].1@
                    == dirs@[k]@,
        decreases dirs@.len() - i,
    {
        let d1 = dirs[i].clone();
        let d2 = dirs[i].clone();
        preopen_dirs.push((d1, d2));
        i = i + 1;
    }
    let mut j: usize = 0;
    while j < map_dirs.len()
        invariant
            0 <= j <= map_dirs@.len(),
            preopen_dirs@.len() == dirs@.len() + j,
            forall|k: int|
                0 <= k < dirs@.len() ==> (#[trigger] preopen_dirs@[k]).0@ == dirs@[k]@
                    && preopen_dirs@[k].1@ == dirs@[k]@,
            forall|k: int|
                0 <= k < j ==> (#[trigger] preopen_dirs@[dirs@.len() + k]).0@ == map_dirs@[k].0@
                    && preopen_dirs@[dirs@.len() + k].1@ == map_dirs@[k].1@,
        decreases map_dirs@.len() - j,
    {
        let guest = map_dirs[j].0.clone();
        let host = map_dirs[j].1.clone();
        preopen_dirs.push((guest, host));
        j = j + 1;
    }
    Ok(preopen_dirs)
}

} // verus!
