use vstd::prelude::*;

use crate::config::compute_preopen_dirs;
use crate::config::Config;
use crate::error::EngineError;

verus! {

/// The HTTP command's settings: the listen address and the interface name
/// the entrypoint component implements.
pub struct HttpCmd {
    pub address: String,
    pub interface: String,
}

/// The ping command's settings: the timer interval in seconds.
pub struct PingCmd {
    pub interval_seconds: u64,
}

/// Which workload to run.
pub enum SubCommand {
    Http(HttpCmd),
    Ping(PingCmd),
}

/// The program's parsed options: environment variables, directory grants,
/// the optional outbound-host allow-list, the module path, and the chosen
/// workload.
pub struct Opt {
    pub vars: Vec<(String, String)>,
    pub dirs: Vec<String>,
    pub map_dirs: Vec<(String, String)>,
    pub allowed_hosts: Option<Vec<String>>,
    pub module: String,
    pub cmd: SubCommand,
}

impl Opt {
    /// Assemble the engine configuration from the parsed options: plain
    /// directory grants map to themselves, explicit mappings follow, and
    /// the engine feature flags are always enabled.
    pub fn to_config(&self, vars: Vec<(String, String)>, allowed_hosts: Option<Vec<String>>) -> (r:
        Result<Config, EngineError>)
        ensures
            match r {
                Ok(c) => {
                    &&& c.vars == vars
                    &&& c.allowed_http_hosts == allowed_hosts
                    &&& c.multi_memory
                    &&& c.module_linking
                    &&& c.preopen_dirs@.len() == self.dirs@.len() + self.map_dirs@.len()
                    &&& forall|i: int|
                        0 <= i < self.dirs@.len() ==> (#[trigger] c.preopen_dirs@[i]).0@
                            == self.dirs@[i]@ && c.preopen_dirs@[i].1@ == self.dirs@[i]@
                    &&& forall|i: int|
                        0 <= i < self.map_dirs@.len() ==> (#[trigger] c.preopen_dirs@[self.dirs@.len()
                            + i]).0@ == self.map_dirs@[i].0@ && c.preopen_dirs@[self.dirs@.len()
                            + i].1@ == self.map_dirs@[i].1@
                },
                Err(_) => false,
            },
    {
        let dirs = crate::engine::clone_strings(&self.dirs);
        let map_dirs = crate::engine::clone_string_pairs(&self.map_dirs);
        let ghost dirs_v = dirs@;
        let ghost map_dirs_v = map_dirs@;
        let preopens = match compute_preopen_dirs(dirs, map_dirs) {
            Ok(p) => p,
            Err(e) => {
                return Err(e);
            },
        };
        proof {
            assert forall|i: int|
                0 <= i < self.dirs@.len() implies (#[trigger] dirs_v[i])@ == self.dirs@[i]@ by {
                assert(crate::engine::strings_view(dirs_v)[i] == dirs_v[i]@);
                assert(crate::engine::strings_view(self.dirs@)[i] == self.dirs@[i]@);
            }
            assert forall|i: int|
                0 <= i < self.map_dirs@.len() implies (#[trigger] map_dirs_v[i]).0@
                == self.map_dirs@[i].0@ && map_dirs_v[i].1@ == self.map_dirs@[i].1@ by {
                assert(crate::engine::pairs_view(map_dirs_v)[i] == (
                    map_dirs_v[i].0@,
                    map_dirs_v[i].1@,
                ));
                assert(crate::engine::pairs_view(self.map_dirs@)[i] == (
                    self.map_dirs@[i].0@,
                    self.map_dirs@[i].1@,
                ));
            }
        }
        Ok(Config::new(vars, preopens, allowed_hosts))
    }
}

} // verus!
