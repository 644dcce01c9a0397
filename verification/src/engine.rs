use vstd::prelude::*;

use crate::config::Config;
use crate::error::EngineError;
use crate::memory::GuestMemory;
use crate::outbound_http::HttpCtx;

verus! {

/// One family of host capabilities that can be registered into the linking
/// table.
#[derive(Clone, Copy, Debug, PartialEq, Eq, Structural)]
pub enum CapabilityFamily {
    /// Filesystem, clock and standard-stream operations.
    Wasi,
    /// The outbound-HTTP fetch import, gated by the host allow-list.
    ExperimentalHttp,
    /// The session-scoped numeric-inference import.
    Nn,
}

/// The view-level pairs of a list of string pairs.
pub open spec fn pairs_view(v: Seq<(String, String)>) -> Seq<(Seq<char>, Seq<char>)> {
    v.map_values(|p: (String, String)| (p.0@, p.1@))
}

/// Copy a list of string pairs, preserving order and contents.
pub fn clone_string_pairs(v: &Vec<(String, String)>) -> (r: Vec<(String, String)>)
    ensures
        pairs_view(r@) == pairs_view(v@),
        r@.len() == v@.len(),
{
    let mut out: Vec<(String, String)> = Vec::new();
    let mut i: usize = 0;
    while i < v.len()
        invariant
            0 <= i <= v@.len(),
            out@.len() == i,
            forall|j: int|
                0 <= j < i ==> (#[trigger] out@[j]).0@ == v@[j].0@ && out@[j].1@ == v@[j].1@,
        decreases v@.len() - i,
    {
        let a = v[i].0.clone();
        let b = v[i].1.clone();
        out.push((a, b));
        i = i + 1;
    }
    proof {
        assert(pairs_view(out@) =~= pairs_view(v@));
    }
    out
}

/// The view-level strings of a list of strings.
pub open spec fn strings_view(v: Seq<String>) -> Seq<Seq<char>> {
    v.map_values(|s: String| s@)
}

/// Copy a list of strings, preserving order and contents.
pub fn clone_strings(v: &Vec<String>) -> (r: Vec<String>)
    ensures
        strings_view(r@) == strings_view(v@),
        r@.len() == v@.len(),
{
    let mut out: Vec<String> = Vec::new();
    let mut i: usize = 0;
    while i < v.len()
        invariant
            0 <= i <= v@.len(),
            out@.len() == i,
            forall|j: int| 0 <= j < i ==> (#[trigger] out@[j])@ == v@[j]@,
        decreases v@.len() - i,
    {
        let a = v[i].clone();
        out.push(a);
        i = i + 1;
    }
    proof {
        assert(strings_view(out@) =~= strings_view(v@));
    }
    out
}

impl Config {
    /// Copy this configuration, preserving every grant and flag.
    pub fn duplicate(&self) -> (r: Config)
        ensures
            config_view_eq(r, *self),
    {
        let allowed = match &self.allowed_http_hosts {
            Option::Some(hosts) => Option::Some(clone_strings(hosts)),
            Option::None => Option::None,
        };
        Config {
            vars: clone_string_pairs(&self.vars),
            preopen_dirs: clone_string_pairs(&self.preopen_dirs),
            allowed_http_hosts: allowed,
            multi_memory: self.multi_memory,
            module_linking: self.module_linking,
        }
    }
}

impl Default for Config {
    /// An empty configuration: no grants, no allow-list, engine features at
    /// their defaults.
    fn default() -> (r: Config)
        ensures
            r.vars@.len() == 0,
            r.preopen_dirs@.len() == 0,
            r.allowed_http_hosts is None,
            !r.multi_memory,
            !r.module_linking,
    {
        Config {
            vars: Vec::new(),
            preopen_dirs: Vec::new(),
            allowed_http_hosts: Option::None,
            multi_memory: false,
            module_linking: false,
        }
    }
}

/// Two configurations grant exactly the same capabilities.
pub open spec fn config_view_eq(a: Config, b: Config) -> bool {
    &&& pairs_view(a.vars@) == pairs_view(b.vars@)
    &&& pairs_view(a.preopen_dirs@) == pairs_view(b.preopen_dirs@)
    &&& match (a.allowed_http_hosts, b.allowed_http_hosts) {
        (Option::None, Option::None) => true,
        (Option::Some(x), Option::Some(y)) => strings_view(x@) == strings_view(y@),
        _ => false,
    }
    &&& a.multi_memory == b.multi_memory
    &&& a.module_linking == b.module_linking
}

/// The capability binder's linking table: which families are registered,
/// under which import namespace, plus the outbound-HTTP context bound at
/// build time. A later registration of the same namespace shadows an
/// earlier one rather than failing.
pub struct LinkerTable {
    pub entries: Vec<(String, CapabilityFamily)>,
    pub http_ctx: Option<HttpCtx>,
}

/// The family a namespace resolves to: the most recent registration wins.
pub open spec fn resolve_spec(entries: Seq<(String, CapabilityFamily)>, ns: Seq<char>) -> Option<
    CapabilityFamily,
>
    decreases entries.len(),
{
    if entries.len() == 0 {
        Option::None
    } else if entries.last().0@ == ns {
        Option::Some(entries.last().1)
    } else {
        resolve_spec(entries.drop_last(), ns)
    }
}

impl LinkerTable {
    /// An empty linking table.
    pub fn new() -> (r: LinkerTable)
        ensures
            r.entries@ == Seq::<(String, CapabilityFamily)>::empty(),
            r.http_ctx is None,
    {
        LinkerTable { entries: Vec::new(), http_ctx: Option::None }
    }

    /// Register one capability family under an import namespace; an existing
    /// registration of the same namespace is shadowed, not rejected.
    pub fn register(&mut self, namespace: String, family: CapabilityFamily)
        ensures
            final (self).entries@ == old(self).entries@.push((namespace, family)),
            final (self).http_ctx == old(self).http_ctx,
    {
        self.entries.push((namespace, family));
    }

    /// The family serving `ns`, following shadowing order.
    pub fn resolve(&self, ns: &str) -> (r: Option<CapabilityFamily>)
        ensures
            r == resolve_spec(self.entries@, ns@),
    {
        let n = self.entries.len();
        let mut i: usize = n;
        proof {
            lemma_resolve_suffix(self.entries@, ns@, n as int);
        }
        while i > 0
            invariant
                0 <= i <= self.entries@.len(),
                resolve_spec(self.entries@, ns@) == resolve_spec(
                    self.entries@.subrange(0, i as int),
                    ns@,
                ),
            decreases i,
        {
            let target = String::from_str(ns);
            if self.entries[i - 1].0 == target {
                proof {
                    assert(self.entries@.subrange(0, i as int).last() == self.entries@[i - 1]);
                }
                return Option::Some(self.entries[i - 1].1);
            }
            proof {
                assert(self.entries@.subrange(0, i as int).last() == self.entries@[i - 1]);
                assert(self.entries@.subrange(0, i as int).drop_last() =~= self.entries@.subrange(
                    0,
                    i as int - 1,
                ));
            }
            i = i - 1;
        }
        proof {
            assert(self.entries@.subrange(0, 0) =~= Seq::<(String, CapabilityFamily)>::empty());
        }
        Option::None
    }
}

/// Trivial helper: resolution over the whole table equals resolution over
/// its full prefix.
proof fn lemma_resolve_suffix(entries: Seq<(String, CapabilityFamily)>, ns: Seq<char>, n: int)
    requires
        n == entries.len(),
    ensures
        resolve_spec(entries, ns) == resolve_spec(entries.subrange(0, n), ns),
{
    assert(entries.subrange(0, n) =~= entries);
}

/// The shape of one export, as the pre-instantiation pass resolves it: a
/// function with its flat parameter and result counts, a linear memory, or
/// something else (tolerated, never required).
#[derive(Clone, Copy, Debug, PartialEq, Eq, Structural)]
pub enum ExportSig {
    Func(u32, u32),
    Memory,
    Other,
}

/// What the template builder reads of a compiled module: the namespaces it
/// imports, its exports with their shapes, and its linear memory size. The
/// compilation itself is the work of the external WebAssembly virtual
/// machine.
pub struct ModuleInfo {
    pub imports: Vec<String>,
    pub exports: Vec<(String, ExportSig)>,
    pub memory_size: u32,
}

/// The per-invocation OS capability context: environment variables and
/// pre-opened directory grants, re-derived from the configuration for every
/// call.
pub struct WasiCtx {
    pub vars: Vec<(String, String)>,
    pub preopen_dirs: Vec<(String, String)>,
}

/// The per-invocation numeric-inference session; state for an in-progress
/// session lives here, never in the binder.
#[derive(Clone, Copy, Debug, PartialEq, Eq, Structural)]
pub struct WasiNnTractCtx {
    pub sessions: u64,
}

/// The capability context backing one invocation: optional OS capabilities,
/// an optional inference session, and the caller's typed payload. Created
/// fresh for every invocation, dropped when the invocation ends, never
/// shared between two invocations.
pub struct Context<T> {
    pub wasi_ctx: Option<WasiCtx>,
    pub nn_ctx: Option<WasiNnTractCtx>,
    pub runtime_data: Option<T>,
}

impl<T> Context<T> {
    /// The OS capability context backing this invocation; an invocation
    /// without one gets an explicit error, never a panic.
    pub fn wasi(&mut self) -> (r: Result<&mut WasiCtx, EngineError>)
        ensures
            match r {
                Ok(w) => {
                    &&& old(self).wasi_ctx == Option::Some(*w)
                    &&& final (self).wasi_ctx == Option::Some(*final (w))
                    &&& final (self).nn_ctx == old(self).nn_ctx
                    &&& final (self).runtime_data == old(self).runtime_data
                },
                Err(e) => {
                    &&& e == EngineError::NotConfigured
                    &&& old(self).wasi_ctx is None
                    &&& *final (self) == *old(self)
                },
            },
    {
        match &mut self.wasi_ctx {
            Option::Some(w) => Ok(w),
            Option::None => Err(EngineError::NotConfigured),
        }
    }

    /// The inference session backing this invocation; an invocation without
    /// one gets an explicit error, never a panic.
    pub fn nn(&mut self) -> (r: Result<&mut WasiNnTractCtx, EngineError>)
        ensures
            match r {
                Ok(w) => {
                    &&& old(self).nn_ctx == Option::Some(*w)
                    &&& final (self).nn_ctx == Option::Some(*final (w))
                    &&& final (self).wasi_ctx == old(self).wasi_ctx
                    &&& final (self).runtime_data == old(self).runtime_data
                },
                Err(e) => {
                    &&& e == EngineError::NotConfigured
                    &&& old(self).nn_ctx is None
                    &&& *final (self) == *old(self)
                },
            },
    {
        match &mut self.nn_ctx {
            Option::Some(w) => Ok(w),
            Option::None => Err(EngineError::NotConfigured),
        }
    }

    /// The caller-supplied typed payload; an invocation without one gets an
    /// explicit error, never a panic.
    pub fn data(&mut self) -> (r: Result<&mut T, EngineError>)
        ensures
            match r {
                Ok(w) => {
                    &&& old(self).runtime_data == Option::Some(*w)
                    &&& final (self).runtime_data == Option::Some(*final (w))
                    &&& final (self).wasi_ctx == old(self).wasi_ctx
                    &&& final (self).nn_ctx == old(self).nn_ctx
                },
                Err(e) => {
                    &&& e == EngineError::NotConfigured
                    &&& old(self).runtime_data is None
                    &&& *final (self) == *old(self)
                },
            },
    {
        match &mut self.runtime_data {
            Option::Some(w) => Ok(w),
            Option::None => Err(EngineError::NotConfigured),
        }
    }
}

/// A fresh capability context derived from `c` and the payload alone: the
/// environment and directory grants re-derived from the configuration, a
/// fresh inference session, and the caller's payload.
pub open spec fn context_fresh<T>(ctx: Context<T>, c: Config, data: Option<T>) -> bool {
    &&& match ctx.wasi_ctx {
        Option::Some(w) => pairs_view(w.vars@) == pairs_view(c.vars@) && pairs_view(
            w.preopen_dirs@,
        ) == pairs_view(c.preopen_dirs@),
        Option::None => false,
    }
    &&& ctx.nn_ctx == Option::Some(WasiNnTractCtx { sessions: 0 })
    &&& ctx.runtime_data == data
}

/// A fresh linear memory for one invocation: zeroed, with no live heap
/// allocations.
pub open spec fn memory_fresh(mem: GuestMemory, size: u32) -> bool {
    &&& mem@.len() == size
    &&& forall|i: int| 0 <= i < size ==> mem@[i] == 0
    &&& mem.live_view() == Seq::<(u32, u32)>::empty()
}

/// All of a module's imports resolve against the table.
pub open spec fn imports_resolved(imports: Seq<String>, entries: Seq<(String, CapabilityFamily)>) -> bool {
    forall|i: int|
        0 <= i < imports.len() ==> resolve_spec(entries, (#[trigger] imports[i])@) is Some
}

/// A builder that configures the engine and registers capability families
/// before the entrypoint module is pre-instantiated.
pub struct WasiExecutionContextBuilder {
    pub config: Config,
    pub linker: LinkerTable,
}

impl WasiExecutionContextBuilder {
    /// Start a builder from a configuration; the linking table starts
    /// empty.
    pub fn new(config: &Config) -> (r: Result<WasiExecutionContextBuilder, EngineError>)
        ensures
            match r {
                Ok(b) => config_view_eq(b.config, *config) && b.linker.entries@
                    == Seq::<(String, CapabilityFamily)>::empty() && b.linker.http_ctx is None,
                Err(_) => false,
            },
    {
        Ok(WasiExecutionContextBuilder { config: config.duplicate(), linker: LinkerTable::new() })
    }

    /// Start a builder from the empty configuration.
    pub fn default() -> (r: Result<WasiExecutionContextBuilder, EngineError>)
        ensures
            match r {
                Ok(b) => {
                    &&& b.config.vars@.len() == 0
                    &&& b.config.preopen_dirs@.len() == 0
                    &&& b.config.allowed_http_hosts is None
                    &&& b.linker.entries@ == Seq::<(String, CapabilityFamily)>::empty()
                },
                Err(_) => false,
            },
    {
        let config = Config::default();
        let b = match Self::new(&config) {
            Ok(b) => b,
            Err(e) => {
                return Err(e);
            },
        };
        proof {
            assert(pairs_view(b.config.vars@).len() == b.config.vars@.len());
            assert(pairs_view(config.vars@).len() == config.vars@.len());
            assert(pairs_view(b.config.preopen_dirs@).len() == b.config.preopen_dirs@.len());
            assert(pairs_view(config.preopen_dirs@).len() == config.preopen_dirs@.len());
        }
        Ok(b)
    }

    /// Build a template from the empty configuration with every capability
    /// family registered.
    pub fn build_default<T>(entrypoint_path: String, module: ModuleInfo) -> (r: Result<
        WasiExecutionContext<T>,
        EngineError,
    >)
        ensures
            match r {
                Ok(t) => t.module == module && t.entrypoint_path == entrypoint_path,
                Err(e) => e == EngineError::MissingImport,
            },
    {
        let mut builder = match Self::default() {
            Ok(b) => b,
            Err(e) => {
                return Err(e);
            },
        };
        match builder.add_all() {
            Ok(_) => {},
            Err(e) => {
                return Err(e);
            },
        }
        builder.build(entrypoint_path, module)
    }

    /// Register the core OS capability family, scoped to exactly the
    /// configured directory grants.
    pub fn add_wasi(&mut self) -> (r: Result<(), EngineError>)
        ensures
            r is Ok,
            final (self).config == old(self).config,
            final (self).linker.entries@.len() == old(self).linker.entries@.len() + 1,
            final (self).linker.entries@.drop_last() == old(self).linker.entries@,
            final (self).linker.entries@.last().0@ == "wasi_snapshot_preview1"@,
            final (self).linker.entries@.last().1 == CapabilityFamily::Wasi,
            final (self).linker.http_ctx == old(self).linker.http_ctx,
    {
        let ghost before = self.linker.entries@;
        self.linker.register(String::from_str("wasi_snapshot_preview1"), CapabilityFamily::Wasi);
        proof {
            assert(self.linker.entries@.drop_last() =~= before);
        }
        Ok(())
    }

    /// Register the outbound-HTTP family, binding the configured host
    /// allow-list into the import at build time.
    pub fn add_experimental_http(&mut self) -> (r: Result<(), EngineError>)
        ensures
            r is Ok,
            final (self).config == old(self).config,
            final (self).linker.entries@.len() == old(self).linker.entries@.len() + 1,
            final (self).linker.entries@.drop_last() == old(self).linker.entries@,
            final (self).linker.entries@.last().0@ == "wasi_experimental_http"@,
            final (self).linker.entries@.last().1 == CapabilityFamily::ExperimentalHttp,
            match final (self).linker.http_ctx {
                Option::Some(h) => {
                    &&& h.max_concurrent_requests is None
                    &&& match (h.allowed_hosts, old(self).config.allowed_http_hosts) {
                        (Option::None, Option::None) => true,
                        (Option::Some(x), Option::Some(y)) => strings_view(x@) == strings_view(
                            y@,
                        ),
                        _ => false,
                    }
                },
                Option::None => false,
            },
    {
        let allowed = match &self.config.allowed_http_hosts {
            Option::Some(hosts) => Option::Some(clone_strings(hosts)),
            Option::None => Option::None,
        };
        let http = HttpCtx::new(allowed, Option::None);
        self.linker.http_ctx = Option::Some(http);
        let ghost before = self.linker.entries@;
        self.linker.register(
            String::from_str("wasi_experimental_http"),
            CapabilityFamily::ExperimentalHttp,
        );
        proof {
            assert(self.linker.entries@.drop_last() =~= before);
        }
        Ok(())
    }

    /// Register the numeric-inference family; session state will live in
    /// each invocation's capability context, not in the binder.
    pub fn add_nn(&mut self) -> (r: Result<(), EngineError>)
        ensures
            r is Ok,
            final (self).config == old(self).config,
            final (self).linker.entries@.len() == old(self).linker.entries@.len() + 1,
            final (self).linker.entries@.drop_last() == old(self).linker.entries@,
            final (self).linker.entries@.last().0@ == "wasi_ephemeral_nn"@,
            final (self).linker.entries@.last().1 == CapabilityFamily::Nn,
            final (self).linker.http_ctx == old(self).linker.http_ctx,
    {
        let ghost before = self.linker.entries@;
        self.linker.register(String::from_str("wasi_ephemeral_nn"), CapabilityFamily::Nn);
        proof {
            assert(self.linker.entries@.drop_last() =~= before);
        }
        Ok(())
    }

    /// Register every available capability family: core OS capabilities,
    /// outbound HTTP, and numeric inference.
    pub fn add_all(&mut self) -> (r: Result<(), EngineError>)
        ensures
            r is Ok,
            final (self).config == old(self).config,
            final (self).linker.entries@.len() == old(self).linker.entries@.len() + 3,
            resolve_spec(final (self).linker.entries@, "wasi_snapshot_preview1"@)
                == Option::Some(CapabilityFamily::Wasi),
            resolve_spec(final (self).linker.entries@, "wasi_experimental_http"@)
                == Option::Some(CapabilityFamily::ExperimentalHttp),
            resolve_spec(final (self).linker.entries@, "wasi_ephemeral_nn"@) == Option::Some(
                CapabilityFamily::Nn,
            ),
    {
        self.add_wasi()?;
        self.add_experimental_http()?;
        self.add_nn()?;
        proof {
            reveal_strlit("wasi_snapshot_preview1");
            reveal_strlit("wasi_experimental_http");
            reveal_strlit("wasi_ephemeral_nn");
            let e3 = self.linker.entries@;
            let e2 = e3.drop_last();
            let e1 = e2.drop_last();
            assert("wasi_snapshot_preview1"@[5] == 's' && "wasi_experimental_http"@[5] == 'e');
            assert("wasi_ephemeral_nn"@.len() == 17 && "wasi_snapshot_preview1"@.len() == 22);
            assert(resolve_spec(e3, "wasi_ephemeral_nn"@) == Option::Some(CapabilityFamily::Nn));
            assert(resolve_spec(e3, "wasi_experimental_http"@) == resolve_spec(
                e2,
                "wasi_experimental_http"@,
            ));
            assert(resolve_spec(e2, "wasi_experimental_http"@) == Option::Some(
                CapabilityFamily::ExperimentalHttp,
            ));
            assert(resolve_spec(e3, "wasi_snapshot_preview1"@) == resolve_spec(
                e2,
                "wasi_snapshot_preview1"@,
            ));
            assert(resolve_spec(e2, "wasi_snapshot_preview1"@) == resolve_spec(
                e1,
                "wasi_snapshot_preview1"@,
            ));
            assert(resolve_spec(e1, "wasi_snapshot_preview1"@) == Option::Some(
                CapabilityFamily::Wasi,
            ));
        }
        Ok(())
    }

    /// Build the immutable template: resolve every import of the entrypoint
    /// module against the registered capabilities. An unresolved import is
    /// build-fatal; unknown extra exports are tolerated.
    pub fn build<T>(self, entrypoint_path: String, module: ModuleInfo) -> (r: Result<
        WasiExecutionContext<T>,
        EngineError,
    >)
        ensures
            match r {
                Ok(t) => {
                    &&& imports_resolved(module.imports@, self.linker.entries@)
                    &&& t.config == self.config
                    &&& t.module == module
                    &&& t.entrypoint_path == entrypoint_path
                },
                Err(e) => e == EngineError::MissingImport && !imports_resolved(
                    module.imports@,
                    self.linker.entries@,
                ),
            },
    {
        let mut i: usize = 0;
        while i < module.imports.len()
            invariant
                0 <= i <= module.imports@.len(),
                forall|j: int|
                    0 <= j < i ==> resolve_spec(
                        self.linker.entries@,
                        (#[trigger] module.imports@[j])@,
                    ) is Some,
            decreases module.imports@.len() - i,
        {
            match self.linker.resolve(module.imports[i].as_str()) {
                Option::Some(_) => {},
                Option::None => {
                    proof {
                        assert(!imports_resolved(module.imports@, self.linker.entries@));
                    }
                    return Err(EngineError::MissingImport);
                },
            }
            i = i + 1;
        }
        Ok(
            WasiExecutionContext {
                entrypoint_path,
                config: self.config,
                module,
                linker: self.linker,
                phantom: core::marker::PhantomData,
            },
        )
    }
}

/// The immutable, reusable template: the configuration, the compiled
/// module's interface, and the resolved linking table. It holds no mutable
/// per-call state; it is a recipe, shared read-only by every invocation.
pub struct WasiExecutionContext<T> {
    pub entrypoint_path: String,
    pub config: Config,
    pub module: ModuleInfo,
    pub linker: LinkerTable,
    pub phantom: core::marker::PhantomData<T>,
}

impl<T> WasiExecutionContext<T> {
    /// Derive one invocation's state from the template: a capability
    /// context re-derived from the configuration plus the caller's payload,
    /// and a fresh zeroed linear memory. No two invocations ever observe
    /// the same context or memory; the template itself is not touched.
    pub fn prepare_exec(&self, data: Option<T>) -> (r: Result<
        (Context<T>, GuestMemory),
        EngineError,
    >)
        ensures
            match r {
                Ok(p) => context_fresh(p.0, self.config, data) && memory_fresh(
                    p.1,
                    self.module.memory_size,
                ),
                Err(_) => false,
            },
    {
        let wasi = WasiCtx {
            vars: clone_string_pairs(&self.config.vars),
            preopen_dirs: clone_string_pairs(&self.config.preopen_dirs),
        };
        let ctx = Context {
            wasi_ctx: Option::Some(wasi),
            nn_ctx: Option::Some(WasiNnTractCtx { sessions: 0 }),
            runtime_data: data,
        };
        let mem = GuestMemory::new(self.module.memory_size);
        Ok((ctx, mem))
    }
}

/// Law: every prepared invocation state is derived from the template's
/// configuration and the caller's payload alone. Two concurrent
/// invocations hold contexts and memories that are independently owned and
/// both fresh, so nothing written into one invocation's context or memory
/// is observable through the other's.
pub proof fn lemma_invocation_isolation<T>(
    t: WasiExecutionContext<T>,
    c1: Context<T>,
    m1: GuestMemory,
    d1: Option<T>,
    c2: Context<T>,
    m2: GuestMemory,
    d2: Option<T>,
)
    requires
        context_fresh(c1, t.config, d1),
        memory_fresh(m1, t.module.memory_size),
        context_fresh(c2, t.config, d2),
        memory_fresh(m2, t.module.memory_size),
    ensures
        m1@ == m2@,
        m1.live_view() == m2.live_view(),
        c1.nn_ctx == c2.nn_ctx,
        c1.runtime_data == d1,
        c2.runtime_data == d2,
        match (c1.wasi_ctx, c2.wasi_ctx) {
            (Option::Some(w1), Option::Some(w2)) => pairs_view(w1.vars@) == pairs_view(w2.vars@)
                && pairs_view(w1.preopen_dirs@) == pairs_view(w2.preopen_dirs@),
            _ => false,
        },
{
    assert(m1@ =~= m2@);
    assert(m1.live_view() =~= m2.live_view());
}

} // verus!
