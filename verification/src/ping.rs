use vstd::prelude::*;

use vstd::utf8::encode_utf8;
use vstd::utf8::valid_utf8;

use crate::bindings::bytes_to_string;
use crate::bindings::export_present;
use crate::bindings::lemma_remove_keeps_others;
use crate::bindings::has_export;
use crate::bindings::le32_at;
use crate::engine::ExportSig;
use crate::engine::WasiExecutionContext;
use crate::error::EngineError;
use crate::error::GuestTrap;
use crate::http_engine::FreshGuest;
use crate::memory::GuestMemory;

verus! {

/// A guest module's `ping` entry point at the flat calling convention: it
/// receives the input string's region and returns the address of a
/// pointer/length pair naming its answer.
pub trait PingGuest {
    fn ping(&mut self, mem: &mut GuestMemory, ptr: u32, len: u32) -> Result<u32, GuestTrap>;
}

/// Auxiliary per-instance state carried for the ping interface; it needs
/// none.
#[derive(Default)]
pub struct DeislabsPingV01Data {
}

/// The string `s` is exactly what memory `m` names at result address `ret`:
/// a pointer/length pair pointing at `s`'s UTF-8 bytes.
pub open spec fn decodes_pong(m: Seq<u8>, ret: int, s: Seq<char>) -> bool {
    &&& 0 <= ret
    &&& ret + 8 <= m.len()
    &&& le32_at(m, ret) + le32_at(m, ret + 4) <= m.len()
    &&& encode_utf8(s) == m.subrange(
        le32_at(m, ret) as int,
        le32_at(m, ret) as int + le32_at(m, ret + 4) as int,
    )
}

/// The input string fits in the memory's free space above the bump
/// pointer, so lowering it cannot fail.
pub open spec fn ping_lowerable(mem: GuestMemory, input: Seq<char>) -> bool {
    mem.spec_next() + encode_utf8(input).len() <= mem@.len()
}

/// A guest-left string result can be lifted whole: the pair is in bounds,
/// the region it names holds valid UTF-8, and that region is live.
pub open spec fn pong_liftable(m: Seq<u8>, live: Seq<(u32, u32)>, ret: int) -> bool {
    &&& 0 <= ret
    &&& ret + 8 <= m.len()
    &&& le32_at(m, ret) + le32_at(m, ret + 4) <= m.len()
    &&& valid_utf8(
        m.subrange(le32_at(m, ret) as int, le32_at(m, ret) as int + le32_at(m, ret + 4) as int),
    )
    &&& live.contains((le32_at(m, ret), le32_at(m, ret + 4)))
}

/// Lift a guest-produced string result: load its pointer/length pair, copy
/// the bytes out, free the region exactly once, and decode it as UTF-8.
pub fn lift_string(mem: &mut GuestMemory, ret: u32) -> (r: Result<String, EngineError>)
    ensures
        match r {
            Ok(s) => {
                &&& final (mem)@ == old(mem)@
                &&& final (mem).spec_next() == old(mem).spec_next()
                &&& decodes_pong(old(mem)@, ret as int, s@)
                &&& final (mem).live_view().len() + 1 == old(mem).live_view().len()
                &&& forall|x: (u32, u32)|
                    old(mem).live_view().contains(x) && x != (
                        le32_at(old(mem)@, ret as int),
                        le32_at(old(mem)@, ret as int + 4),
                    ) ==> final (mem).live_view().contains(x)
            },
            Err(e) => {
                &&& final (mem)@ == old(mem)@
                &&& final (mem).spec_next() == old(mem).spec_next()
                &&& final (mem).live_view().len() <= old(mem).live_view().len()
                &&& (e == EngineError::OutOfBounds || e == EngineError::InvalidUtf8 || e
                    == EngineError::NotLive)
            },
        },
        pong_liftable(old(mem)@, old(mem).live_view(), ret as int) ==> r is Ok,
{
    let msize = mem.mem_size();
    let ghost m0 = mem@;
    let ghost liftable = pong_liftable(m0, mem.live_view(), ret as int);
    if ret as u64 + 8 > msize as u64 {
        return Err(EngineError::OutOfBounds);
    }
    let p = match mem.load_u32(ret) {
        Ok(v) => v,
        Err(e) => {
            return Err(e);
        },
    };
    let l = match mem.load_u32(ret + 4) {
        Ok(v) => v,
        Err(e) => {
            return Err(e);
        },
    };
    let bytes = match mem.read_bytes(p, l) {
        Ok(b) => b,
        Err(e) => {
            proof {
                if liftable {
                    assert(false);
                }
            }
            return Err(e);
        },
    };
    let ghost live_pre = mem.live_view();
    match mem.free(p, l, 1) {
        Ok(_) => {},
        Err(e) => {
            proof {
                if liftable {
                    assert(mem.live_view().contains((p, l)));
                    assert(false);
                }
            }
            return Err(e);
        },
    }
    proof {
        let ridx = choose|ri: int|
            0 <= ri < live_pre.len() && live_pre[ri] == (p, l) && mem.live_view()
                == live_pre.remove(ri);
        assert forall|x: (u32, u32)|
            live_pre.contains(x) && x != (p, l) implies mem.live_view().contains(x) by {
            lemma_remove_keeps_others(live_pre, ridx, x);
        }
    }
    let ghost bytes_v = bytes@;
    match bytes_to_string(bytes) {
        Ok(s) => {
            proof {
                vstd::utf8::decode_utf8_encode_utf8(bytes_v);
                assert(encode_utf8(s@) == bytes_v);
            }
            Ok(s)
        },
        Err(e) => {
            proof {
                if liftable {
                    assert(false);
                }
            }
            Err(e)
        },
    }
}

/// The exports the ping interface requires of a guest module, with the
/// shapes its calling convention fixes.
pub open spec fn ping_exports_present(exports: Seq<(String, ExportSig)>) -> bool {
    &&& export_present(exports, "canonical_abi_realloc"@, ExportSig::Func(4, 1))
    &&& export_present(exports, "canonical_abi_free"@, ExportSig::Func(3, 0))
    &&& export_present(exports, "ping"@, ExportSig::Func(2, 1))
    &&& export_present(exports, "memory"@, ExportSig::Memory)
}

/// The resolved `ping` interface of an instantiated guest module.
pub struct DeislabsPingV01 {
}

impl DeislabsPingV01 {
    /// Resolve the ping interface against an instance's export list; a
    /// required export that is absent or has the wrong shape fails this
    /// single invocation only.
    pub fn new(exports: &Vec<(String, ExportSig)>) -> (r: Result<DeislabsPingV01, EngineError>)
        ensures
            match r {
                Ok(_) => ping_exports_present(exports@),
                Err(e) => e == EngineError::MissingExport && !ping_exports_present(exports@),
            },
    {
        if !has_export(exports, "canonical_abi_realloc", ExportSig::Func(4, 1)) {
            return Err(EngineError::MissingExport);
        }
        if !has_export(exports, "canonical_abi_free", ExportSig::Func(3, 0)) {
            return Err(EngineError::MissingExport);
        }
        if !has_export(exports, "ping", ExportSig::Func(2, 1)) {
            return Err(EngineError::MissingExport);
        }
        if !has_export(exports, "memory", ExportSig::Memory) {
            return Err(EngineError::MissingExport);
        }
        Ok(DeislabsPingV01 {  })
    }

    /// Run one ping through a guest: lower the input string into the
    /// instance's linear memory, invoke the guest's `ping` entry point, and
    /// lift the string it left, freeing the guest's buffer after copying.
    /// On success the returned string is exactly what the final memory
    /// names at the guest's result address.
    pub fn ping<G: PingGuest>(&self, guest: &mut G, mem: &mut GuestMemory, input: &str) -> (r:
        Result<String, EngineError>)
        ensures
            match r {
                Ok(s) => exists|rp: int| #[trigger] decodes_pong(final (mem)@, rp, s@),
                Err(e) => (e == EngineError::GuestTrap || e == EngineError::SizeOverflow || e
                    == EngineError::AllocFailed || e == EngineError::OutOfBounds || e
                    == EngineError::InvalidUtf8 || e == EngineError::NotLive),
            },
            (r == Result::<String, EngineError>::Err(EngineError::SizeOverflow) || r == Result::<
                String,
                EngineError,
            >::Err(EngineError::AllocFailed)) ==> !ping_lowerable(*old(mem), input@),
    {
        let _msize = mem.mem_size();
        let ghost lowerable = ping_lowerable(*old(mem), input@);
        let ub = input.as_bytes_vec();
        if ub.len() as u64 > u32::MAX as u64 {
            proof {
                if lowerable {
                    assert(false);
                }
            }
            return Err(EngineError::SizeOverflow);
        }
        let ptr = match mem.allocate(ub.len() as u32, 1) {
            Ok(p) => p,
            Err(e) => {
                proof {
                    if lowerable {
                        crate::memory::lemma_align_up_bounds(old(mem).spec_next() as int, 1);
                        assert(false);
                    }
                }
                return Err(e);
            },
        };
        match mem.write_bytes(ptr, &ub) {
            Ok(_) => {},
            Err(e) => {
                return Err(e);
            },
        }
        let ret = match guest.ping(mem, ptr, ub.len() as u32) {
            Ok(v) => v,
            Err(_t) => {
                return Err(EngineError::GuestTrap);
            },
        };
        match lift_string(mem, ret) {
            Ok(s) => {
                proof {
                    assert(decodes_pong(mem@, ret as int, s@));
                }
                Ok(s)
            },
            Err(e) => Err(e),
        }
    }
}

/// An executor that answers one ping per invocation.
pub trait PingExecutor {
    fn execute(&self, input: String) -> Result<String, EngineError>;
}

/// The same one-ping-per-invocation interface under the name the timer
/// workload uses.
pub trait Ping {
    fn execute(&self, input: String) -> Result<String, EngineError>;
}

/// The ping execution engine: it holds the immutable template and derives a
/// fresh capability context, linear memory and guest instance for every
/// ping.
pub struct PingEngine<G> {
    pub inner: WasiExecutionContext<DeislabsPingV01Data>,
    pub guest: core::marker::PhantomData<G>,
}

impl<G: PingGuest + FreshGuest> PingEngine<G> {
    /// Answer one ping: derive fresh invocation state from the template,
    /// resolve the ping interface, and run the guest.
    pub fn execute_impl(&self, input: String) -> (r: Result<String, EngineError>)
        ensures
            match r {
                Ok(s) => ping_exports_present(self.inner.module.exports@),
                Err(e) => (e == EngineError::MissingExport || e == EngineError::GuestTrap || e
                    == EngineError::SizeOverflow || e == EngineError::AllocFailed || e
                    == EngineError::OutOfBounds || e == EngineError::InvalidUtf8 || e
                    == EngineError::NotLive),
            },
            r == Result::<String, EngineError>::Err(EngineError::MissingExport)
                <==> !ping_exports_present(self.inner.module.exports@),
    {
        let (ctx, mut mem) = match self.inner.prepare_exec(Option::None) {
            Ok(p) => p,
            Err(e) => {
                return Err(e);
            },
        };
        let _ = ctx;
        let iface = match DeislabsPingV01::new(&self.inner.module.exports) {
            Ok(i) => i,
            Err(e) => {
                return Err(e);
            },
        };
        let mut guest = G::fresh();
        iface.ping(&mut guest, &mut mem, input.as_str())
    }
}

impl<G: PingGuest + FreshGuest> PingExecutor for PingEngine<G> {
    fn execute(&self, input: String) -> Result<String, EngineError> {
        self.execute_impl(input)
    }
}

impl<G: PingGuest + FreshGuest> Ping for PingEngine<G> {
    fn execute(&self, input: String) -> Result<String, EngineError> {
        self.execute_impl(input)
    }
}

/// The timer-driven ping workload's trigger: every `interval_seconds`, one
/// ping is executed. The timer and its loop live at the binary's edge;
/// `tick` is the decision one firing makes.
pub struct PingTrigger {
    pub interval_seconds: u64,
}

impl PingTrigger {
    /// One firing of the trigger: hand the timestamp to the executor.
    pub fn tick<P: PingExecutor>(&self, runtime: &P, stamp: String) -> (r: Result<
        String,
        EngineError,
    >) {
        runtime.execute(stamp)
    }
}

/// The timer trigger under the name the embedded test harness uses.
pub struct TimerTrigger {
    pub interval_seconds: u64,
}

impl TimerTrigger {
    /// One firing of the trigger: hand the timestamp to the executor.
    pub fn tick<P: Ping>(&self, runtime: &P, stamp: String) -> (r: Result<String, EngineError>) {
        runtime.execute(stamp)
    }
}

} // verus!
