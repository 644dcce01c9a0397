use vstd::prelude::*;

use crate::bindings::http_exports_present;
use crate::bindings::DeislabsHttpV01;
use crate::bindings::DeislabsHttpV01Data;
use crate::bindings::HttpGuest;
use crate::bindings::HttpRequest;
use crate::bindings::Method;
use crate::engine::WasiExecutionContext;
use crate::error::EngineError;
use crate::headers::append_headers;
use crate::headers::append_headers_ok;
use crate::headers::decoded_name;
use crate::headers::decoded_value;
use crate::headers::header_map_to_vec;
use crate::headers::header_pair_ok;
use crate::headers::valid_header_name;
use crate::headers::valid_header_value;

verus! {

/// One invocation's pipeline position. Every invocation advances through
/// these states in order; any step's failure moves it to `Failed` instead,
/// short-circuiting the remaining steps, and no step is retried.
#[derive(Clone, Copy, Debug, PartialEq, Eq, Structural)]
pub enum InvocationState {
    Idle,
    ContextBuilt,
    Instantiated,
    ArgumentsLowered,
    GuestExecuting,
    ResultLifted,
    Done,
    Failed,
}

/// The admissible pipeline transitions: one step forward, or failure from
/// any live state. The failure's reason is the error the invocation
/// returns.
pub open spec fn step_allowed(from: InvocationState, to: InvocationState) -> bool {
    ||| (from == InvocationState::Idle && to == InvocationState::ContextBuilt)
    ||| (from == InvocationState::ContextBuilt && to == InvocationState::Instantiated)
    ||| (from == InvocationState::Instantiated && to == InvocationState::ArgumentsLowered)
    ||| (from == InvocationState::ArgumentsLowered && to == InvocationState::GuestExecuting)
    ||| (from == InvocationState::GuestExecuting && to == InvocationState::ResultLifted)
    ||| (from == InvocationState::ResultLifted && to == InvocationState::Done)
    ||| (to == InvocationState::Failed && from != InvocationState::Done && from
        != InvocationState::Failed)
}

/// Law: the pipeline's six steps are admissible in order, failure is
/// admissible from every live state, and nothing leaves `Done` or `Failed`.
pub proof fn lemma_pipeline_order()
    ensures
        step_allowed(InvocationState::Idle, InvocationState::ContextBuilt),
        step_allowed(InvocationState::ContextBuilt, InvocationState::Instantiated),
        step_allowed(InvocationState::Instantiated, InvocationState::ArgumentsLowered),
        step_allowed(InvocationState::ArgumentsLowered, InvocationState::GuestExecuting),
        step_allowed(InvocationState::GuestExecuting, InvocationState::ResultLifted),
        step_allowed(InvocationState::ResultLifted, InvocationState::Done),
        forall|s: InvocationState|
            s != InvocationState::Done && s != InvocationState::Failed ==> #[trigger] step_allowed(
                s,
                InvocationState::Failed,
            ),
        forall|s: InvocationState| !#[trigger] step_allowed(InvocationState::Done, s),
        forall|s: InvocationState| !#[trigger] step_allowed(InvocationState::Failed, s),
{
}

/// A request as the transport hands it over: plain values only.
pub struct HostRequest {
    pub method: Method,
    pub uri: String,
    pub headers: Vec<(String, String)>,
    pub body: Option<Vec<u8>>,
}

/// A response as the transport takes it back: plain values only.
pub struct HostResponse {
    pub status: u16,
    pub headers: Vec<(String, String)>,
    pub body: Option<Vec<u8>>,
}

/// An engine that serves one request per invocation. Implementors derive a
/// fresh, isolated execution state for every call.
pub trait HttpEngine {
    fn execute(&self, req: HostRequest) -> Result<HostResponse, EngineError>;
}

/// The HTTP execution engine: it holds the immutable template and derives a
/// fresh capability context, linear memory and guest instance for every
/// request. The guest type's `fresh` stands for instantiating the template.
pub struct Engine<G> {
    pub inner: WasiExecutionContext<DeislabsHttpV01Data>,
    pub guest: core::marker::PhantomData<G>,
}

/// A guest module whose instances can be created anew for each invocation,
/// as the template's pre-resolved image is instantiated anew for each call.
pub trait FreshGuest: Sized {
    fn fresh() -> Self;
}

impl<G: HttpGuest + FreshGuest> Engine<G> {
    /// Serve one request: derive a fresh context, memory and instance from
    /// the template, validate and serialize the caller's headers, run the
    /// guest handler, and decode the response headers it produced. A header
    /// carrying a control character is rejected before anything reaches the
    /// guest or the transport.
    pub fn execute_impl(&self, req: HostRequest) -> (r: Result<HostResponse, EngineError>)
        ensures
            match r {
                Ok(hr) => {
                    &&& http_exports_present(self.inner.module.exports@)
                    &&& forall|i: int|
                        0 <= i < req.headers@.len() ==> valid_header_name(
                            (#[trigger] req.headers@[i]).0@,
                        ) && valid_header_value(req.headers@[i].1@)
                    &&& forall|i: int|
                        0 <= i < hr.headers@.len() ==> valid_header_name(
                            (#[trigger] hr.headers@[i]).0@,
                        ) && valid_header_value(hr.headers@[i].1@)
                },
                Err(e) => (e == EngineError::MissingExport || e == EngineError::GuestTrap || e
                    == EngineError::SizeOverflow || e == EngineError::AllocFailed || e
                    == EngineError::OutOfBounds || e == EngineError::BadInt || e
                    == EngineError::InvalidVariant || e == EngineError::InvalidUtf8 || e
                    == EngineError::NotLive || e == EngineError::InvalidHeaderName || e
                    == EngineError::InvalidHeaderValue || e == EngineError::MalformedHeader),
            },
            r == Result::<HostResponse, EngineError>::Err(EngineError::MissingExport)
                <==> !http_exports_present(self.inner.module.exports@),
    {
        let ghost mut st = InvocationState::Idle;
        let (ctx, mut mem) = match self.inner.prepare_exec(Option::None) {
            Ok(p) => p,
            Err(e) => {
                proof {
                    assert(step_allowed(st, InvocationState::Failed));
                }
                return Err(e);
            },
        };
        let _ = ctx;
        proof {
            assert(step_allowed(st, InvocationState::ContextBuilt));
            st = InvocationState::ContextBuilt;
        }
        let iface = match DeislabsHttpV01::new(&self.inner.module.exports) {
            Ok(i) => i,
            Err(e) => {
                proof {
                    assert(step_allowed(st, InvocationState::Failed));
                }
                return Err(e);
            },
        };
        proof {
            assert(step_allowed(st, InvocationState::Instantiated));
            st = InvocationState::Instantiated;
        }
        let header_strings = match header_map_to_vec(&req.headers) {
            Ok(h) => h,
            Err(e) => {
                proof {
                    assert(step_allowed(st, InvocationState::Failed));
                }
                return Err(e);
            },
        };
        let hreq = HttpRequest {
            method: req.method,
            uri: req.uri,
            headers: header_strings,
            params: Option::None,
            body: req.body,
        };
        let mut guest = G::fresh();
        proof {
            assert(step_allowed(st, InvocationState::ArgumentsLowered));
            st = InvocationState::ArgumentsLowered;
            assert(step_allowed(st, InvocationState::GuestExecuting));
            st = InvocationState::GuestExecuting;
        }
        let resp = match iface.handler(&mut guest, &mut mem, &hreq) {
            Ok(resp) => resp,
            Err(e) => {
                proof {
                    assert(step_allowed(st, InvocationState::Failed));
                }
                return Err(e);
            },
        };
        proof {
            assert(step_allowed(st, InvocationState::ResultLifted));
            st = InvocationState::ResultLifted;
        }
        let mut out_headers: Vec<(String, String)> = Vec::new();
        let status = resp.status;
        let body = resp.body;
        let ghost resp_headers_v = resp.headers;
        match append_headers(&mut out_headers, resp.headers) {
            Ok(_) => {},
            Err(e) => {
                proof {
                    assert(step_allowed(st, InvocationState::Failed));
                }
                return Err(e);
            },
        }
        proof {
            assert(step_allowed(st, InvocationState::Done));
            assert forall|i: int|
                0 <= i < out_headers@.len() implies valid_header_name(
                (#[trigger] out_headers@[i]).0@,
            ) && valid_header_value(out_headers@[i].1@) by {
                match resp_headers_v {
                    Option::None => {
                        assert(out_headers@.len() == 0);
                    },
                    Option::Some(h) => {
                        assert(append_headers_ok(h@, Seq::<(String, String)>::empty(), out_headers@));
                        assert(header_pair_ok(h@[i]@));
                        assert((out_headers@[0 + i]).0@ == decoded_name(h@[i]@));
                        assert(out_headers@[0 + i].1@ == decoded_value(h@[i]@));
                        assert(valid_header_name(decoded_name(h@[i]@)));
                        assert(valid_header_value(decoded_value(h@[i]@)));
                    },
                }
            }
        }
        Ok(HostResponse { status, headers: out_headers, body })
    }
}

/// The HTTP listener's settings: the address the transport binds. The
/// listener loop itself is transport work and lives at the binary's edge;
/// each accepted request becomes one `HttpEngine::execute` call.
pub struct Trigger {
    pub address: String,
}

impl<G: HttpGuest + FreshGuest> HttpEngine for Engine<G> {
    /// One invocation of the engine: fresh state in, one response out.
    fn execute(&self, req: HostRequest) -> Result<HostResponse, EngineError> {
        self.execute_impl(req)
    }
}

} // verus!
