//! A host runtime for WebAssembly components: it builds an immutable,
//! pre-resolved template from a compiled module plus a fixed set of host
//! capabilities, and serves each incoming request or timer tick from a
//! fresh, isolated execution context derived from that template. The
//! marshalling layer that moves requests, responses and strings across the
//! guest's flat ABI is specified and verified here, down to the rule that
//! every guest buffer it reads is freed exactly once.

pub mod bindings;
pub mod build_tools;
pub mod cli;
pub mod config;
pub mod engine;
pub mod error;
pub mod headers;
pub mod http_engine;
pub mod memory;
pub mod outbound_http;
pub mod ping;
pub mod pipeline;
pub mod registry;

pub use build_tools::get_os_process;
pub use config::compute_preopen_dirs;
pub use config::parse_env_var;
pub use config::parse_map_dirs;
pub use config::Config;
pub use error::EngineError;
pub use pipeline::identity;
