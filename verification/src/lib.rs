//! Verified core of an adapter that serves Leptos applications on ntex.
//!
//! The crate holds what the adapter decides and computes: which routes there are and
//! how they are registered, how a server function is dispatched and its WebSocket
//! spoken, which file answers a request and under which conditions, how generated
//! pages are stored and served. What runs the decisions, the ntex services and the
//! reactive runtime around them, calls into it.

pub mod config;
pub mod extract;
pub mod files;
pub mod fs_boundary;
pub mod http;
pub mod owner;
pub mod render;
pub mod request;
pub mod response;
pub mod routes;
pub mod server_fn;
pub mod static_routes;
pub mod text;

pub use config::{LeptosServerFnConfig, DEFAULT_PAYLOAD_LIMIT, DEFAULT_WS_CHANNEL_BUFFER};
pub use extract::{expect_app_state, use_app_state};
pub use request::{Request, RequestAccessError, RequestRuntime, RequestScope};
pub use response::{redirect, ResponseOptions, ResponseParts};
pub use routes::{generate_route_list_with_exclusions, try_init_executor, NtexRouteListing};
pub use server_fn::registry::ServerFnRegistry;
pub use server_fn::request::NtexRequest;
pub use server_fn::response::NtexServerResponse;
pub use static_routes::report::{StaticGenerationError, StaticGenerationReport};
