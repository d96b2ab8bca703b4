//! The proxy's decisions: which encoding a request body has, which headers go
//! upstream and come back, where the request goes, and how a failure is answered.
pub mod encoding;
pub mod error;
pub mod header_map;
pub mod headers;
pub mod laws;
pub mod request;
pub mod state;
pub mod upstream;

pub use self::error::{ProxyError, UpstreamFailure};
pub use self::state::AppState;
