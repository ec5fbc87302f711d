//! Verified core of the Obscura CDP network and identity layer.
//!
//! The crate holds the decisions and data transformations behind the browser's
//! DevTools endpoints: the per-connection identity header, request and
//! response recording for scripted fetch/XHR traffic, the request half of
//! network events, the Fetch interception state machine, the Emulation
//! domain and ES module resolution.
pub mod emulation;
pub mod encoding;
pub mod fetch;
pub mod identity;
pub mod module_loader;
pub mod network_request;
pub mod scripted_response;
pub mod text;
