//! Protocol configuration and error types. The network clients that use
//! them live outside this library, at the application's edge.

use vstd::prelude::*;

verus! {

/// Protocol-level failures.
#[derive(Debug, PartialEq)]
pub enum ProtocolError {
    /// Network connection errors.
    ConnectionError(String),
    /// Protocol-specific errors.
    ProtocolError(String),
    /// TLS and other security errors.
    SecurityError(String),
}

/// The supported protocol families.
#[derive(Debug, Clone, Copy, PartialEq, Eq)]
pub enum Protocol {
    Http1,
    Http2,
    Http3,
    WebSocket,
}

/// How a request is made: its timeout (in seconds) and redirect policy,
/// plus any custom headers.
#[derive(Debug, PartialEq)]
pub struct RequestConfig {
    /// Request timeout, in whole seconds.
    pub timeout: u64,
    /// Whether redirects are followed.
    pub follow_redirects: bool,
    /// How many redirects are followed at most.
    pub max_redirects: u32,
    /// Custom headers, in order.
    pub headers: Vec<(String, String)>,
}

impl Default for RequestConfig {
    /// The default policy: a 30 second timeout, following at most 10
    /// redirects, no custom headers.
    fn default() -> (r: RequestConfig)
        ensures
            r.timeout == 30,
            r.follow_redirects == true,
            r.max_redirects == 10,
            r.headers@.len() == 0,
    {
        RequestConfig { timeout: 30, follow_redirects: true, max_redirects: 10, headers: Vec::new() }
    }
}

} // verus!
