//! Plain data shapes of the request/response layer.
//!
//! The transport itself (routing, serialization, clocks) lives outside the
//! library; these types carry the payloads, and the response constructors
//! take the caller's timestamp as an argument.

use vstd::prelude::*;

verus! {

/// Query parameters of an analysis request.
pub struct AnalyzeQuery {
    pub term: String,
    pub max_depth: Option<u8>,
    pub max_results: Option<u8>,
}

/// Query parameters of a suggestion request.
pub struct SuggestQuery {
    pub query: String,
    pub limit: Option<u8>,
}

/// The uniform response envelope.
pub struct ApiResponse<T> {
    pub success: bool,
    pub data: Option<T>,
    pub error: Option<String>,
    pub timestamp: String,
}

impl<T> ApiResponse<T> {
    /// A successful envelope around `data`, stamped with the caller's clock
    /// reading.
    pub fn success(data: T, timestamp: String) -> (r: Self)
        ensures
            r.success,
            r.data == Some(data),
            r.error is None,
            r.timestamp@ == timestamp@,
    {
        ApiResponse { success: true, data: Some(data), error: None, timestamp }
    }

    /// A failure envelope carrying `message`, stamped with the caller's clock
    /// reading.
    pub fn error(message: String, timestamp: String) -> (r: Self)
        ensures
            !r.success,
            r.data is None,
            r.error matches Some(m) && m@ == message@,
            r.timestamp@ == timestamp@,
    {
        ApiResponse { success: false, data: None, error: Some(message), timestamp }
    }
}

} // verus!
