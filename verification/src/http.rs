//! HTTP response shapes shared by the firmware's handlers: responses that
//! carry CORS headers for direct browser access, and the empty preflight
//! answer to OPTIONS requests.
use vstd::prelude::*;

verus! {

/// HTTP 200 OK.
pub const STATUS_OK: u16 = 200;
/// HTTP 204 No Content.
pub const STATUS_NO_CONTENT: u16 = 204;

/// The CORS headers every such response carries, in order.
pub fn cors_headers() -> (h: [(&'static str, &'static str); 3])
    ensures
        h[0].0@ == "Access-Control-Allow-Origin"@,
        h[0].1@ == "*"@,
        h[1].0@ == "Access-Control-Allow-Methods"@,
        h[1].1@ == "GET, POST, OPTIONS"@,
        h[2].0@ == "Access-Control-Allow-Headers"@,
        h[2].1@ == "Content-Type"@,
{
    [
        ("Access-Control-Allow-Origin", "*"),
        ("Access-Control-Allow-Methods", "GET, POST, OPTIONS"),
        ("Access-Control-Allow-Headers", "Content-Type"),
    ]
}

/// Content sent with status 200 and the CORS headers.
pub struct CorsResponse<T>(pub T);

/// The answer to a preflight request: status 204, the CORS headers, no body.
pub struct CorsPreflight;

impl<T> CorsResponse<T> {
    /// The status the response is sent with.
    pub fn status(&self) -> (s: u16)
        ensures
            s == STATUS_OK,
    {
        STATUS_OK
    }
}

impl CorsPreflight {
    /// The status the preflight answer is sent with.
    pub fn status(&self) -> (s: u16)
        ensures
            s == STATUS_NO_CONTENT,
    {
        STATUS_NO_CONTENT
    }
}

} // verus!
