//! Cache headers for successful reads of the query layer.
use vstd::prelude::*;
use crate::fetch::success_status;
use crate::text::{decimal, to_decimal};

verus! {

/// Adds a public cache lifetime to successful GET responses.
#[derive(Debug, Clone, Copy, PartialEq, Eq, Structural)]
pub struct CacheControl {
    max_age: u32,
}

/// The header value that grants a lifetime of `max_age` seconds.
pub open spec fn cache_header(max_age: u32) -> Seq<char> {
    "public, max-age="@ + decimal(max_age as nat)
}

/// Renders the cache header for a lifetime.
fn render_header(max_age: u32) -> (s: String)
    ensures
        s@ == cache_header(max_age),
{
    let mut s = "public, max-age=".to_owned();
    let digits = to_decimal(max_age as u64);
    s.append(digits.as_str());
    s
}

impl CacheControl {
    /// The cache lifetime in seconds.
    pub closed spec fn lifetime(&self) -> u32 {
        self.max_age
    }

    /// Caching for `max_age` seconds.
    pub fn new(max_age: u32) -> (c: CacheControl)
        ensures
            c.lifetime() == max_age,
    {
        CacheControl { max_age }
    }

    /// The cache lifetime in seconds.
    pub fn max_age(&self) -> (m: u32)
        ensures
            m == self.lifetime(),
    {
        self.max_age
    }

    /// Wraps a service so that its responses get the cache header.
    pub fn new_transform<S>(&self, service: S) -> (m: CacheControlMiddleware<S>)
        ensures
            m.service == service,
            m.max_age == self.lifetime(),
    {
        CacheControlMiddleware { service, max_age: self.max_age }
    }
}

/// A service whose successful GET responses get a cache header.
pub struct CacheControlMiddleware<S> {
    pub service: S,
    pub max_age: u32,
}

impl<S> CacheControlMiddleware<S> {
    /// The header to add to a response: only for a GET answered with a
    /// success status.
    pub fn header_for(&self, is_get: bool, status: u16) -> (h: Option<String>)
        ensures
            (is_get && success_status(status)) ==> (h is Some && h->Some_0@ == cache_header(self.max_age)),
            !(is_get && success_status(status)) ==> h is None,
    {
        if is_get && 200 <= status && status <= 299 {
            Some(render_header(self.max_age))
        } else {
            None
        }
    }
}

} // verus!
