//! Settings for the HTTP client that the providers use.
use vstd::prelude::*;

verus! {

pub struct HttpClientFactory {
    timeout_seconds: u64,
    user_agent: String,
}

impl HttpClientFactory {
    pub closed spec fn timeout_spec(&self) -> u64 {
        self.timeout_seconds
    }

    pub closed spec fn user_agent_spec(&self) -> Seq<char> {
        self.user_agent@
    }

    pub fn new(timeout_seconds: u64, user_agent: &str) -> (res: Self)
        ensures
            res.timeout_spec() == timeout_seconds,
            res.user_agent_spec() == user_agent@,
    {
        HttpClientFactory { timeout_seconds, user_agent: String::from_str(user_agent) }
    }

    /// The request timeout, in seconds.
    pub fn timeout_seconds(&self) -> (res: u64)
        ensures
            res == self.timeout_spec(),
    {
        self.timeout_seconds
    }

    /// The `User-Agent` header value.
    pub fn user_agent(&self) -> (res: &String)
        ensures
            res@ == self.user_agent_spec(),
    {
        &self.user_agent
    }
}

} // verus!
