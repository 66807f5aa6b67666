use vstd::prelude::*;

verus! {

/// Settings of a multiplexer: how long, in seconds, to wait for a peer to
/// acknowledge an opened stream and for a local accept to take an incoming one,
/// and how many payload bytes at most one data frame carries.
#[derive(Debug, Clone)]
pub struct Config {
    connect_timeout: u64,
    accept_timeout: u64,
    max_buf_size: usize,
}

impl Config {
    pub fn new(connect_timeout: u64, accept_timeout: u64, max_buf_size: usize) -> (c: Self)
        ensures
            c.connect_timeout_spec() == connect_timeout,
            c.accept_timeout_spec() == accept_timeout,
            c.max_buf_size_spec() == max_buf_size,
    {
        Config { connect_timeout, accept_timeout, max_buf_size }
    }

    pub closed spec fn connect_timeout_spec(&self) -> u64 {
        self.connect_timeout
    }

    pub closed spec fn accept_timeout_spec(&self) -> u64 {
        self.accept_timeout
    }

    pub closed spec fn max_buf_size_spec(&self) -> usize {
        self.max_buf_size
    }

    /// Seconds to wait for the peer to acknowledge a stream this side opens.
    pub fn connect_timeout(&self) -> (t: u64)
        ensures
            t == self.connect_timeout_spec(),
    {
        self.connect_timeout
    }

    /// Seconds an incoming stream waits for a local accept.
    pub fn accept_timeout(&self) -> (t: u64)
        ensures
            t == self.accept_timeout_spec(),
    {
        self.accept_timeout
    }

    /// The largest payload one data frame carries.
    pub fn max_buf_size(&self) -> (n: usize)
        ensures
            n == self.max_buf_size_spec(),
    {
        self.max_buf_size
    }
}

impl Default for Config {
    /// One second for each wait, and 8096-byte data frames.
    fn default() -> (c: Self)
        ensures
            c.connect_timeout_spec() == 1,
            c.accept_timeout_spec() == 1,
            c.max_buf_size_spec() == 8096,
    {
        Config { connect_timeout: 1, accept_timeout: 1, max_buf_size: 8096 }
    }
}

} // verus!
