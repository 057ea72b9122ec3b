//! A remote endpoint with a cache: what is asked of the remote side, where
//! the answer is kept, and how long it counts as fresh. Fetching and
//! reading the cache are left to the caller.

use vstd::prelude::*;
use std::time::{Duration, SystemTime};

verus! {

#[verifier::external_type_specification]
#[verifier::external_body]
pub struct ExSystemTime(std::time::SystemTime);

/// Where a cached answer is kept, and how long it counts as fresh.
pub struct CacheSettings {
    pub cache_path: String,
    pub cache_timeout: Duration,
}

/// A cached answer and the time it was made.
pub struct CachedValue<T> {
    pub value: T,
    pub time: SystemTime,
}

/// What is asked of the remote side.
pub struct Query {
    pub url: String,
    pub method: String,
    pub headers: Vec<(String, String)>,
}

/// A remote endpoint that answers with a `T`, and the answer cached.
pub struct RemoteEndpoint<T> {
    pub query: Query,
    pub cache_path: String,
    pub cache_timeout: Duration,
    pub cache: Option<CachedValue<T>>,
}

impl<T> RemoteEndpoint<T> {
    /// An endpoint for a query, with the settings' cache path and timeout
    /// and nothing cached.
    pub fn new(settings: &CacheSettings, query: Query) -> (r: Self)
        ensures
            r.query == query,
            r.cache_path@ == settings.cache_path@,
            r.cache_timeout == settings.cache_timeout,
            r.cache is None,
    {
        Self {
            query,
            cache_path: settings.cache_path.clone(),
            cache_timeout: settings.cache_timeout,
            cache: None,
        }
    }

    /// The cached answer, if there is one.
    pub fn cached(&self) -> (r: Option<&T>)
        ensures
            match self.cache {
                Some(c) => r == Some(&c.value),
                None => r is None,
            },
    {
        match &self.cache {
            Some(c) => Some(&c.value),
            None => None,
        }
    }

    /// Caches an answer made at `time`, in place of what was cached.
    pub fn store(&mut self, value: T, time: SystemTime)
        ensures
            final(self).cache == Some(CachedValue { value, time }),
            final(self).query == old(self).query,
            final(self).cache_path == old(self).cache_path,
            final(self).cache_timeout == old(self).cache_timeout,
    {
        self.cache = Some(CachedValue { value, time });
    }

    /// Forgets what was cached.
    pub fn clear(&mut self)
        ensures
            final(self).cache is None,
            final(self).query == old(self).query,
            final(self).cache_path == old(self).cache_path,
            final(self).cache_timeout == old(self).cache_timeout,
    {
        self.cache = None;
    }
}

/// What `str::parse::<i64>` makes of a text: the number, or `None` where
/// the text is no number that fits.
pub uninterp spec fn parsed_i64(text: Seq<char>) -> Option<i64>;

/// Calls `str::parse::<i64>` and keeps the number where there is one. The
/// contract only names the outcome.
#[verifier::external_body]
pub(crate) fn parse_i64(text: &str) -> (r: Option<i64>)
    ensures
        r == parsed_i64(text@),
{
    match text.parse::<i64>() {
        Ok(n) => Some(n),
        Err(_) => None,
    }
}

/// A signed 64-bit number read as an unsigned one of the same bits.
pub open spec fn same_bits(n: i64) -> int {
    if n >= 0 {
        n as int
    } else {
        n + 0x1_0000_0000_0000_0000
    }
}

/// The time that a header of seconds since the epoch stands for: the number
/// that the header's text parses to, read as an unsigned one; nothing
/// without a header or where its text is no number.
pub open spec fn header_seconds(header: Option<Seq<char>>) -> Option<int> {
    match header {
        Some(text) => match parsed_i64(text) {
            Some(n) => Some(same_bits(n)),
            None => None,
        },
        None => None,
    }
}

/// The seconds since the epoch that a `Last-Modified` header gives, if it
/// gives a number.
pub fn last_modified(header: Option<&str>) -> (r: Option<u64>)
    ensures
        match r {
            Some(secs) => header_seconds(crate::views::view_of(header)) == Some(secs as int),
            None => header_seconds(crate::views::view_of(header)) is None,
        },
{
    match header {
        Some(text) => match parse_i64(text) {
            Some(n) => {
                if n >= 0 {
                    Some(n as u64)
                } else {
                    let below: i64 = -(n + 1);
                    Some(u64::MAX - (below as u64))
                }
            },
            None => None,
        },
        None => None,
    }
}

/// Whether a cached answer must be fetched anew: where nothing is cached,
/// or what is cached is older than the timeout. Ages are in nanoseconds.
pub fn cache_expired(age: Option<u128>, timeout: u128) -> (r: bool)
    ensures
        r == match age {
            Some(a) => a > timeout,
            None => true,
        },
{
    match age {
        Some(a) => a > timeout,
        None => true,
    }
}

} // verus!
