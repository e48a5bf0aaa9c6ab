//! The settings of the gateway and their defaults.
//!
//! Settings are given in seconds; the cache and the rate limiter count time
//! in ticks of a millisecond.

use vstd::prelude::*;
use crate::cache::{Cache, MAX_CAPACITY};
use crate::limiter::RateLimiter;

verus! {

/// The time that a cached translation stays fresh, in seconds.
pub const DEFAULT_CACHE_TTL: usize = 3600;

/// The number of translations that the cache holds.
pub const DEFAULT_CACHE_MAX_SIZE: usize = 1000;

/// The number of characters that the text of a request holds at most.
pub const DEFAULT_MAX_TEXT_LENGTH: usize = 5000;

/// The number of requests admitted per window.
pub const DEFAULT_RATE_LIMIT_RPM: usize = 30;

/// The length of the rate limiter's window, in seconds.
pub const RATE_WINDOW: u64 = 60;

/// The number of ticks in a second.
pub const TICKS_PER_SECOND: u64 = 1000;

/// The settings that the request pipeline works with.
#[derive(Debug, Clone, Copy, PartialEq, Eq)]
pub struct Config {
    /// The time that a cached translation stays fresh, in seconds.
    pub cache_ttl: usize,
    pub cache_max_size: usize,
    pub max_text_length: usize,
    pub rate_limit_rpm: usize,
}

/// A number of seconds in ticks, or the largest number of ticks where that
/// is less.
pub open spec fn ticks_of(seconds: nat) -> u64 {
    if seconds * TICKS_PER_SECOND <= u64::MAX {
        (seconds * TICKS_PER_SECOND) as u64
    } else {
        u64::MAX
    }
}

/// A number of seconds in ticks.
pub fn seconds_to_ticks(seconds: u64) -> (ticks: u64)
    ensures
        ticks == ticks_of(seconds as nat),
{
    match seconds.checked_mul(TICKS_PER_SECOND) {
        Some(ticks) => ticks,
        None => u64::MAX,
    }
}

/// The value of a setting: the one given, or the default.
pub fn setting_or(given: Option<usize>, default: usize) -> (value: usize)
    ensures
        value == match given {
            Some(v) => v,
            None => default,
        },
{
    match given {
        Some(v) => v,
        None => default,
    }
}

impl Config {
    /// The settings with the defaults for those that are not given.
    pub fn resolve(
        cache_ttl: Option<usize>,
        cache_max_size: Option<usize>,
        max_text_length: Option<usize>,
        rate_limit_rpm: Option<usize>,
    ) -> (config: Config)
        ensures
            config.cache_ttl == cache_ttl.unwrap_or(DEFAULT_CACHE_TTL),
            config.cache_max_size == cache_max_size.unwrap_or(DEFAULT_CACHE_MAX_SIZE),
            config.max_text_length == max_text_length.unwrap_or(DEFAULT_MAX_TEXT_LENGTH),
            config.rate_limit_rpm == rate_limit_rpm.unwrap_or(DEFAULT_RATE_LIMIT_RPM),
    {
        Config {
            cache_ttl: setting_or(cache_ttl, DEFAULT_CACHE_TTL),
            cache_max_size: setting_or(cache_max_size, DEFAULT_CACHE_MAX_SIZE),
            max_text_length: setting_or(max_text_length, DEFAULT_MAX_TEXT_LENGTH),
            rate_limit_rpm: setting_or(rate_limit_rpm, DEFAULT_RATE_LIMIT_RPM),
        }
    }

    /// The cache that these settings ask for, empty; none where they ask
    /// for more entries than a cache can be made for.
    pub fn cache(&self) -> (cache: Option<Cache>)
        ensures
            cache is Some <==> self.cache_max_size <= MAX_CAPACITY,
            cache matches Some(c) ==> c.wf() && c.ttl() == ticks_of(self.cache_ttl as nat)
                && c.capacity() == (if self.cache_max_size == 0 {
                1
            } else {
                self.cache_max_size as nat
            }) && c.entries().len() == 0,
    {
        if self.cache_max_size <= MAX_CAPACITY {
            Some(Cache::new(self.cache_max_size, seconds_to_ticks(self.cache_ttl as u64)))
        } else {
            None
        }
    }

    /// The rate limiter that these settings ask for, with nothing on record.
    pub fn limiter(&self) -> (limiter: RateLimiter)
        ensures
            limiter.wf(),
            limiter.window() == ticks_of(RATE_WINDOW as nat),
            limiter.max() == if self.rate_limit_rpm == 0 {
                1
            } else {
                self.rate_limit_rpm as nat
            },
            limiter.hits().len() == 0,
    {
        RateLimiter::new(seconds_to_ticks(RATE_WINDOW), self.rate_limit_rpm)
    }
}

} // verus!
