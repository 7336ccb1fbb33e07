//! Metric names used by the cardinality limiter.

use vstd::prelude::*;

verus! {

/// Counter metrics for the cardinality limiter.
pub enum CardinalityLimiterCounters {
    /// Incremented for every accepted item.
    Accepted,
    /// Incremented for every rejected item.
    Rejected,
    /// Incremented for every hash served from the in-memory cache.
    RedisCacheHit,
    /// Incremented for every hash not served from the in-memory cache.
    RedisCacheMiss,
    /// Amount of entries removed from the cache by periodic cleanups.
    RedisCacheVacuum,
}

impl CardinalityLimiterCounters {
    /// The metric name of each counter.
    pub open spec fn name_spec(&self) -> Seq<char> {
        match self {
            CardinalityLimiterCounters::Accepted => "cardinality.limiter.accepted"@,
            CardinalityLimiterCounters::Rejected => "cardinality.limiter.rejected"@,
            CardinalityLimiterCounters::RedisCacheHit => "cardinality.limiter.redis.cache_hit"@,
            CardinalityLimiterCounters::RedisCacheMiss => "cardinality.limiter.redis.cache_miss"@,
            CardinalityLimiterCounters::RedisCacheVacuum => "cardinality.limiter.redis.cache_vacuum"@,
        }
    }

    /// Returns the name under which the counter is emitted.
    pub fn name(&self) -> (r: &'static str)
        ensures
            r@ == self.name_spec(),
    {
        match self {
            CardinalityLimiterCounters::Accepted => "cardinality.limiter.accepted",
            CardinalityLimiterCounters::Rejected => "cardinality.limiter.rejected",
            CardinalityLimiterCounters::RedisCacheHit => "cardinality.limiter.redis.cache_hit",
            CardinalityLimiterCounters::RedisCacheMiss => "cardinality.limiter.redis.cache_miss",
            CardinalityLimiterCounters::RedisCacheVacuum => "cardinality.limiter.redis.cache_vacuum",
        }
    }
}

/// Timer metrics for the cardinality limiter.
pub enum CardinalityLimiterTimers {
    /// Timer for the entire process of checking cardinality limits.
    CardinalityLimiter,
    /// Timer for the duration of the store call.
    Redis,
    /// Time spent removing expired values from the cardinality cache.
    CacheVacuum,
}

impl CardinalityLimiterTimers {
    /// The metric name of each timer.
    pub open spec fn name_spec(&self) -> Seq<char> {
        match self {
            CardinalityLimiterTimers::CardinalityLimiter => "cardinality.limiter.duration"@,
            CardinalityLimiterTimers::Redis => "cardinality.limiter.redis.duration"@,
            CardinalityLimiterTimers::CacheVacuum => "cardinality.limiter.redis.cache_vacuum.duration"@,
        }
    }

    /// Returns the name under which the timer is emitted.
    pub fn name(&self) -> (r: &'static str)
        ensures
            r@ == self.name_spec(),
    {
        match self {
            CardinalityLimiterTimers::CardinalityLimiter => "cardinality.limiter.duration",
            CardinalityLimiterTimers::Redis => "cardinality.limiter.redis.duration",
            CardinalityLimiterTimers::CacheVacuum => "cardinality.limiter.redis.cache_vacuum.duration",
        }
    }
}

/// Histogram metrics for the cardinality limiter.
pub enum CardinalityLimiterHistograms {
    /// Amount of hashes sent to the store to check the cardinality.
    RedisCheckHashes,
    /// Cardinality of the stored set.
    RedisSetCardinality,
}

impl CardinalityLimiterHistograms {
    /// The metric name of each histogram.
    pub open spec fn name_spec(&self) -> Seq<char> {
        match self {
            CardinalityLimiterHistograms::RedisCheckHashes => "cardinality.limiter.redis.check_hashes"@,
            CardinalityLimiterHistograms::RedisSetCardinality => "cardinality.limiter.redis.set_cardinality"@,
        }
    }

    /// Returns the name under which the histogram is emitted.
    pub fn name(&self) -> (r: &'static str)
        ensures
            r@ == self.name_spec(),
    {
        match self {
            CardinalityLimiterHistograms::RedisCheckHashes => "cardinality.limiter.redis.check_hashes",
            CardinalityLimiterHistograms::RedisSetCardinality => "cardinality.limiter.redis.set_cardinality",
        }
    }
}

} // verus!
