use metastructure::statsd::{CardinalityLimiterCounters, CardinalityLimiterHistograms, CardinalityLimiterTimers};

#[test]
fn counter_names() {
    assert_eq!(CardinalityLimiterCounters::Accepted.name(), "cardinality.limiter.accepted");
    assert_eq!(CardinalityLimiterCounters::Rejected.name(), "cardinality.limiter.rejected");
    assert_eq!(CardinalityLimiterCounters::RedisCacheHit.name(), "cardinality.limiter.redis.cache_hit");
    assert_eq!(CardinalityLimiterCounters::RedisCacheMiss.name(), "cardinality.limiter.redis.cache_miss");
    assert_eq!(CardinalityLimiterCounters::RedisCacheVacuum.name(), "cardinality.limiter.redis.cache_vacuum");
}

#[test]
fn timer_names() {
    assert_eq!(CardinalityLimiterTimers::CardinalityLimiter.name(), "cardinality.limiter.duration");
    assert_eq!(CardinalityLimiterTimers::Redis.name(), "cardinality.limiter.redis.duration");
    assert_eq!(CardinalityLimiterTimers::CacheVacuum.name(), "cardinality.limiter.redis.cache_vacuum.duration");
}

#[test]
fn histogram_names() {
    assert_eq!(CardinalityLimiterHistograms::RedisCheckHashes.name(), "cardinality.limiter.redis.check_hashes");
    assert_eq!(CardinalityLimiterHistograms::RedisSetCardinality.name(), "cardinality.limiter.redis.set_cardinality");
}
