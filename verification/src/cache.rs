//! Cache entries with a time to live, and the keys under which they are kept.

use crate::text::digits;
use crate::text::number_text;
use crate::time::current_time;
use crate::time::Timestamp;
use vstd::layout::spec_size_of_val;
use core::hash::Hash;
use core::hash::Hasher;
use std::collections::hash_map::DefaultHasher;
use vstd::prelude::*;

verus! {

/// A cached value with its bookkeeping.
#[derive(Debug, Clone)]
pub struct CacheEntry<T> {
    pub data: T,
    pub created_at: Timestamp,
    pub last_accessed: Timestamp,
    pub access_count: u64,
    /// Milliseconds after creation for which the entry is good; `None` for
    /// an entry that does not expire.
    pub ttl: Option<u64>,
    pub size_bytes: usize,
}

impl<T> CacheEntry<T> {
    /// Whether the entry has outlived its time to live at `now`: more
    /// milliseconds have passed since its creation than it was given.
    pub open spec fn spec_is_expired_at(&self, now: Timestamp) -> bool {
        self.ttl is Some && now.spec_millis_since(self.created_at) > self.ttl->0
    }

    /// The entry after one more access at `now`.
    pub open spec fn accessed(self, now: Timestamp) -> Self {
        CacheEntry {
            last_accessed: now,
            access_count: (self.access_count + 1) as u64,
            ..self
        }
    }

    /// An entry for `data` created at `now`, counted as accessed once.
    pub fn new_at(data: T, ttl: Option<u64>, now: Timestamp) -> (entry: Self)
        ensures
            entry.data == data,
            entry.created_at == now,
            entry.last_accessed == now,
            entry.access_count == 1,
            entry.ttl == ttl,
            entry.size_bytes as nat == spec_size_of_val::<T>(&data),
    {
        let size_bytes = core::mem::size_of_val(&data);
        CacheEntry { data, created_at: now, last_accessed: now, access_count: 1, ttl, size_bytes }
    }

    /// An entry for `data` created at the current reading of the clock.
    pub fn new(data: T, ttl: Option<u64>) -> (entry: Self)
        ensures
            entry.data == data,
            entry.last_accessed == entry.created_at,
            entry.access_count == 1,
            entry.ttl == ttl,
            entry.size_bytes as nat == spec_size_of_val::<T>(&data),
    {
        CacheEntry::new_at(data, ttl, current_time())
    }

    #[verifier::when_used_as_spec(spec_is_expired_at)]
    pub fn is_expired_at(&self, now: Timestamp) -> (r: bool)
        ensures
            r == self.spec_is_expired_at(now),
    {
        match self.ttl {
            Some(ttl) => now.millis_since(self.created_at) > ttl,
            None => false,
        }
    }

    /// Whether the entry has outlived its time to live at the current
    /// reading of the clock. An entry without a time to live never has.
    pub fn is_expired(&self) -> (r: bool)
        ensures
            exists|now: Timestamp| r == self.spec_is_expired_at(now),
            self.ttl is None ==> !r,
    {
        self.is_expired_at(current_time())
    }

    /// Counts one more access at `now` and hands out the value.
    pub fn access_at(&mut self, now: Timestamp) -> (r: &T)
        requires
            old(self).access_count < u64::MAX,
        ensures
            *r == old(self).data,
            *final(self) == old(self).accessed(now),
    {
        self.last_accessed = now;
        self.access_count += 1;
        &self.data
    }

    /// Counts one more access at the current reading of the clock and hands
    /// out the value.
    pub fn access(&mut self) -> (r: &T)
        requires
            old(self).access_count < u64::MAX,
        ensures
            *r == old(self).data,
            exists|now: Timestamp| *final(self) == old(self).accessed(now),
    {
        let now = current_time();
        self.access_at(now)
    }
}

/// What a cache entry is kept under.
#[derive(Debug, Clone, Hash, PartialEq, Eq)]
pub enum CacheKey {
    /// Session metadata, by session id.
    SessionData(String),
    /// Gait data, by device id and time range.
    GaitData(String, String),
    /// The result of an analytics query.
    AnalyticsResult(String),
    /// An export configuration.
    ExportData(String),
    /// System metrics, by kind.
    SystemMetrics(String),
    /// A device buffer, by device id.
    DeviceBuffer(String),
    /// Configuration, by kind.
    ConfigData(String),
    /// The result of a validation.
    ValidationResult(String),
}

impl CacheKey {
    /// The key as text: the name of its category, a colon, and its parts
    /// separated by colons.
    pub open spec fn text(&self) -> Seq<char> {
        match *self {
            CacheKey::SessionData(id) => "session:"@ + id@,
            CacheKey::GaitData(device, time_hash) => "gait:"@ + device@ + ":"@ + time_hash@,
            CacheKey::AnalyticsResult(hash) => "analytics:"@ + hash@,
            CacheKey::ExportData(hash) => "export:"@ + hash@,
            CacheKey::SystemMetrics(metric_type) => "metrics:"@ + metric_type@,
            CacheKey::DeviceBuffer(device_id) => "buffer:"@ + device_id@,
            CacheKey::ConfigData(config_type) => "config:"@ + config_type@,
            CacheKey::ValidationResult(hash) => "validation:"@ + hash@,
        }
    }

    pub fn to_string(&self) -> (s: String)
        ensures
            s@ == self.text(),
    {
        match self {
            CacheKey::SessionData(id) => prefixed("session:", id),
            CacheKey::GaitData(device, time_hash) => {
                let mut s = prefixed("gait:", device);
                s.append(":");
                s.append(time_hash.as_str());
                s
            },
            CacheKey::AnalyticsResult(hash) => prefixed("analytics:", hash),
            CacheKey::ExportData(hash) => prefixed("export:", hash),
            CacheKey::SystemMetrics(metric_type) => prefixed("metrics:", metric_type),
            CacheKey::DeviceBuffer(device_id) => prefixed("buffer:", device_id),
            CacheKey::ConfigData(config_type) => prefixed("config:", config_type),
            CacheKey::ValidationResult(hash) => prefixed("validation:", hash),
        }
    }
}

/// `prefix` followed by `rest`.
fn prefixed(prefix: &str, rest: &String) -> (s: String)
    ensures
        s@ == prefix@ + rest@,
{
    let mut s = prefix.to_owned();
    s.append(rest.as_str());
    s
}

/// How cache entries are invalidated.
#[derive(Debug, Clone)]
pub enum InvalidationStrategy {
    /// After the given number of milliseconds.
    TimeToLive(u64),
    /// After the given number of accesses.
    AccessBased(u64),
    /// Beyond the given size in bytes.
    SizeBased(usize),
    /// By a pattern on the key.
    Pattern(String),
    /// Only on request.
    Manual,
}

/// Feeds `obj` to `hasher` with `core::hash::Hash::hash`. What is written
/// depends on how the type of `obj` implements `Hash`, so nothing is said
/// about the state of the hasher afterwards.
#[verifier::external_body]
fn feed<T: Hash>(obj: &T, hasher: &mut DefaultHasher) {
    obj.hash(hasher)
}

/// A short text that stands for `obj`: the hash that std's default hasher
/// gives it, written in hexadecimal with lower-case digits and without
/// leading zeros.
pub fn generate_hash<T: Hash>(obj: &T) -> (hash: String)
    ensures
        exists|value: u64| hash@ == #[trigger] digits(value as nat, 16),
{
    let mut hasher = DefaultHasher::new();
    feed(obj, &mut hasher);
    let value: u64 = hasher.finish();
    number_text(value, 16)
}

} // verus!
