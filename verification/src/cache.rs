//! The rules of the parse cache: where an entry lives, how long it stays valid, and
//! when a cached entry must be thrown away.

use vstd::prelude::*;
use std::collections::hash_map::DefaultHasher;
use std::hash::Hasher;
use crate::config::{Config, duration_spec, duration_unit, lemma_digit_prefix, split_numeric_suffix_spec};
use crate::errors::ArchDocError;
use crate::text::{is_digit, trim_seq, all_digits, chars_of, concat2, digits_value, hex_seq, push_char, push_hex, string_of_range};
use crate::config::parse_digits;

verus! {

/// Remembers parsed modules between runs, in files under the cache directory.
pub struct CacheManager {
    config: Config,
    cache_dir: String,
}

/// A moment in UTC, as whole seconds since the Unix epoch and the nanoseconds past them.
#[derive(Clone, Copy, Debug)]
pub struct Timestamp {
    pub secs: i64,
    pub nanos: u32,
}

// ---------------------------------------------------------------- specification
/// `s` read as an unsigned decimal number with an optional leading `+`, as
/// `str::parse::<u64>` reads it before its range check.
pub open spec fn unsigned_value(s: Seq<char>) -> Option<nat> {
    let digits = if s.len() > 0 && s[0] == '+' {
        s.drop_first()
    } else {
        s
    };
    if digits.len() > 0 && all_digits(digits) {
        Some(digits_value(digits))
    } else {
        None
    }
}

/// The number of seconds in one unit of a cache-age suffix.
pub open spec fn cache_age_unit(c: char) -> Option<nat> {
    if c == 's' {
        Some(1)
    } else if c == 'm' {
        Some(60)
    } else if c == 'h' {
        Some(3600)
    } else if c == 'd' {
        Some(86400)
    } else if c == 'w' {
        Some(604800)
    } else {
        None
    }
}

/// What the cache reads from a maximum age such as `24h`: the number of seconds, or
/// the message of the error. The empty text means zero; otherwise the last character
/// is the unit and the rest the number.
pub open spec fn cache_age_spec(s: Seq<char>) -> Result<nat, Seq<char>> {
    if s.len() == 0 {
        Ok(0)
    } else {
        match unsigned_value(s.drop_last()) {
            Some(v) => if v <= u64::MAX {
                match cache_age_unit(s.last()) {
                    Some(u) => Ok(v * u),
                    None => Err("Unknown duration unit: "@ + seq![s.last()]),
                }
            } else {
                Err("Invalid duration format: "@ + s)
            },
            None => Err("Invalid duration format: "@ + s),
        }
    }
}

/// A maximum age written as a decimal number followed by one of the units `s`, `m`, `h`,
/// `d` or `w` means the same number of seconds to the cache as to the configuration
/// check, which accepts it.
pub proof fn lemma_cache_age_agrees_with_config(digits: Seq<char>, unit: char)
    requires
        digits.len() > 0,
        all_digits(digits),
        digits_value(digits) <= u64::MAX,
        unit == 's' || unit == 'm' || unit == 'h' || unit == 'd' || unit == 'w',
    ensures
        cache_age_spec(digits.push(unit)) == duration_spec(digits.push(unit)),
        duration_spec(digits.push(unit)) is Ok,
{
    let s = digits.push(unit);
    let n = digits.len() as int;
    assert(is_digit(s[0]));
    assert(trim_seq(s) == s);
    assert forall|j: int| 0 <= j < n implies is_digit(#[trigger] s[j]) by {
        assert(s[j] == digits[j]);
    }
    lemma_digit_prefix(s, n);
    assert(s.subrange(0, n) =~= digits);
    assert(s.subrange(n, s.len() as int) =~= seq![unit]);
    assert(s.drop_last() =~= digits);
    reveal_strlit("s");
    reveal_strlit("m");
    reveal_strlit("h");
    reveal_strlit("d");
    reveal_strlit("w");
    assert(digits[0] != '+');
    let suffix = seq![unit];
    assert(split_numeric_suffix_spec(trim_seq(s)) == Ok::<(Seq<char>, Seq<char>), Seq<char>>((digits, suffix)));
    assert(unsigned_value(s.drop_last()) == Some(digits_value(digits)));
    assert(s.last() == unit);
    assert(suffix[0] == unit);
    assert("s"@[0] == 's' && "m"@[0] == 'm' && "h"@[0] == 'h' && "d"@[0] == 'd');
    if unit == 's' {
        assert(suffix =~= "s"@);
    } else if unit == 'm' {
        assert(suffix =~= "m"@);
        assert(suffix != "s"@);
    } else if unit == 'h' {
        assert(suffix =~= "h"@);
        assert(suffix != "s"@ && suffix != "m"@);
    } else if unit == 'd' {
        assert(suffix =~= "d"@);
        assert(suffix != "s"@ && suffix != "m"@ && suffix != "h"@);
    } else {
        assert(suffix =~= "w"@);
        assert(suffix != "s"@ && suffix != "m"@ && suffix != "h"@ && suffix != "d"@);
    }
    assert(duration_unit(suffix) == cache_age_unit(unit));
}

/// The cache age read from `s` fits in `u64` when it is a value.
pub open spec fn cache_age_fits(s: Seq<char>) -> bool {
    cache_age_spec(s) matches Ok(v) ==> v <= u64::MAX
}

/// A moment as nanoseconds since the epoch.
pub open spec fn total_nanos(t: Timestamp) -> int {
    t.secs * 1_000_000_000 + t.nanos
}

/// The whole seconds from `then` to `now`, rounded toward zero (negative when `then`
/// is later).
pub open spec fn whole_seconds_between(now: Timestamp, then: Timestamp) -> int {
    let d = total_nanos(now) - total_nanos(then);
    if d >= 0 {
        d / 1_000_000_000
    } else {
        -((-d) / 1_000_000_000)
    }
}

/// `v` as `v as i64` gives it: values past `i64::MAX` wrap to negative numbers.
pub open spec fn wrapped_i64(v: u64) -> int {
    if v <= i64::MAX {
        v as int
    } else {
        v - 0x1_0000_0000_0000_0000
    }
}

/// `a` is later than `b`.
pub open spec fn later(a: Timestamp, b: Timestamp) -> bool {
    a.secs > b.secs || (a.secs == b.secs && a.nanos > b.nanos)
}

// ---------------------------------------------------------------- execution
/// Feeds the path `path` to `h`, as `Hash::hash` of `std::path::Path` does. Nothing is
/// stated of the hasher's state afterwards: the bytes it is fed depend on the machine.
#[verifier::external_body]
fn hash_path(path: &str, h: &mut DefaultHasher) {
    std::hash::Hash::hash(std::path::Path::new(path), h);
}

/// `u` as `u as i64` gives it.
fn wrap_to_i64(u: u64) -> (r: i64)
    ensures
        r == wrapped_i64(u),
{
    if u <= 0x7fff_ffff_ffff_ffff {
        u as i64
    } else {
        let above: u64 = u - 0x8000_0000_0000_0000;
        (above as i64) + i64::MIN
    }
}

/// The whole seconds from `then` to `now`, rounded toward zero: what chrono's
/// `signed_duration_since(..).num_seconds()` gives for two moments with fewer than
/// a second of nanoseconds each. Every moment chrono can represent lies well inside
/// the range of seconds allowed here.
pub fn seconds_between(now: Timestamp, then: Timestamp) -> (r: i64)
    requires
        -0x1_0000_0000_0000 <= now.secs <= 0x1_0000_0000_0000,
        -0x1_0000_0000_0000 <= then.secs <= 0x1_0000_0000_0000,
    ensures
        r == whole_seconds_between(now, then),
{
    let a: i128 = (now.secs as i128) * 1_000_000_000 + (now.nanos as i128);
    let b: i128 = (then.secs as i128) * 1_000_000_000 + (then.nanos as i128);
    let d: i128 = a - b;
    let s: i128 = if d >= 0 {
        d / 1_000_000_000
    } else {
        -((-d) / 1_000_000_000)
    };
    assert(-0x1_0000_0000_0000 * 3 <= s <= 0x1_0000_0000_0000 * 3) by (nonlinear_arith)
        requires
            d == a - b,
            -0x1_0000_0000_0000 * 1_000_000_000 <= a <= 0x1_0000_0000_0000 * 1_000_000_000 + 0x1_0000_0000,
            -0x1_0000_0000_0000 * 1_000_000_000 <= b <= 0x1_0000_0000_0000 * 1_000_000_000 + 0x1_0000_0000,
            d >= 0 ==> s == d / 1_000_000_000,
            d < 0 ==> s == -((-d) / 1_000_000_000),
    ;
    s as i64
}

/// The number of seconds that the maximum cache age `duration_str` stands for, in a
/// width where every age that reads fits, or the message of the error.
pub fn cache_age_seconds(duration_str: &str) -> (r: Result<u128, String>)
    ensures
        match cache_age_spec(duration_str@) {
            Ok(v) => r matches Ok(x) && x == v,
            Err(m) => r matches Err(e) && e@ == m,
        },
{
    let cs = chars_of(duration_str);
    let n = cs.len();
    if n == 0 {
        return Ok(0);
    }
    let unit = cs[n - 1];
    let start: usize = if n > 1 && cs[0] == '+' {
        1
    } else {
        0
    };
    let ghost num = cs@.drop_last();
    let digits = string_of_range(&cs, start, n - 1);
    let dcs = chars_of(digits.as_str());
    let mut all: bool = dcs.len() > 0;
    let mut i: usize = 0;
    while i < dcs.len()
        invariant
            i <= dcs@.len(),
            all == (dcs@.len() > 0 && forall|j: int| 0 <= j < i ==> '0' <= #[trigger] dcs@[j] <= '9'),
        decreases dcs@.len() - i,
    {
        if !('0' <= dcs[i] && dcs[i] <= '9') {
            all = false;
        }
        i = i + 1;
    }
    proof {
        let d = if num.len() > 0 && num[0] == '+' {
            num.drop_first()
        } else {
            num
        };
        assert(dcs@ =~= d);
        assert(all == (d.len() > 0 && all_digits(d)));
        assert(unit == duration_str@.last());
    }
    let value = if all {
        parse_digits(dcs.as_slice())
    } else {
        None
    };
    let v = match value {
        Some(v) => v,
        None => {
            return Err(concat2("Invalid duration format: ", duration_str));
        },
    };
    assert(unsigned_value(duration_str@.drop_last()) == Some(v as nat));
    let w = v as u128;
    assert(w * 604800 <= 0x1_0000_0000_0000_0000_0000_0000) by (nonlinear_arith)
        requires
            w <= 0xffff_ffff_ffff_ffff,
    ;
    if unit == 's' {
        assert(v * 1 == v);
        assert(cache_age_spec(duration_str@) == Ok::<nat, Seq<char>>(v as nat));
        Ok(w)
    } else if unit == 'm' {
        assert(cache_age_spec(duration_str@) == Ok::<nat, Seq<char>>((v * 60) as nat));
        Ok(w * 60)
    } else if unit == 'h' {
        assert(cache_age_spec(duration_str@) == Ok::<nat, Seq<char>>((v * 3600) as nat));
        Ok(w * 3600)
    } else if unit == 'd' {
        assert(cache_age_spec(duration_str@) == Ok::<nat, Seq<char>>((v * 86400) as nat));
        Ok(w * 86400)
    } else if unit == 'w' {
        assert(cache_age_spec(duration_str@) == Ok::<nat, Seq<char>>((v * 604800) as nat));
        Ok(w * 604800)
    } else {
        let mut m = String::from_str("Unknown duration unit: ");
        push_char(&mut m, unit);
        assert(m@ =~= "Unknown duration unit: "@ + seq![duration_str@.last()]);
        Err(m)
    }
}

/// Whether the maximum cache age `duration_str`, when it reads, fits in `u64`: the
/// condition under which `CacheManager::parse_duration` and `is_expired` may read it.
pub fn cache_age_fits_u64(duration_str: &str) -> (r: bool)
    ensures
        r == cache_age_fits(duration_str@),
{
    match cache_age_seconds(duration_str) {
        Ok(v) => v <= 0xffff_ffff_ffff_ffff,
        Err(_) => true,
    }
}

impl CacheManager {
    /// A cache manager for `config`; its directory is the configured cache directory.
    pub fn new(config: Config) -> (c: Self)
        ensures
            c.spec_config() == config,
            c.spec_cache_dir() == config.caching.cache_dir@,
    {
        let cache_dir = config.caching.cache_dir.clone();
        CacheManager { config, cache_dir }
    }

    /// The configuration the cache follows.
    pub closed spec fn spec_config(self) -> Config {
        self.config
    }

    /// The directory that holds the cache files.
    pub closed spec fn spec_cache_dir(self) -> Seq<char> {
        self.cache_dir@
    }

    /// Whether caching is switched on.
    pub fn caching_enabled(&self) -> (r: bool)
        ensures
            r == self.spec_config().caching.enabled,
    {
        self.config.caching.enabled
    }

    /// The directory that holds the cache files.
    pub fn cache_dir(&self) -> (r: &str)
        ensures
            r@ == self.spec_cache_dir(),
    {
        self.cache_dir.as_str()
    }

    /// The name of the cache file of `file_path`: the hexadecimal hash of the path
    /// followed by `.json`. The hash is `DefaultHasher`'s, which depends on the machine.
    pub fn get_cache_key(&self, file_path: &str) -> (r: String)
        ensures
            exists|h: u64| r@ == hex_seq(h as nat) + ".json"@,
    {
        let mut hasher = DefaultHasher::new();
        hash_path(file_path, &mut hasher);
        let hash = hasher.finish();
        let mut key = String::new();
        push_hex(&mut key, hash);
        key.append(".json");
        key
    }

    /// Reads a maximum cache age such as `24h` or `7d` into seconds: the last character
    /// is the unit (`s`, `m`, `h`, `d` or `w`) and the rest an unsigned number; the
    /// empty text means zero.
    pub fn parse_duration(&self, duration_str: &str) -> (r: Result<u64, ArchDocError>)
        requires
            cache_age_fits(duration_str@),
        ensures
            match cache_age_spec(duration_str@) {
                Ok(v) => r matches Ok(x) && x == v,
                Err(m) => r matches Err(ArchDocError::AnalysisError(e)) && e@ == m,
            },
    {
        match cache_age_seconds(duration_str) {
            Ok(v) => Ok(v as u64),
            Err(m) => Err(ArchDocError::AnalysisError(m)),
        }
    }

    /// Whether an entry made at `created_at` has outlived the configured maximum age
    /// at `now`: its age in whole seconds is above the maximum (read as `i64`, as the
    /// comparison does). An unreadable maximum age is an error.
    pub fn is_expired(&self, now: Timestamp, created_at: Timestamp) -> (r: Result<bool, ArchDocError>)
        requires
            -0x1_0000_0000_0000 <= now.secs <= 0x1_0000_0000_0000,
            -0x1_0000_0000_0000 <= created_at.secs <= 0x1_0000_0000_0000,
            cache_age_fits(self.spec_config().caching.max_cache_age@),
        ensures
            match cache_age_spec(self.spec_config().caching.max_cache_age@) {
                Ok(v) => r == Ok::<bool, ArchDocError>(whole_seconds_between(now, created_at) > wrapped_i64(v as u64)),
                Err(m) => r matches Err(ArchDocError::AnalysisError(e)) && e@ == m,
            },
    {
        let age = seconds_between(now, created_at);
        let max_age = match self.parse_duration(self.config.caching.max_cache_age.as_str()) {
            Ok(v) => v,
            Err(e) => {
                return Err(e);
            },
        };
        Ok(age > wrap_to_i64(max_age))
    }
}

/// Whether a source file modified at `modified` is newer than the copy that was cached
/// when it had been modified at `cached_modified`.
pub fn is_stale(modified: Timestamp, cached_modified: Timestamp) -> (r: bool)
    ensures
        r == later(modified, cached_modified),
{
    modified.secs > cached_modified.secs || (modified.secs == cached_modified.secs && modified.nanos
        > cached_modified.nanos)
}

} // verus!
