//! The limits of the benchmark interface.

use crate::text::{decimal, law_decimal_round_trip, parse_u64, parse_unsigned, same_text};
use vstd::prelude::*;

verus! {

/// A span of time: whole seconds, and nanoseconds of the second that is not whole.
#[derive(Debug, Clone, Copy, PartialEq, Eq)]
pub struct Duration {
    pub secs: u64,
    pub nanos: u32,
}

pub const NANOS_PER_SEC: u64 = 1_000_000_000;

impl Duration {
    pub open spec fn wf(self) -> bool {
        self.nanos < NANOS_PER_SEC
    }

    pub open spec fn total_nanos(self) -> nat {
        (self.secs * NANOS_PER_SEC + self.nanos) as nat
    }

    pub fn from_secs(secs: u64) -> (r: Duration)
        ensures
            r == (Duration { secs, nanos: 0 }),
            r.wf(),
            r.total_nanos() == secs * NANOS_PER_SEC,
    {
        Duration { secs, nanos: 0 }
    }

    pub fn from_millis(millis: u64) -> (r: Duration)
        ensures
            r.wf(),
            r.total_nanos() == millis * 1_000_000,
    {
        Duration { secs: millis / 1000, nanos: ((millis % 1000) * 1_000_000) as u32 }
    }

    /// The whole seconds.
    pub fn as_secs(&self) -> (r: u64)
        ensures
            r == self.secs,
            self.wf() ==> r == self.total_nanos() / NANOS_PER_SEC as nat,
    {
        self.secs
    }
}

#[derive(Debug, Clone, Copy, PartialEq, Eq)]
pub struct BenchmarkApiConfig {
    pub enabled: bool,
    pub max_total_bytes: u64,
    pub max_records: u64,
    pub max_concurrency: usize,
    pub max_duration: Duration,
}

pub const DEFAULT_MAX_TOTAL_BYTES: u64 = 4294967296;

pub const DEFAULT_MAX_RECORDS: u64 = 1_000_000;

pub const DEFAULT_MAX_CONCURRENCY: usize = 64;

pub const DEFAULT_MAX_DURATION_SECS: u64 = 300;

pub open spec fn default_config() -> BenchmarkApiConfig {
    BenchmarkApiConfig {
        enabled: false,
        max_total_bytes: DEFAULT_MAX_TOTAL_BYTES,
        max_records: DEFAULT_MAX_RECORDS,
        max_concurrency: DEFAULT_MAX_CONCURRENCY,
        max_duration: Duration { secs: DEFAULT_MAX_DURATION_SECS, nanos: 0 },
    }
}

impl Default for BenchmarkApiConfig {
    fn default() -> (r: BenchmarkApiConfig)
        ensures
            r == default_config(),
    {
        BenchmarkApiConfig {
            enabled: false,
            max_total_bytes: DEFAULT_MAX_TOTAL_BYTES,
            max_records: DEFAULT_MAX_RECORDS,
            max_concurrency: DEFAULT_MAX_CONCURRENCY,
            max_duration: Duration::from_secs(DEFAULT_MAX_DURATION_SECS),
        }
    }
}

/// The settings of the environment, where they are set.
pub struct BenchmarkApiVars {
    /// `RS_BENCHMARK_API`
    pub enabled: Option<String>,
    /// `RS_BENCHMARK_MAX_TOTAL_SIZE`
    pub max_total_size: Option<String>,
    /// `RS_BENCHMARK_MAX_RECORDS`
    pub max_records: Option<String>,
    /// `RS_BENCHMARK_MAX_CONCURRENCY`
    pub max_concurrency: Option<String>,
    /// `RS_BENCHMARK_MAX_DURATION`, in seconds
    pub max_duration: Option<String>,
}

/// What `ByteSize::from_str` makes of a text.
pub uninterp spec fn byte_size(text: Seq<char>) -> Option<u64>;

/// `ByteSize::from_str`: the number of bytes that a text such as `1GB` stands for, if it is one.
/// A text that is a number alone stands for that number.
#[verifier::external_body]
fn parse_byte_size(text: &str) -> (r: Option<u64>)
    ensures
        r == byte_size(text@),
        parse_unsigned(text@) is Some ==> r == parse_unsigned(text@),
{
    text.parse::<bytesize::ByteSize>().ok().map(|size| size.as_u64())
}

/// Whether a text says yes.
pub open spec fn says_yes(text: Seq<char>) -> bool {
    text == "true"@ || text == "1"@ || text == "yes"@
}

/// A value, or the default where there is none.
pub open spec fn or_default<T>(value: Option<T>, default: T) -> T {
    match value {
        Some(value) => value,
        None => default,
    }
}

/// The configuration for the given values; what has no value takes its default.
pub fn config_of(
    enabled: Option<bool>,
    max_total_bytes: Option<u64>,
    max_records: Option<u64>,
    max_concurrency: Option<usize>,
    max_duration_secs: Option<u64>,
) -> (r: BenchmarkApiConfig)
    ensures
        r == (BenchmarkApiConfig {
            enabled: or_default(enabled, false),
            max_total_bytes: or_default(max_total_bytes, DEFAULT_MAX_TOTAL_BYTES),
            max_records: or_default(max_records, DEFAULT_MAX_RECORDS),
            max_concurrency: or_default(max_concurrency, DEFAULT_MAX_CONCURRENCY),
            max_duration: Duration {
                secs: or_default(max_duration_secs, DEFAULT_MAX_DURATION_SECS),
                nanos: 0,
            },
        }),
{
    BenchmarkApiConfig {
        enabled: match enabled {
            Some(enabled) => enabled,
            None => false,
        },
        max_total_bytes: match max_total_bytes {
            Some(bytes) => bytes,
            None => DEFAULT_MAX_TOTAL_BYTES,
        },
        max_records: match max_records {
            Some(records) => records,
            None => DEFAULT_MAX_RECORDS,
        },
        max_concurrency: match max_concurrency {
            Some(concurrency) => concurrency,
            None => DEFAULT_MAX_CONCURRENCY,
        },
        max_duration: Duration::from_secs(
            match max_duration_secs {
                Some(secs) => secs,
                None => DEFAULT_MAX_DURATION_SECS,
            },
        ),
    }
}

/// The number in a setting, if it is set and holds one.
pub open spec fn number_in(text: Option<String>) -> Option<u64> {
    match text {
        Some(text) => parse_unsigned(text@),
        None => None,
    }
}

fn number_of(text: &Option<String>) -> (r: Option<u64>)
    ensures
        r == number_in(*text),
{
    match text {
        Some(text) => parse_u64(text.as_str()),
        None => None,
    }
}

/// The configuration that the settings of the environment ask for.
pub open spec fn config_from(vars: BenchmarkApiVars) -> BenchmarkApiConfig {
    BenchmarkApiConfig {
        enabled: match vars.enabled {
            Some(text) => says_yes(text@),
            None => false,
        },
        max_total_bytes: or_default(
            match vars.max_total_size {
                Some(text) => byte_size(text@),
                None => None,
            },
            DEFAULT_MAX_TOTAL_BYTES,
        ),
        max_records: or_default(number_in(vars.max_records), DEFAULT_MAX_RECORDS),
        max_concurrency: match number_in(vars.max_concurrency) {
            Some(n) => if n <= usize::MAX {
                n as usize
            } else {
                DEFAULT_MAX_CONCURRENCY
            },
            None => DEFAULT_MAX_CONCURRENCY,
        },
        max_duration: Duration {
            secs: or_default(number_in(vars.max_duration), DEFAULT_MAX_DURATION_SECS),
            nanos: 0,
        },
    }
}

/// A setting that holds a number counts with that number, whatever it is, and each setting counts
/// for itself alone.
pub proof fn law_set_numbers_count(vars: BenchmarkApiVars, n: u64)
    ensures
        vars.max_records is Some && vars.max_records->0@ == decimal(n as nat) ==> config_from(
            vars,
        ).max_records == n,
        vars.max_duration is Some && vars.max_duration->0@ == decimal(n as nat) ==> config_from(
            vars,
        ).max_duration.total_nanos() == n * 1_000_000_000,
        vars.max_concurrency is Some && vars.max_concurrency->0@ == decimal(n as nat) && n
            <= usize::MAX ==> config_from(vars).max_concurrency == n,
        vars.max_total_size is Some && byte_size(vars.max_total_size->0@) == Some(n)
            ==> config_from(vars).max_total_bytes == n,
        vars.enabled is Some && (vars.enabled->0@ == "true"@ || vars.enabled->0@ == "1"@
            || vars.enabled->0@ == "yes"@) ==> config_from(vars).enabled,
{
    law_decimal_round_trip(n);
}

/// What is not set, or does not hold a number, takes its default: the interface is off, and its
/// limits are four gibibytes, a million records, 64 writers and five minutes.
pub proof fn law_unset_settings_take_their_defaults(vars: BenchmarkApiVars)
    ensures
        vars.enabled is None ==> !config_from(vars).enabled,
        vars.max_total_size is None ==> config_from(vars).max_total_bytes == 4_294_967_296,
        vars.max_records is None || parse_unsigned(vars.max_records->0@) is None ==> config_from(
            vars,
        ).max_records == 1_000_000,
        vars.max_concurrency is None || parse_unsigned(vars.max_concurrency->0@) is None
            ==> config_from(vars).max_concurrency == 64,
        vars.max_duration is None || parse_unsigned(vars.max_duration->0@) is None ==> config_from(
            vars,
        ).max_duration.total_nanos() == 300_000_000_000,
        default_config() == (BenchmarkApiConfig {
            enabled: false,
            max_total_bytes: 4_294_967_296,
            max_records: 1_000_000,
            max_concurrency: 64,
            max_duration: Duration { secs: 300, nanos: 0 },
        }),
{
}

/// The configuration that the environment asks for. A setting that does not hold what it should
/// counts as not set.
pub fn parse_benchmark_api_config(vars: &BenchmarkApiVars) -> (r: BenchmarkApiConfig)
    ensures
        r == (BenchmarkApiConfig {
            enabled: match vars.enabled {
                Some(text) => says_yes(text@),
                None => false,
            },
            max_total_bytes: or_default(
                match vars.max_total_size {
                    Some(text) => byte_size(text@),
                    None => None,
                },
                DEFAULT_MAX_TOTAL_BYTES,
            ),
            max_records: or_default(number_in(vars.max_records), DEFAULT_MAX_RECORDS),
            max_concurrency: match number_in(vars.max_concurrency) {
                Some(n) => if n <= usize::MAX {
                    n as usize
                } else {
                    DEFAULT_MAX_CONCURRENCY
                },
                None => DEFAULT_MAX_CONCURRENCY,
            },
            max_duration: Duration {
                secs: or_default(number_in(vars.max_duration), DEFAULT_MAX_DURATION_SECS),
                nanos: 0,
            },
        }),
        r == config_from(*vars),
{
    let enabled: Option<bool> = match &vars.enabled {
        Some(text) => Some(
            same_text(text.as_str(), "true") || same_text(text.as_str(), "1") || same_text(
                text.as_str(),
                "yes",
            ),
        ),
        None => None,
    };
    let max_total_bytes: Option<u64> = match &vars.max_total_size {
        Some(text) => parse_byte_size(text.as_str()),
        None => None,
    };
    let max_concurrency: Option<usize> = match number_of(&vars.max_concurrency) {
        Some(n) => if n <= usize::MAX as u64 {
            Some(n as usize)
        } else {
            None
        },
        None => None,
    };
    config_of(
        enabled,
        max_total_bytes,
        number_of(&vars.max_records),
        max_concurrency,
        number_of(&vars.max_duration),
    )
}

} // verus!
