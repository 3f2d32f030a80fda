//! Process configuration: the settings, their defaults, and their parsing
//! from environment-style key/value pairs.
//!
//! The shell collects the process environment (keys lowercased) and hands it
//! here; [`load`] applies defaults and parses the numeric settings, and
//! [`Config::validate`] enforces that every duration is positive.

use vstd::prelude::*;
use vstd::string::StrSliceExecFns;

use crate::text::{assoc_lookup, spec_assoc_lookup};

verus! {

/// Whether `c` is a decimal digit.
pub open spec fn is_dec_digit(c: char) -> bool {
    '0' as int <= c as int <= '9' as int
}

/// The numeric value of a decimal digit.
pub open spec fn digit_value(c: char) -> int {
    c as int - '0' as int
}

/// Whether every character of `s` is a decimal digit.
pub open spec fn all_dec_digits(s: Seq<char>) -> bool {
    forall|i: int| 0 <= i < s.len() ==> is_dec_digit(#[trigger] s[i])
}

/// The number denoted by a string of decimal digits.
pub open spec fn dec_value(s: Seq<char>) -> int
    decreases s.len(),
{
    if s.len() == 0 {
        0
    } else {
        dec_value(s.drop_last()) * 10 + digit_value(s.last())
    }
}

/// Whether `s` denotes a `u64`: nonempty, all digits, and in range.
pub open spec fn valid_u64_string(s: Seq<char>) -> bool {
    s.len() > 0 && all_dec_digits(s) && dec_value(s) <= u64::MAX
}

/// The value of an all-digit string grows (weakly) with every digit, and is
/// never negative.
proof fn lemma_dec_value_prefix(s: Seq<char>, k: int)
    requires
        all_dec_digits(s),
        0 <= k <= s.len(),
    ensures
        0 <= dec_value(s.subrange(0, k)) <= dec_value(s),
    decreases s.len() - k,
{
    if k == s.len() {
        assert(s.subrange(0, k) =~= s);
        lemma_dec_value_nonneg(s);
    } else {
        lemma_dec_value_prefix(s, k + 1);
        let shorter = s.subrange(0, k);
        let longer = s.subrange(0, k + 1);
        assert(longer.drop_last() =~= shorter);
        assert(all_dec_digits(shorter)) by {
            assert(forall|i: int| 0 <= i < shorter.len() ==> shorter[i] == s[i]);
        }
        lemma_dec_value_nonneg(shorter);
        assert(dec_value(longer) == dec_value(shorter) * 10 + digit_value(s[k]));
        assert(is_dec_digit(s[k]));
    }
}

/// An all-digit string has a nonnegative value.
proof fn lemma_dec_value_nonneg(s: Seq<char>)
    requires
        all_dec_digits(s),
    ensures
        dec_value(s) >= 0,
    decreases s.len(),
{
    if s.len() > 0 {
        let prefix = s.drop_last();
        assert(all_dec_digits(prefix)) by {
            assert(forall|i: int| 0 <= i < prefix.len() ==> prefix[i] == s[i]);
        }
        lemma_dec_value_nonneg(prefix);
        assert(is_dec_digit(s.last()));
    }
}

/// Parse a decimal `u64`.  Returns `None` exactly when the string is empty,
/// holds a non-digit, or denotes a number out of range.
pub fn parse_u64(s: &str) -> (r: Option<u64>)
    ensures
        (match r {
            Some(v) => valid_u64_string(s@) && v as int == dec_value(s@),
            None => !valid_u64_string(s@),
        }),
{
    let len = s.unicode_len();
    if len == 0 {
        return None;
    }
    let mut acc: u64 = 0;
    let mut i: usize = 0;
    #[verifier::loop_isolation(false)]
    while i < len
        invariant
            0 <= i <= len,
            all_dec_digits(s@.subrange(0, i as int)),
            acc as int == dec_value(s@.subrange(0, i as int)),
        decreases len - i,
    {
        let c = s.get_char(i);
        let cv = c as u32;
        if cv < 48 || cv > 57 {
            proof {
                assert(!is_dec_digit(s@[i as int]));
            }
            return None;
        }
        let d = (cv - 48) as u64;
        let wide: u128 = acc as u128 * 10 + d as u128;
        proof {
            let longer = s@.subrange(0, i as int + 1);
            assert(longer.drop_last() =~= s@.subrange(0, i as int));
            assert(longer.last() == s@[i as int]);
            assert(all_dec_digits(longer));
            assert(wide as int == dec_value(longer));
        }
        if wide > u64::MAX as u128 {
            proof {
                if all_dec_digits(s@) {
                    lemma_dec_value_prefix(s@, i as int + 1);
                    assert(dec_value(s@) >= dec_value(s@.subrange(0, i as int + 1)));
                }
            }
            return None;
        }
        acc = wide as u64;
        i = i + 1;
    }
    proof {
        assert(s@.subrange(0, len as int) =~= s@);
    }
    Some(acc)
}

/// The settings of the process.  All durations are in seconds.
#[derive(Debug)]
pub struct Config {
    /// Path of the runtime daemon socket.
    pub docker_path: String,
    /// Seconds between full ping sweeps.
    pub ping_interval: u64,
    /// Number of retries for failed pings.
    pub ping_retries: u8,
    /// Seconds until a ping sweep times out.
    pub ping_timeout: u64,
    /// Seconds between full inventory refreshes.
    pub fetch_interval: u64,
    /// Seconds until an inventory refresh times out.
    pub fetch_timeout: u64,
    /// Seconds until handling one lifecycle event times out.
    pub event_timeout: u64,
}

/// Mathematical value of a [`Config`].
pub struct ConfigView {
    pub docker_path: Seq<char>,
    pub ping_interval: u64,
    pub ping_retries: u8,
    pub ping_timeout: u64,
    pub fetch_interval: u64,
    pub fetch_timeout: u64,
    pub event_timeout: u64,
}

impl View for Config {
    type V = ConfigView;

    open spec fn view(&self) -> ConfigView {
        ConfigView {
            docker_path: self.docker_path@,
            ping_interval: self.ping_interval,
            ping_retries: self.ping_retries,
            ping_timeout: self.ping_timeout,
            fetch_interval: self.fetch_interval,
            fetch_timeout: self.fetch_timeout,
            event_timeout: self.event_timeout,
        }
    }
}

/// The settings used when the environment sets nothing.
pub open spec fn spec_default_config() -> ConfigView {
    ConfigView {
        docker_path: "/var/run/docker.sock"@,
        ping_interval: 60,
        ping_retries: 5,
        ping_timeout: 50,
        fetch_interval: 600,
        fetch_timeout: 300,
        event_timeout: 60,
    }
}

impl Default for Config {
    /// The default settings.
    fn default() -> (c: Self)
        ensures
            c@ == spec_default_config(),
    {
        Config {
            docker_path: "/var/run/docker.sock".to_owned(),
            ping_interval: 60,
            ping_retries: 5,
            ping_timeout: 50,
            fetch_interval: 600,
            fetch_timeout: 300,
            event_timeout: 60,
        }
    }
}

/// A setting that could not be parsed.
#[derive(Debug)]
pub enum ConfigError {
    /// The named setting's value is not a number in range.
    InvalidValue(String),
}

/// A `u64` setting: the default when unset, its decimal value when set to a
/// valid number, and `None` (an error) otherwise.
pub open spec fn spec_u64_setting(
    vars: Seq<(String, String)>,
    name: Seq<char>,
    default: u64,
) -> Option<u64> {
    match spec_assoc_lookup(vars, name) {
        None => Some(default),
        Some(s) => if valid_u64_string(s) {
            Some(dec_value(s) as u64)
        } else {
            None
        },
    }
}

/// A `u8` setting, as [`spec_u64_setting`] with the `u8` range.
pub open spec fn spec_u8_setting(
    vars: Seq<(String, String)>,
    name: Seq<char>,
    default: u8,
) -> Option<u8> {
    match spec_assoc_lookup(vars, name) {
        None => Some(default),
        Some(s) => if valid_u64_string(s) && dec_value(s) <= u8::MAX {
            Some(dec_value(s) as u8)
        } else {
            None
        },
    }
}

/// The socket path setting: taken verbatim, with a default.
pub open spec fn spec_path_setting(vars: Seq<(String, String)>) -> Seq<char> {
    match spec_assoc_lookup(vars, "docker_path"@) {
        None => "/var/run/docker.sock"@,
        Some(s) => s,
    }
}

/// The configuration denoted by environment-style settings: each numeric
/// setting parsed with its default, or the name of the first setting (in
/// field order) whose value is invalid.
pub open spec fn spec_load(vars: Seq<(String, String)>) -> Result<ConfigView, Seq<char>> {
    match spec_u64_setting(vars, "ping_interval"@, 60) {
        None => Err("ping_interval"@),
        Some(ping_interval) => match spec_u8_setting(vars, "ping_retries"@, 5) {
            None => Err("ping_retries"@),
            Some(ping_retries) => match spec_u64_setting(vars, "ping_timeout"@, 50) {
                None => Err("ping_timeout"@),
                Some(ping_timeout) => match spec_u64_setting(vars, "fetch_interval"@, 600) {
                    None => Err("fetch_interval"@),
                    Some(fetch_interval) => match spec_u64_setting(vars, "fetch_timeout"@, 300) {
                        None => Err("fetch_timeout"@),
                        Some(fetch_timeout) => match spec_u64_setting(vars, "event_timeout"@, 60) {
                            None => Err("event_timeout"@),
                            Some(event_timeout) => Ok(
                                ConfigView {
                                    docker_path: spec_path_setting(vars),
                                    ping_interval,
                                    ping_retries,
                                    ping_timeout,
                                    fetch_interval,
                                    fetch_timeout,
                                    event_timeout,
                                },
                            ),
                        },
                    },
                },
            },
        },
    }
}

/// Read one `u64` setting from the collected environment.
fn u64_setting(vars: &Vec<(String, String)>, name: &str, default: u64) -> (r: Option<u64>)
    ensures
        r == spec_u64_setting(vars@, name@, default),
{
    match assoc_lookup(vars, name) {
        None => Some(default),
        Some(s) => parse_u64(s.as_str()),
    }
}

/// Read the retry-count setting from the collected environment.
fn u8_setting(vars: &Vec<(String, String)>, name: &str, default: u8) -> (r: Option<u8>)
    ensures
        r == spec_u8_setting(vars@, name@, default),
{
    match assoc_lookup(vars, name) {
        None => Some(default),
        Some(s) => match parse_u64(s.as_str()) {
            Some(v) => if v <= u8::MAX as u64 {
                Some(v as u8)
            } else {
                None
            },
            None => None,
        },
    }
}

/// Load the configuration from environment-style settings (keys already
/// lowercased by the caller).  Unset settings take their defaults; a set but
/// invalid numeric setting is an error naming that setting.
pub fn load(vars: &Vec<(String, String)>) -> (r: Result<Config, ConfigError>)
    ensures
        (match r {
            Ok(c) => spec_load(vars@) == Result::<ConfigView, Seq<char>>::Ok(c@),
            Err(ConfigError::InvalidValue(name)) => spec_load(vars@) == Result::<
                ConfigView,
                Seq<char>,
            >::Err(name@),
        }),
{
    let ping_interval = match u64_setting(vars, "ping_interval", 60) {
        Some(v) => v,
        None => {
            return Err(ConfigError::InvalidValue("ping_interval".to_owned()));
        },
    };
    let ping_retries = match u8_setting(vars, "ping_retries", 5) {
        Some(v) => v,
        None => {
            return Err(ConfigError::InvalidValue("ping_retries".to_owned()));
        },
    };
    let ping_timeout = match u64_setting(vars, "ping_timeout", 50) {
        Some(v) => v,
        None => {
            return Err(ConfigError::InvalidValue("ping_timeout".to_owned()));
        },
    };
    let fetch_interval = match u64_setting(vars, "fetch_interval", 600) {
        Some(v) => v,
        None => {
            return Err(ConfigError::InvalidValue("fetch_interval".to_owned()));
        },
    };
    let fetch_timeout = match u64_setting(vars, "fetch_timeout", 300) {
        Some(v) => v,
        None => {
            return Err(ConfigError::InvalidValue("fetch_timeout".to_owned()));
        },
    };
    let event_timeout = match u64_setting(vars, "event_timeout", 60) {
        Some(v) => v,
        None => {
            return Err(ConfigError::InvalidValue("event_timeout".to_owned()));
        },
    };
    let docker_path = match assoc_lookup(vars, "docker_path") {
        Some(s) => s,
        None => "/var/run/docker.sock".to_owned(),
    };
    Ok(
        Config {
            docker_path,
            ping_interval,
            ping_retries,
            ping_timeout,
            fetch_interval,
            fetch_timeout,
            event_timeout,
        },
    )
}

/// Whether every duration setting is positive.
pub open spec fn spec_valid_config(c: ConfigView) -> bool {
    &&& c.ping_interval >= 1
    &&& c.ping_timeout >= 1
    &&& c.fetch_interval >= 1
    &&& c.fetch_timeout >= 1
    &&& c.event_timeout >= 1
}

impl Config {
    /// Whether every duration setting is positive; a configuration that is
    /// not is a fatal startup error.
    pub fn validate(&self) -> (ok: bool)
        ensures
            ok == spec_valid_config(self@),
    {
        self.ping_interval >= 1 && self.ping_timeout >= 1 && self.fetch_interval >= 1
            && self.fetch_timeout >= 1 && self.event_timeout >= 1
    }
}

} // verus!
