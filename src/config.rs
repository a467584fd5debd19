//! Process configuration: named settings with defaults.
use vstd::prelude::*;
use crate::errors::ConfigError;

verus! {

/// Whether a character is an ASCII digit.
pub open spec fn is_digit(c: char) -> bool {
    '0' <= c && c <= '9'
}

/// The value of a string of ASCII digits.
pub open spec fn digits_value(d: Seq<char>) -> int
    decreases d.len(),
{
    if d.len() == 0 {
        0
    } else {
        digits_value(d.drop_last()) * 10 + (d.last() as int - '0' as int)
    }
}

/// A text without its leading sign, if it has one.
pub open spec fn digits_part(s: Seq<char>) -> Seq<char> {
    if s.len() > 0 && (s[0] == '+' || s[0] == '-') {
        s.subrange(1, s.len() as int)
    } else {
        s
    }
}

/// The integer a text denotes: an optional sign (`-` only where `signed`)
/// followed by at least one ASCII digit, and nothing else.
pub open spec fn integer_text(s: Seq<char>, signed: bool) -> Option<int> {
    let negative = s.len() > 0 && s[0] == '-';
    let d = digits_part(s);
    if (negative && !signed) || d.len() == 0 || !(forall|i: int| 0 <= i < d.len() ==> is_digit(#[trigger] d[i])) {
        None
    } else if negative {
        Some(-digits_value(d))
    } else {
        Some(digits_value(d))
    }
}

/// The integer a text denotes if it lies in `[lo, hi]`.
pub open spec fn integer_in(s: Seq<char>, signed: bool, lo: int, hi: int) -> Option<int> {
    match integer_text(s, signed) {
        Some(v) => if lo <= v <= hi {
            Some(v)
        } else {
            None
        },
        None => None,
    }
}

/// Limit above which the digits read are too many for any setting.
const TOO_LARGE: u128 = 0x2_0000_0000_0000_0000;

proof fn lemma_digits_grow(d: Seq<char>, j: int)
    requires
        0 <= j < d.len(),
        forall|i: int| 0 <= i < d.len() ==> is_digit(#[trigger] d[i]),
    ensures
        digits_value(d.take(j + 1)) == digits_value(d.take(j)) * 10 + (d[j] as int - '0' as int),
        digits_value(d.take(j + 1)) >= digits_value(d.take(j)),
{
    assert(d.take(j + 1).drop_last() =~= d.take(j));
    lemma_digits_nonneg(d.take(j));
}

proof fn lemma_digits_nonneg(d: Seq<char>)
    requires
        forall|i: int| 0 <= i < d.len() ==> is_digit(#[trigger] d[i]),
    ensures
        digits_value(d) >= 0,
    decreases d.len(),
{
    if d.len() > 0 {
        let q = d.drop_last();
        assert forall|i: int| 0 <= i < q.len() implies is_digit(#[trigger] q[i]) by {
            assert(q[i] == d[i]);
        }
        lemma_digits_nonneg(q);
        assert(is_digit(d[d.len() - 1]));
    }
}

/// Reads an integer setting, as the standard library parses integers,
/// keeping it only within `[lo, hi]`.
pub fn parse_integer(s: &str, signed: bool, lo: i128, hi: i128) -> (r: Option<i128>)
    requires
        -0x1_0000_0000_0000_0000 <= lo <= hi <= 0x1_0000_0000_0000_0000,
    ensures
        r matches Some(v) ==> integer_in(s@, signed, lo as int, hi as int) == Some(v as int),
        r is None ==> integer_in(s@, signed, lo as int, hi as int) is None,
{
    let n = s.unicode_len();
    let mut start: usize = 0;
    let mut negative = false;
    if n > 0 {
        let c = s.get_char(0);
        if c == '+' {
            start = 1;
        } else if c == '-' {
            start = 1;
            negative = true;
        }
    }
    let ghost d = if start == 1 {
        s@.subrange(1, s@.len() as int)
    } else {
        s@
    };
    proof {
        assert(start == 1 <==> (s@.len() > 0 && (s@[0] == '+' || s@[0] == '-')));
        assert(negative <==> (s@.len() > 0 && s@[0] == '-'));
        if start == 0 {
            assert(d =~= s@.subrange(0, n as int));
        }
    }
    if (negative && !signed) || start == n {
        return None;
    }
    let mut acc: u128 = 0;
    let mut big = false;
    let mut j: usize = start;
    while j < n
        invariant
            n == s@.len(),
            start <= j <= n,
            d == s@.subrange(start as int, n as int),
            start == 1 <==> (s@.len() > 0 && (s@[0] == '+' || s@[0] == '-')),
            start <= 1,
            start == 0 ==> d == s@,
            d == digits_part(s@),
            negative <==> (s@.len() > 0 && s@[0] == '-'),
            !(negative && !signed),
            forall|i: int| 0 <= i < j - start ==> is_digit(#[trigger] d[i]),
            !big ==> acc == digits_value(d.take(j - start)),
            big ==> digits_value(d.take(j - start)) >= TOO_LARGE,
            acc <= TOO_LARGE,
        decreases n - j,
    {
        let c = s.get_char(j);
        if !('0' <= c && c <= '9') {
            proof {
                assert(d[j - start] == c);
                assert(!is_digit(d[j - start]));
                assert(!(forall|i: int| 0 <= i < d.len() ==> is_digit(#[trigger] d[i])));
                assert(integer_text(s@, signed) is None);
            }
            return None;
        }
        proof {
            assert(d[j - start] == c);
            let dd = d.take(j - start + 1);
            assert forall|i: int| 0 <= i < dd.len() implies is_digit(#[trigger] dd[i]) by {
                assert(dd[i] == d[i]);
            }
            lemma_digits_grow(dd, j - start);
            assert(dd.take(j - start) =~= d.take(j - start));
            assert(dd.take(j - start + 1) =~= dd);
        }
        if !big {
            let v = (c as u32 - '0' as u32) as u128;
            let next = acc * 10 + v;
            if next >= TOO_LARGE {
                big = true;
                acc = TOO_LARGE;
            } else {
                acc = next;
            }
        }
        j = j + 1;
    }
    proof {
        assert(d.take(n - start) =~= d);
    }
    if big {
        return None;
    }
    let v: i128 = if negative {
        -(acc as i128)
    } else {
        acc as i128
    };
    if lo <= v && v <= hi {
        Some(v)
    } else {
        None
    }
}

/// The process configuration.
#[derive(Debug, Clone)]
pub struct Config {
    pub mongodb_uri: String,
    pub mongodb_database: String,
    pub host: String,
    pub port: u16,
    pub request_delay_ms: u64,
    pub max_retries: u32,
    pub request_timeout_secs: u64,
    pub crawler_max_404s: i32,
    pub crawler_start_id: i32,
    pub cache_ttl_secs: u64,
}

/// The settings as found, each absent where it was not set.
#[derive(Debug, Clone)]
pub struct ConfigVars {
    pub mongodb_uri: Option<String>,
    pub mongodb_database: Option<String>,
    pub host: Option<String>,
    pub port: Option<String>,
    pub request_delay_ms: Option<String>,
    pub max_retries: Option<String>,
    pub request_timeout_secs: Option<String>,
    pub crawler_max_404s: Option<String>,
    pub crawler_start_id: Option<String>,
    pub cache_ttl_secs: Option<String>,
}

/// A numeric setting: its value where set and in range, else the default.
pub open spec fn setting(v: Option<String>, signed: bool, lo: int, hi: int, default: int) -> int {
    match v {
        Some(s) => match integer_in(s@, signed, lo, hi) {
            Some(x) => x,
            None => default,
        },
        None => default,
    }
}

fn read_setting(v: &Option<String>, signed: bool, lo: i128, hi: i128, default: i128) -> (r: i128)
    requires
        -0x1_0000_0000_0000_0000 <= lo <= hi <= 0x1_0000_0000_0000_0000,
        lo <= default <= hi,
    ensures
        r == setting(*v, signed, lo as int, hi as int, default as int),
        lo <= r <= hi,
{
    match v {
        Some(s) => match parse_integer(s.as_str(), signed, lo, hi) {
            Some(x) => x,
            None => default,
        },
        None => default,
    }
}

/// Whether the port setting is absent or a number that fits a `u16`.
pub open spec fn port_readable(v: Option<String>) -> bool {
    match v {
        Some(p) => integer_in(p@, false, 0, 65535) is Some,
        None => true,
    }
}

/// The text of a setting, or its default.
pub open spec fn text_setting(v: Option<String>, default: Seq<char>) -> Seq<char> {
    match v {
        Some(s) => s@,
        None => default,
    }
}

impl Config {
    /// The configuration the settings describe. The database URI is
    /// required; the port, where set, must be a number that fits a `u16`;
    /// every other setting falls back to its default when absent or
    /// unreadable.
    pub fn from_vars(vars: ConfigVars) -> (r: Result<Config, ConfigError>)
        ensures
            vars.mongodb_uri is None ==> r == Err::<Config, ConfigError>(ConfigError::MissingEnvVar("MONGODB_URI")),
            vars.mongodb_uri is Some && !port_readable(vars.port) ==> r == Err::<Config, ConfigError>(
                ConfigError::InvalidPort,
            ),
            r is Ok <==> (vars.mongodb_uri is Some && port_readable(vars.port)),
            r matches Ok(c) ==> {
                &&& c.mongodb_uri == vars.mongodb_uri->Some_0
                &&& c.mongodb_database@ == text_setting(vars.mongodb_database, "grand-archive-meta"@)
                &&& c.host@ == text_setting(vars.host, "0.0.0.0"@)
                &&& c.port == setting(vars.port, false, 0, 65535, 8080)
                &&& c.request_delay_ms == setting(vars.request_delay_ms, false, 0, u64::MAX as int, 500)
                &&& c.max_retries == setting(vars.max_retries, false, 0, u32::MAX as int, 3)
                &&& c.request_timeout_secs == setting(vars.request_timeout_secs, false, 0, u64::MAX as int, 10)
                &&& c.crawler_max_404s == setting(vars.crawler_max_404s, true, i32::MIN as int, i32::MAX as int, 10)
                &&& c.crawler_start_id == setting(vars.crawler_start_id, true, i32::MIN as int, i32::MAX as int, 1)
                &&& c.cache_ttl_secs == setting(vars.cache_ttl_secs, false, 0, u64::MAX as int, 3600)
            },
    {
        let mongodb_uri = match vars.mongodb_uri {
            Some(u) => u,
            None => return Err(ConfigError::MissingEnvVar("MONGODB_URI")),
        };
        let port: u16 = match &vars.port {
            Some(p) => match parse_integer(p.as_str(), false, 0, 65535) {
                Some(x) => x as u16,
                None => return Err(ConfigError::InvalidPort),
            },
            None => 8080,
        };
        let mongodb_database = match vars.mongodb_database {
            Some(d) => d,
            None => "grand-archive-meta".to_owned(),
        };
        let host = match vars.host {
            Some(h) => h,
            None => "0.0.0.0".to_owned(),
        };
        let request_delay_ms = read_setting(&vars.request_delay_ms, false, 0, u64::MAX as i128, 500) as u64;
        let max_retries = read_setting(&vars.max_retries, false, 0, u32::MAX as i128, 3) as u32;
        let request_timeout_secs = read_setting(&vars.request_timeout_secs, false, 0, u64::MAX as i128, 10) as u64;
        let crawler_max_404s = read_setting(&vars.crawler_max_404s, true, i32::MIN as i128, i32::MAX as i128, 10) as i32;
        let crawler_start_id = read_setting(&vars.crawler_start_id, true, i32::MIN as i128, i32::MAX as i128, 1) as i32;
        let cache_ttl_secs = read_setting(&vars.cache_ttl_secs, false, 0, u64::MAX as i128, 3600) as u64;
        Ok(Config {
            mongodb_uri,
            mongodb_database,
            host,
            port,
            request_delay_ms,
            max_retries,
            request_timeout_secs,
            crawler_max_404s,
            crawler_start_id,
            cache_ttl_secs,
        })
    }
}

} // verus!
