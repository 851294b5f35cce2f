//! What a run of the service is configured with, and how the text of an
//! expiry is read.

use crate::platform::{lowercase, to_lowercase};
use crate::text::{chars_of, text_of, trim, trim_chars, CharClass};
use vstd::prelude::*;
use vstd::slice::slice_subrange;

verus! {

/// Why a configuration is refused.
#[derive(Debug, Clone, Copy, PartialEq, Eq, Structural)]
pub enum ConfigError {
    /// The path to send does not exist.
    PathNotFound,
    /// The expiry is not a whole number with an optional unit.
    InvalidDuration,
    /// The expiry does not fit in 64 bits of milliseconds.
    DurationOutOfRange,
}

/// Whether a character is one of the ten ASCII digits.
pub open spec fn is_digit(c: char) -> bool {
    '0' <= c && c <= '9'
}

/// The value of an ASCII digit.
pub open spec fn digit_value(c: char) -> int {
    c as u32 - '0' as u32
}

/// The number that a non-empty run of ASCII digits spells; `None` for
/// anything else.
pub open spec fn digits_value(s: Seq<char>) -> Option<int>
    decreases s.len(),
{
    if s.len() == 0 || !is_digit(s.last()) {
        None
    } else if s.len() == 1 {
        Some(digit_value(s.last()))
    } else {
        match digits_value(s.drop_last()) {
            Some(high) => Some(high * 10 + digit_value(s.last())),
            None => None,
        }
    }
}

/// The whole number that a text spells: digits, with an optional sign before
/// them. `None` for anything else.
pub open spec fn integer_value(s: Seq<char>) -> Option<int> {
    if s.len() > 0 && s[0] == '-' {
        match digits_value(s.skip(1)) {
            Some(v) => Some(-v),
            None => None,
        }
    } else if s.len() > 0 && s[0] == '+' {
        digits_value(s.skip(1))
    } else {
        digits_value(s)
    }
}

/// Milliseconds in one unit of time: seconds, minutes, hours or days.
pub open spec fn unit_millis(unit: char) -> int {
    if unit == 's' {
        1_000
    } else if unit == 'm' {
        60_000
    } else if unit == 'h' {
        3_600_000
    } else {
        86_400_000
    }
}

/// Whether a character names a unit of time.
pub open spec fn is_unit(c: char) -> bool {
    c == 's' || c == 'm' || c == 'h' || c == 'd'
}

/// The text of an expiry as it is read: trimmed and in lower case.
pub open spec fn normalized(text: Seq<char>) -> Seq<char> {
    lowercase(trim(text, CharClass::WhiteSpace))
}

/// The number of milliseconds that a normalized expiry spells: a whole
/// number followed by `s`, `m`, `h` or `d`, or a whole number alone, which
/// counts minutes. The number must fit in 64 bits, and so must the
/// milliseconds, whose least value is left out as it has no opposite.
pub open spec fn duration_millis(s: Seq<char>) -> Result<int, ConfigError> {
    let (number, factor) = if s.len() > 0 && is_unit(s.last()) {
        (s.drop_last(), unit_millis(s.last()))
    } else {
        (s, 60_000int)
    };
    match integer_value(number) {
        None => Err(ConfigError::InvalidDuration),
        Some(n) => if n < i64::MIN || n > i64::MAX {
            Err(ConfigError::InvalidDuration)
        } else if n * factor < -i64::MAX || n * factor > i64::MAX {
            Err(ConfigError::DurationOutOfRange)
        } else {
            Ok(n * factor)
        },
    }
}

/// Reads a run of digits as a number that, with its sign, fits in 64 bits.
fn parse_digits(chars: &[char], negative: bool) -> (value: Option<i64>)
    ensures
        match value {
            Some(v) => digits_value(chars@) matches Some(n) && v == (if negative {
                -n
            } else {
                n
            }),
            None => match digits_value(chars@) {
                None => true,
                Some(n) => {
                    let signed = if negative {
                        -n
                    } else {
                        n
                    };
                    signed < i64::MIN || signed > i64::MAX
                },
            },
        },
{
    if chars.len() == 0 {
        return None;
    }
    // accumulates the negated value, whose range reaches one further
    let mut acc: i64 = 0;
    let mut i: usize = 0;
    assert(chars@.take(0).len() == 0);
    while i < chars.len()
        invariant
            i <= chars@.len(),
            chars@.len() > 0,
            i == 0 ==> acc == 0,
            i > 0 ==> digits_value(chars@.take(i as int)) == Some(-(acc as int)),
            acc <= 0,
        decreases chars@.len() - i,
    {
        let c = chars[i];
        let ghost prefix = chars@.take(i + 1);
        assert(prefix.drop_last() =~= chars@.take(i as int));
        assert(prefix.last() == c);
        if !('0' <= c && c <= '9') {
            proof {
                lemma_digits_need_digits(chars@, i as int);
            }
            return None;
        }
        let d: i64 = (c as u32 - '0' as u32) as i64;
        if acc < (i64::MIN + d) / 10 {
            proof {
                let n = if i == 0 {
                    0int
                } else {
                    digits_value(chars@.take(i as int))->0
                };
                assert(n * 10 + d > -(i64::MIN as int));
                lemma_digits_grow(chars@, i + 1);
                if digits_value(chars@) is Some {
                    assert(digits_value(chars@)->0 >= n * 10 + d);
                }
            }
            return None;
        }
        acc = acc * 10 - d;
        i += 1;
    }
    assert(chars@.take(chars@.len() as int) =~= chars@);
    if negative {
        Some(acc)
    } else if acc == i64::MIN {
        None
    } else {
        Some(-acc)
    }
}

/// A run that spells a number is digits throughout.
proof fn lemma_digits_need_digits(s: Seq<char>, i: int)
    requires
        0 <= i < s.len(),
        !is_digit(s[i]),
    ensures
        digits_value(s) is None,
    decreases s.len(),
{
    if i < s.len() - 1 {
        lemma_digits_need_digits(s.drop_last(), i);
    }
}

/// A longer run of digits spells no smaller a number than its front.
proof fn lemma_digits_grow(s: Seq<char>, k: int)
    requires
        0 < k <= s.len(),
    ensures
        digits_value(s) matches Some(n) ==> digits_value(s.take(k)) matches Some(m) && 0 <= m
            <= n,
    decreases s.len(),
{
    if digits_value(s) is Some {
        if k == s.len() {
            assert(s.take(k) =~= s);
            lemma_digits_nonnegative(s);
        } else {
            assert(s.drop_last().take(k) =~= s.take(k));
            lemma_digits_grow(s.drop_last(), k);
        }
    }
}

/// A run of digits spells no negative number.
proof fn lemma_digits_nonnegative(s: Seq<char>)
    ensures
        digits_value(s) matches Some(n) ==> n >= 0,
    decreases s.len(),
{
    if s.len() > 1 {
        lemma_digits_nonnegative(s.drop_last());
    }
}

/// Reads a whole number with an optional sign, as far as it fits in 64 bits.
fn parse_integer(chars: &[char]) -> (value: Option<i64>)
    ensures
        match value {
            Some(v) => integer_value(chars@) == Some(v as int),
            None => match integer_value(chars@) {
                None => true,
                Some(n) => n < i64::MIN || n > i64::MAX,
            },
        },
{
    if chars.len() > 0 && chars[0] == '-' {
        parse_digits(slice_subrange(chars, 1, chars.len()), true)
    } else if chars.len() > 0 && chars[0] == '+' {
        parse_digits(slice_subrange(chars, 1, chars.len()), false)
    } else {
        parse_digits(chars, false)
    }
}

/// Reads a normalized expiry, that is one without white space around it and
/// in lower case, into milliseconds.
pub fn parse_normalized_duration(text: &str) -> (res: Result<i64, ConfigError>)
    ensures
        match res {
            Ok(millis) => duration_millis(text@) == Ok::<int, ConfigError>(millis as int),
            Err(e) => duration_millis(text@) == Err::<int, ConfigError>(e),
        },
{
    let chars = chars_of(text);
    let len = chars.len();
    let (number, factor): (&[char], i64) = if len > 0 && (chars[len - 1] == 's' || chars[len - 1]
        == 'm' || chars[len - 1] == 'h' || chars[len - 1] == 'd') {
        let unit = chars[len - 1];
        let factor: i64 = if unit == 's' {
            1_000
        } else if unit == 'm' {
            60_000
        } else if unit == 'h' {
            3_600_000
        } else {
            86_400_000
        };
        assert(chars@.take(len - 1) =~= chars@.drop_last());
        (slice_subrange(chars.as_slice(), 0, len - 1), factor)
    } else {
        (chars.as_slice(), 60_000)
    };
    match parse_integer(number) {
        None => {
            Err(ConfigError::InvalidDuration)
        },
        Some(n) => {
            let limit: i64 = i64::MAX / factor;
            if n > limit || n < -limit {
                assert(n * factor > i64::MAX || n * factor < -i64::MAX) by (nonlinear_arith)
                    requires
                        n > limit || n < -limit,
                        limit == i64::MAX / factor,
                        factor >= 1_000,
                ;
                Err(ConfigError::DurationOutOfRange)
            } else {
                assert(-i64::MAX <= n * factor <= i64::MAX) by (nonlinear_arith)
                    requires
                        -limit <= n <= limit,
                        limit == i64::MAX / factor,
                        factor >= 1_000,
                ;
                Ok(n * factor)
            }
        },
    }
}

/// Reads an expiry such as `30s`, `10m`, `1h` or `7d` into milliseconds. A
/// number without a unit counts minutes. White space around the text and the
/// case of the unit do not matter.
pub fn parse_duration(text: &str) -> (res: Result<i64, ConfigError>)
    ensures
        match res {
            Ok(millis) => duration_millis(normalized(text@)) == Ok::<int, ConfigError>(
                millis as int,
            ),
            Err(e) => duration_millis(normalized(text@)) == Err::<int, ConfigError>(e),
        },
{
    let raw = chars_of(text);
    let trimmed = text_of(trim_chars(raw.as_slice(), CharClass::WhiteSpace));
    let lower = to_lowercase(trimmed.as_str());
    parse_normalized_duration(lower.as_str())
}

/// What a sending run is configured with. The expiry is held both as it was
/// written and in milliseconds.
#[derive(Debug, Clone)]
pub struct DropConfig {
    pub file: String,
    pub port: u16,
    pub expire: String,
    pub expiry_duration: i64,
    pub max_downloads: u32,
    pub password: Option<String>,
    pub bind: String,
    pub no_qr: bool,
}

impl DropConfig {
    /// Checks a configuration: the path must exist, which the caller has
    /// looked up, and the expiry must read as a duration.
    pub fn new(
        file: String,
        file_exists: bool,
        port: u16,
        expire: String,
        max_downloads: u32,
        password: Option<String>,
        bind: String,
        no_qr: bool,
    ) -> (res: Result<DropConfig, ConfigError>)
        ensures
            match res {
                Ok(config) => {
                    &&& file_exists
                    &&& duration_millis(normalized(expire@)) == Ok::<int, ConfigError>(
                        config.expiry_duration as int,
                    )
                    &&& config.file@ == file@
                    &&& config.port == port
                    &&& config.expire@ == expire@
                    &&& config.max_downloads == max_downloads
                    &&& config.password == password
                    &&& config.bind@ == bind@
                    &&& config.no_qr == no_qr
                },
                Err(e) => if !file_exists {
                    e == ConfigError::PathNotFound
                } else {
                    duration_millis(normalized(expire@)) == Err::<int, ConfigError>(e)
                },
            },
    {
        if !file_exists {
            return Err(ConfigError::PathNotFound);
        }
        let expiry_duration = match parse_duration(expire.as_str()) {
            Ok(millis) => millis,
            Err(e) => {
                return Err(e);
            },
        };
        Ok(
            DropConfig {
                file,
                port,
                expire,
                expiry_duration,
                max_downloads,
                password,
                bind,
                no_qr,
            },
        )
    }
}

/// What a receiving run is configured with.
#[derive(Debug, Clone)]
pub struct ReceiveConfig {
    pub output_dir: String,
    pub port: u16,
    pub expiry_duration: i64,
    pub bind: String,
    pub no_qr: bool,
}

impl ReceiveConfig {
    /// Checks a configuration: the expiry must read as a duration.
    pub fn new(output: String, port: u16, expire: String, bind: String, no_qr: bool) -> (res:
        Result<ReceiveConfig, ConfigError>)
        ensures
            match res {
                Ok(config) => {
                    &&& duration_millis(normalized(expire@)) == Ok::<int, ConfigError>(
                        config.expiry_duration as int,
                    )
                    &&& config.output_dir@ == output@
                    &&& config.port == port
                    &&& config.bind@ == bind@
                    &&& config.no_qr == no_qr
                },
                Err(e) => duration_millis(normalized(expire@)) == Err::<int, ConfigError>(e),
            },
    {
        match parse_duration(expire.as_str()) {
            Ok(expiry_duration) => Ok(
                ReceiveConfig { output_dir: output, port, expiry_duration, bind, no_qr },
            ),
            Err(e) => Err(e),
        }
    }
}

} // verus!
