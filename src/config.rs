use std::sync::Arc;
use vstd::prelude::*;

verus! {

/// The value of the decimal digits `d`.
pub open spec fn digits_value(d: Seq<char>) -> int
    decreases d.len(),
{
    if d.len() == 0 {
        0
    } else {
        digits_value(d.drop_last()) * 10 + (d.last() as u32 - 0x30)
    }
}

pub open spec fn is_digit(c: char) -> bool {
    0x30 <= c as u32 && c as u32 <= 0x39
}

/// `s` without a leading `+`.
pub open spec fn unsigned_digits(s: Seq<char>) -> Seq<char> {
    if s.len() > 0 && s[0] == '+' {
        s.drop_first()
    } else {
        s
    }
}

/// The integer that `s` writes in decimal, with an optional leading `+`,
/// if there is one and it fits in a `u64`.
pub open spec fn decimal_u64(s: Seq<char>) -> Option<u64> {
    let d = unsigned_digits(s);
    if d.len() > 0 && (forall|i: int| 0 <= i < d.len() ==> is_digit(#[trigger] d[i]))
        && digits_value(d) <= u64::MAX {
        Some(digits_value(d) as u64)
    } else {
        None
    }
}

/// Whether a flag's text turns it on.
pub open spec fn flag_on(v: Option<Seq<char>>) -> bool {
    match v {
        Some(s) => s == "true"@ || s == "1"@,
        None => false,
    }
}

/// A number's text read as a `u64`, or `default` when it is missing or
/// does not read as one.
pub open spec fn number_or(v: Option<Seq<char>>, default: u64) -> u64 {
    match v {
        Some(s) => match decimal_u64(s) {
            Some(x) => x,
            None => default,
        },
        None => default,
    }
}

/// The sleep bounds that the texts of the two bounds give, in order.
pub open spec fn sleep_bounds(min: Option<Seq<char>>, max: Option<Seq<char>>) -> (u64, u64) {
    let lo = number_or(min, DEFAULT_IO_SLEEP_MIN_MS);
    let hi = number_or(max, DEFAULT_IO_SLEEP_MAX_MS);
    if lo > hi {
        (hi, lo)
    } else {
        (lo, hi)
    }
}

pub open spec fn opt_view(v: Option<&str>) -> Option<Seq<char>> {
    match v {
        Some(s) => Some(s@),
        None => None,
    }
}

pub const DEFAULT_IO_SLEEP_MIN_MS: u64 = 500;

pub const DEFAULT_IO_SLEEP_MAX_MS: u64 = 2000;

/// Reads `s` as a `u64` in decimal, with an optional leading `+`.
pub fn parse_u64(s: &str) -> (r: Option<u64>)
    ensures
        r == decimal_u64(s@),
{
    let n = s.unicode_len();
    let mut i: usize = 0;
    if n > 0 && s.get_char(0) == '+' {
        i = 1;
    }
    let ghost d = unsigned_digits(s@);
    assert(d =~= s@.skip(i as int));
    if i == n {
        return None;
    }
    let start = i;
    let mut value: u64 = 0;
    while i < n
        invariant
            n == s@.len(),
            start <= i <= n,
            d == unsigned_digits(s@),
            d =~= s@.skip(start as int),
            forall|k: int| start <= k < i ==> is_digit(#[trigger] s@[k]),
            value == digits_value(s@.subrange(start as int, i as int)),
        decreases n - i,
    {
        let c = s.get_char(i);
        assert(s@.subrange(start as int, i + 1).drop_last() =~= s@.subrange(start as int, i as int));
        let u = c as u32;
        if !(0x30 <= u && u <= 0x39) {
            assert(d[i - start] == c);
            assert(!is_digit(d[i - start]));
            return None;
        }
        let digit = (u - 0x30) as u64;
        if value > (u64::MAX - digit) / 10 {
            proof {
                let sub = s@.subrange(start as int, i + 1);
                assert(digits_value(sub) == value * 10 + digit);
                assert(digits_value(sub) > u64::MAX) by (nonlinear_arith)
                    requires
                        value > (u64::MAX - digit) / 10,
                        digits_value(sub) == value * 10 + digit,
                        digit <= 9,
                ;
                assert(d.subrange(0, i + 1 - start) =~= sub);
                if forall|k: int| 0 <= k < d.len() ==> is_digit(#[trigger] d[k]) {
                    lemma_digits_value_grows(d, (i + 1 - start) as int);
                }
            }
            return None;
        }
        value = value * 10 + digit;
        i = i + 1;
    }
    assert(s@.subrange(start as int, n as int) =~= d);
    Some(value)
}

/// A prefix of digits is worth no more than all of them.
proof fn lemma_digits_value_grows(d: Seq<char>, k: int)
    requires
        0 <= k <= d.len(),
        forall|i: int| 0 <= i < d.len() ==> is_digit(#[trigger] d[i]),
    ensures
        digits_value(d.subrange(0, k)) <= digits_value(d),
    decreases d.len(),
{
    if k < d.len() {
        assert(d.drop_last().subrange(0, k) =~= d.subrange(0, k));
        lemma_digits_value_grows(d.drop_last(), k);
        lemma_digits_value_nonneg(d.drop_last());
        assert(is_digit(d[d.len() - 1]));
    } else {
        assert(d.subrange(0, k) =~= d);
    }
}

proof fn lemma_digits_value_nonneg(d: Seq<char>)
    requires
        forall|i: int| 0 <= i < d.len() ==> is_digit(#[trigger] d[i]),
    ensures
        digits_value(d) >= 0,
    decreases d.len(),
{
    if d.len() > 0 {
        lemma_digits_value_nonneg(d.drop_last());
        assert(is_digit(d[d.len() - 1]));
    }
}

/// Relies on rand's `thread_rng().gen_range(low..=high)`: it returns a value
/// of the inclusive range, and panics when `low > high`.
#[verifier::external_body]
fn random_in_range(low: u64, high: u64) -> (r: u64)
    requires
        low <= high,
    ensures
        low <= r <= high,
{
    rand::Rng::gen_range(&mut rand::thread_rng(), low..=high)
}

/// Settings that inject random delays into the workers, to exercise the
/// pipeline under varied interleavings.
#[derive(Clone, Debug)]
pub struct TestConfig {
    /// Whether a worker sleeps for a random time after it receives a unit.
    pub random_sleep_io_thread: bool,
    /// The shortest such sleep, in milliseconds.
    pub io_sleep_min_ms: u64,
    /// The longest such sleep, in milliseconds.
    pub io_sleep_max_ms: u64,
}

impl TestConfig {
    /// The settings that the texts of the three variables give:
    /// the flag is on for `true` or `1`; a bound that is missing or not a
    /// number takes its default; bounds out of order are swapped.
    pub fn from_values(random_sleep_io: Option<&str>, io_sleep_min_ms: Option<&str>, io_sleep_max_ms: Option<&str>) -> (r: Self)
        ensures
            r.random_sleep_io_thread == flag_on(opt_view(random_sleep_io)),
            (r.io_sleep_min_ms, r.io_sleep_max_ms) == sleep_bounds(
                opt_view(io_sleep_min_ms),
                opt_view(io_sleep_max_ms),
            ),
            r.io_sleep_min_ms <= r.io_sleep_max_ms,
    {
        let random_sleep_io_thread = match random_sleep_io {
            Some(v) => {
                let text = String::from_str(v);
                text == String::from_str("true") || text == String::from_str("1")
            },
            None => false,
        };
        let lo = number_or_default(io_sleep_min_ms, DEFAULT_IO_SLEEP_MIN_MS);
        let hi = number_or_default(io_sleep_max_ms, DEFAULT_IO_SLEEP_MAX_MS);
        let (io_sleep_min_ms, io_sleep_max_ms) = if lo > hi {
            (hi, lo)
        } else {
            (lo, hi)
        };
        TestConfig { random_sleep_io_thread, io_sleep_min_ms, io_sleep_max_ms }
    }

    /// How long a worker sleeps after receiving a unit, if at all: a random
    /// number of milliseconds between the bounds when delays are on.
    pub fn sleep_duration_ms(&self) -> (r: Option<u64>)
        requires
            self.random_sleep_io_thread ==> self.io_sleep_min_ms <= self.io_sleep_max_ms,
        ensures
            !self.random_sleep_io_thread ==> r is None,
            self.random_sleep_io_thread ==> r is Some && self.io_sleep_min_ms <= r->0
                <= self.io_sleep_max_ms,
    {
        if self.random_sleep_io_thread {
            Some(random_in_range(self.io_sleep_min_ms, self.io_sleep_max_ms))
        } else {
            None
        }
    }
}

fn number_or_default(v: Option<&str>, default: u64) -> (r: u64)
    ensures
        r == number_or(opt_view(v), default),
{
    match v {
        Some(s) => match parse_u64(s) {
            Some(x) => x,
            None => default,
        },
        None => default,
    }
}

/// The configuration shared by every thread of the pipeline.
#[derive(Clone, Debug)]
pub struct Config {
    pub test: TestConfig,
}

impl Config {
    /// The configuration that the texts of the variables `TEST_RANDOM_SLEEP_IO`,
    /// `TEST_IO_SLEEP_MIN_MS` and `TEST_IO_SLEEP_MAX_MS` give (`None` where
    /// one is not set), ready to be shared across threads.
    pub fn from_env(random_sleep_io: Option<&str>, io_sleep_min_ms: Option<&str>, io_sleep_max_ms: Option<&str>) -> (r: Arc<Self>)
        ensures
            r.test.random_sleep_io_thread == flag_on(opt_view(random_sleep_io)),
            (r.test.io_sleep_min_ms, r.test.io_sleep_max_ms) == sleep_bounds(
                opt_view(io_sleep_min_ms),
                opt_view(io_sleep_max_ms),
            ),
    {
        Arc::new(Config { test: TestConfig::from_values(random_sleep_io, io_sleep_min_ms, io_sleep_max_ms) })
    }
}

} // verus!
