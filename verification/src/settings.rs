//! Settings read from the environment: decimal numbers as `str::parse` reads them, and the
//! defaults that stand in when a variable is unset or unreadable.

use vstd::prelude::*;
use vstd::utf8::encode_utf8;

verus! {

/// `b` is one of the ASCII digits `0` to `9`.
pub open spec fn is_digit(b: u8) -> bool {
    48 <= b <= 57
}

/// The number that the ASCII digits `d` spell, most significant digit first.
pub open spec fn decimal_value(d: Seq<u8>) -> nat
    decreases d.len(),
{
    if d.len() == 0 {
        0
    } else {
        decimal_value(d.drop_last()) * 10 + (d.last() - 48) as nat
    }
}

/// The digits of `s` once a single leading `+` is taken off.
pub open spec fn unsigned_digits(s: Seq<u8>) -> Seq<u8> {
    if s.len() > 0 && s[0] == 43 {
        s.drop_first()
    } else {
        s
    }
}

/// What `str::parse` gives for an unsigned integer type whose largest value is `max`, given the
/// bytes `s`: an optional `+`, then one or more ASCII digits, and nothing else, spelling a number
/// no larger than `max`; otherwise nothing.
pub open spec fn parse_unsigned(s: Seq<u8>, max: nat) -> Option<nat> {
    let d = unsigned_digits(s);
    if d.len() > 0 && (forall|i: int| 0 <= i < d.len() ==> is_digit(#[trigger] d[i]))
        && decimal_value(d) <= max {
        Some(decimal_value(d))
    } else {
        None
    }
}

/// A longer run of digits never spells a smaller number.
proof fn lemma_decimal_value_prefix(d: Seq<u8>, i: int)
    requires
        0 <= i <= d.len(),
        forall|j: int| 0 <= j < d.len() ==> is_digit(#[trigger] d[j]),
    ensures
        decimal_value(d.take(i)) <= decimal_value(d),
    decreases d.len() - i,
{
    if i < d.len() {
        lemma_decimal_value_prefix(d, i + 1);
        assert(d.take(i + 1).drop_last() =~= d.take(i));
    } else {
        assert(d.take(i) =~= d);
    }
}

/// Reads the bytes `s` as an unsigned decimal number no larger than `max`, as `str::parse`
/// does for an unsigned integer type whose largest value is `max`.
fn parse_bounded(s: &[u8], max: u64) -> (r: Option<u64>)
    ensures
        match parse_unsigned(s@, max as nat) {
            Some(v) => r == Some(v as u64),
            None => r is None,
        },
{
    let ghost d = unsigned_digits(s@);
    let start: usize = if s.len() > 0 && s[0] == 43 {
        1
    } else {
        0
    };
    assert(d =~= s@.skip(start as int));
    if start >= s.len() {
        return None;
    }
    let mut i: usize = start;
    let mut acc: u64 = 0;
    while i < s.len()
        invariant
            start <= i <= s.len(),
            d == unsigned_digits(s@),
            d =~= s@.skip(start as int),
            d.len() > 0,
            forall|j: int| 0 <= j < i - start ==> is_digit(#[trigger] d[j]),
            acc as nat == decimal_value(d.take(i - start)),
            acc <= max,
        decreases s.len() - i,
    {
        let b: u8 = s[i];
        assert(d[i - start] == b);
        if b < 48 || b > 57 {
            assert(!is_digit(d[i - start]));
            return None;
        }
        let digit: u64 = (b - 48) as u64;
        assert(d.take(i + 1 - start).drop_last() =~= d.take(i - start));
        assert(d.take(i + 1 - start).last() == b);
        if digit > max || acc > (max - digit) / 10 {
            proof {
                if digit <= max {
                    assert(acc * 10 + digit > max) by (nonlinear_arith)
                        requires
                            acc > (max - digit) / 10,
                            digit <= max,
                    ;
                }
                let ghost k = i + 1 - start;
                if forall|j: int| 0 <= j < d.len() ==> is_digit(#[trigger] d[j]) {
                    lemma_decimal_value_prefix(d, k);
                }
            }
            return None;
        }
        assert(acc * 10 + digit <= max) by (nonlinear_arith)
            requires
                acc <= (max - digit) / 10,
                digit <= max,
        ;
        acc = acc * 10 + digit;
        i = i + 1;
    }
    assert(d.take(i - start) =~= d);
    Some(acc)
}

/// Reads a `u16` the way `str::parse::<u16>` does.
pub fn parse_u16(s: &str) -> (r: Option<u16>)
    ensures
        match parse_unsigned(encode_utf8(s@), u16::MAX as nat) {
            Some(v) => r == Some(v as u16),
            None => r is None,
        },
{
    match parse_bounded(s.as_bytes(), 65535) {
        Some(v) => Some(v as u16),
        None => None,
    }
}

/// Reads a `usize` the way `str::parse::<usize>` does.
pub fn parse_usize(s: &str) -> (r: Option<usize>)
    ensures
        match parse_unsigned(encode_utf8(s@), usize::MAX as nat) {
            Some(v) => r == Some(v as usize),
            None => r is None,
        },
{
    match parse_bounded(s.as_bytes(), usize::MAX as u64) {
        Some(v) => Some(v as usize),
        None => None,
    }
}

/// The number a variable holds when it reads as an unsigned number no larger than `max`, and
/// `default` when it is unset or does not read so.
pub open spec fn number_setting(raw: Option<&str>, max: nat, default: nat) -> nat {
    match raw {
        Some(s) => match parse_unsigned(encode_utf8(s@), max) {
            Some(v) => v,
            None => default,
        },
        None => default,
    }
}

/// A variable that reads as a number no larger than `max` gives exactly that number, whatever
/// the default, however large or small it is.
pub proof fn lemma_number_setting_reads_value(s: &str, max: nat, default: nat, v: nat)
    requires
        parse_unsigned(encode_utf8(s@), max) == Some(v),
    ensures
        number_setting(Some(s), max, default) == v,
        v <= max,
{
}

/// An unset variable, or one that does not read as a number no larger than `max`, gives the
/// default.
pub proof fn lemma_number_setting_falls_back(raw: Option<&str>, max: nat, default: nat)
    requires
        match raw {
            Some(s) => parse_unsigned(encode_utf8(s@), max) is None,
            None => true,
        },
    ensures
        number_setting(raw, max, default) == default,
{
}

/// A single ASCII digit reads as its value.
pub proof fn lemma_parse_unsigned_one_digit(b: u8, max: nat)
    requires
        is_digit(b),
        b - 48 <= max,
    ensures
        parse_unsigned(seq![b], max) == Some((b - 48) as nat),
{
    let d = seq![b];
    assert(unsigned_digits(d) =~= d);
    assert(d.drop_last() =~= Seq::<u8>::empty());
    assert(decimal_value(d.drop_last()) == 0);
    assert(d.last() == b);
    assert(decimal_value(d) == (b - 48) as nat);
    assert(forall|i: int| 0 <= i < d.len() ==> is_digit(#[trigger] d[i]));
}

/// Appending a digit to what reads as `v` reads as `10 * v` plus that digit, while that stays
/// no larger than `max`, and reads as nothing once it is larger.
pub proof fn lemma_parse_unsigned_push_digit(s: Seq<u8>, b: u8, max: nat, v: nat)
    requires
        parse_unsigned(s, max) == Some(v),
        is_digit(b),
    ensures
        v * 10 + (b - 48) <= max ==> parse_unsigned(s.push(b), max) == Some(
            (v * 10 + (b - 48)) as nat,
        ),
        v * 10 + (b - 48) > max ==> parse_unsigned(s.push(b), max) is None,
{
    let d = unsigned_digits(s);
    assert(s.len() > 0);
    assert(unsigned_digits(s.push(b)) =~= d.push(b));
    assert(d.push(b).drop_last() =~= d);
    assert(forall|i: int| 0 <= i < d.len() ==> is_digit(#[trigger] d[i]));
    assert(forall|i: int| 0 <= i < d.push(b).len() ==> is_digit(#[trigger] d.push(b)[i]));
}

/// One leading `+` is allowed and changes nothing.
pub proof fn lemma_parse_unsigned_plus(d: Seq<u8>, max: nat)
    requires
        d.len() == 0 || d[0] != 43,
    ensures
        parse_unsigned(seq![43u8] + d, max) == parse_unsigned(d, max),
{
    assert((seq![43u8] + d).drop_first() =~= d);
}

/// Text with a byte that is not a digit, other than one leading `+`, does not read as a
/// number; neither does the empty text.
pub proof fn lemma_parse_unsigned_rejects(s: Seq<u8>, i: int, max: nat)
    requires
        0 <= i < s.len(),
        !is_digit(s[i]),
        !(i == 0 && s[0] == 43),
    ensures
        parse_unsigned(s, max) is None,
        parse_unsigned(Seq::<u8>::empty(), max) is None,
{
    let d = unsigned_digits(s);
    if s[0] == 43 {
        assert(d[i - 1] == s[i]);
    } else {
        assert(d[i] == s[i]);
    }
}

/// The TLS port when `TLS_PORT` (or, for the proxy, `PROXY_PORT`) does not name one.
pub const DEFAULT_TLS_PORT: u16 = 8443;

/// The listening TLS port: the value of the variable, or 8443.
pub fn tls_port(raw: Option<&str>) -> (port: u16)
    ensures
        port == number_setting(raw, u16::MAX as nat, 8443),
{
    match raw {
        Some(s) => match parse_u16(s) {
            Some(p) => p,
            None => DEFAULT_TLS_PORT,
        },
        None => DEFAULT_TLS_PORT,
    }
}

/// The number of reuseport workers: the value of `WORKERS`, or else the number of CPUs, and at
/// least 1.
pub fn worker_count(raw: Option<&str>, cpus: usize) -> (n: usize)
    ensures
        n == (if number_setting(raw, usize::MAX as nat, cpus as nat) >= 1 {
            number_setting(raw, usize::MAX as nat, cpus as nat)
        } else {
            1
        }),
        n >= 1,
{
    let n: usize = match raw {
        Some(s) => match parse_usize(s) {
            Some(v) => v,
            None => cpus,
        },
        None => cpus,
    };
    if n >= 1 {
        n
    } else {
        1
    }
}

/// The QUIC runtime's default thread count for `n_workers` workers: a quarter of them, at least
/// 2 and at most 8.
pub open spec fn quic_threads_for(n_workers: nat) -> nat {
    let quarter: nat = n_workers / 4;
    if quarter < 2 {
        2
    } else if quarter > 8 {
        8
    } else {
        quarter
    }
}

/// The QUIC runtime's default thread count for `n_workers` workers.
pub fn default_quic_threads(n_workers: usize) -> (n: usize)
    ensures
        n == quic_threads_for(n_workers as nat),
{
    let quarter: usize = n_workers / 4;
    let at_least_two: usize = if quarter >= 2 {
        quarter
    } else {
        2
    };
    if at_least_two <= 8 {
        at_least_two
    } else {
        8
    }
}

/// The default QUIC thread count always lies between 2 and 8.
pub proof fn lemma_quic_threads_for_range(n_workers: nat)
    ensures
        2 <= quic_threads_for(n_workers) <= 8,
{
}

/// The default QUIC thread count is a quarter of the workers wherever that lies between 2 and
/// 8, and it never falls as workers are added.
pub proof fn lemma_quic_threads_for_quarter(n: nat, m: nat)
    ensures
        2 <= n / 4 <= 8 ==> quic_threads_for(n) == n / 4,
        n / 4 < 2 ==> quic_threads_for(n) == 2,
        n / 4 > 8 ==> quic_threads_for(n) == 8,
        n <= m ==> quic_threads_for(n) <= quic_threads_for(m),
{
    if n <= m {
        assert(n / 4 <= m / 4) by (nonlinear_arith)
            requires
                n <= m,
        ;
    }
}

/// The threads of the QUIC runtime: the value of `QUIC_THREADS`, or else the default for
/// `n_workers`, and at least 1.
pub fn quic_threads(raw: Option<&str>, n_workers: usize) -> (n: usize)
    ensures
        n == (if number_setting(raw, usize::MAX as nat, quic_threads_for(n_workers as nat)) >= 1 {
            number_setting(raw, usize::MAX as nat, quic_threads_for(n_workers as nat))
        } else {
            1
        }),
        n >= 1,
{
    let n: usize = match raw {
        Some(s) => match parse_usize(s) {
            Some(v) => v,
            None => default_quic_threads(n_workers),
        },
        None => default_quic_threads(n_workers),
    };
    if n >= 1 {
        n
    } else {
        1
    }
}

/// The largest pool of database connections when `DATABASE_MAX_CONN` does not name one.
pub const DEFAULT_DATABASE_MAX_CONN: usize = 256;

/// The size of the database connection pool: the value of `DATABASE_MAX_CONN`, or 256.
pub fn database_max_conn(raw: Option<&str>) -> (n: usize)
    ensures
        n == number_setting(raw, usize::MAX as nat, 256),
{
    match raw {
        Some(s) => match parse_usize(s) {
            Some(v) => v,
            None => DEFAULT_DATABASE_MAX_CONN,
        },
        None => DEFAULT_DATABASE_MAX_CONN,
    }
}

/// HTTP/3 is on when `PROXY_H3` is set to anything but the empty text and `0`.
pub fn h3_enabled(raw: Option<&str>) -> (on: bool)
    ensures
        on == match raw {
            Some(s) => encode_utf8(s@).len() > 0 && encode_utf8(s@) != seq![48u8],
            None => false,
        },
{
    match raw {
        Some(s) => {
            let b = s.as_bytes();
            if b.len() == 0 {
                false
            } else if b.len() == 1 && b[0] == 48 {
                assert(b@ =~= seq![48u8]);
                false
            } else {
                assert(b@.len() != 1 ==> b@ != seq![48u8]);
                true
            }
        },
        None => false,
    }
}

/// A path or address setting: the value of the variable, or `default` when it is unset.
pub fn text_setting(raw: Option<String>, default: &str) -> (value: String)
    ensures
        value@ == match raw {
            Some(v) => v@,
            None => default@,
        },
{
    match raw {
        Some(v) => v,
        None => default.to_owned(),
    }
}

/// Where static files are served from when `STATIC_DIR` is unset.
pub const DEFAULT_STATIC_DIR: &'static str = "/data/static";

/// The TLS certificate file when `TLS_CERT` is unset.
pub const DEFAULT_TLS_CERT: &'static str = "/certs/server.crt";

/// The TLS key file when `TLS_KEY` is unset.
pub const DEFAULT_TLS_KEY: &'static str = "/certs/server.key";

/// The JSON dataset when `DATASET_PATH` is unset.
pub const DEFAULT_DATASET_PATH: &'static str = "/data/dataset.json";

/// The proxy's upstream when `PROXY_UPSTREAM` is unset.
pub const DEFAULT_PROXY_UPSTREAM: &'static str = "https://localhost:9443";

} // verus!
