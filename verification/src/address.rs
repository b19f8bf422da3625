//! The connection-address grammar: an address is accepted only in the strict
//! form `redis://a.b.c.d:port/db`, where each dotted part is one to three
//! decimal digits with value at most 255, the port is one to five digits with
//! no leading zero and value at most 65535, and the database index is `0`-`9`
//! or `10`-`15`. Validation is pure text work and happens before any store
//! traffic.
use vstd::prelude::*;

use crate::device::ConfigError;

verus! {

/// A decimal digit.
pub open spec fn is_digit_char(c: char) -> bool {
    48 <= c as int <= 57
}

/// The numeric value of one digit.
pub open spec fn digit_val(c: char) -> int {
    c as int - 48
}

/// Every character of `s` is a decimal digit.
pub open spec fn all_digits(s: Seq<char>) -> bool {
    forall|i: int| 0 <= i < s.len() ==> is_digit_char(s[i])
}

/// The value of a digit string read in base ten.
pub open spec fn digits_val(s: Seq<char>) -> int
    decreases s.len(),
{
    if s.len() == 0 {
        0
    } else {
        digits_val(s.drop_last()) * 10 + digit_val(s.last())
    }
}

/// The first index at or after `i` that does not hold a digit (or the end).
pub open spec fn digit_run_end(s: Seq<char>, i: int) -> int
    decreases s.len() - i,
{
    if 0 <= i < s.len() && is_digit_char(s[i]) {
        digit_run_end(s, i + 1)
    } else {
        i
    }
}

/// One dotted address part: one to three digits, value at most 255.
pub open spec fn valid_octet(s: Seq<char>) -> bool {
    &&& 1 <= s.len() <= 3
    &&& all_digits(s)
    &&& digits_val(s) <= 255
}

/// The port part: one to five digits, no leading zero, value at most 65535.
pub open spec fn valid_port(s: Seq<char>) -> bool {
    &&& 1 <= s.len() <= 5
    &&& all_digits(s)
    &&& s[0] != '0'
    &&& digits_val(s) <= 65535
}

/// The database index part: `0`-`9` or `10`-`15`, written without leading zeros.
pub open spec fn valid_db_index(s: Seq<char>) -> bool {
    &&& 1 <= s.len() <= 2
    &&& all_digits(s)
    &&& (s.len() == 1 || s[0] != '0')
    &&& digits_val(s) <= 15
}

/// The whole address grammar. Each numeric part extends to the first
/// non-digit, so the decomposition below is the only possible one.
pub open spec fn valid_address(s: Seq<char>) -> bool {
    let a = 8int;
    let b = digit_run_end(s, a);
    let c = digit_run_end(s, b + 1);
    let d = digit_run_end(s, c + 1);
    let e = digit_run_end(s, d + 1);
    let f = digit_run_end(s, e + 1);
    let g = digit_run_end(s, f + 1);
    &&& s.len() >= 8
    &&& s.subrange(0, 8) == "redis://"@
    &&& valid_octet(s.subrange(a, b)) && b < s.len() && s[b] == '.'
    &&& valid_octet(s.subrange(b + 1, c)) && c < s.len() && s[c] == '.'
    &&& valid_octet(s.subrange(c + 1, d)) && d < s.len() && s[d] == '.'
    &&& valid_octet(s.subrange(d + 1, e)) && e < s.len() && s[e] == ':'
    &&& valid_port(s.subrange(e + 1, f)) && f < s.len() && s[f] == '/'
    &&& valid_db_index(s.subrange(f + 1, g)) && g == s.len()
}

/// Digit test on one character.
fn check_digit(c: char) -> (r: bool)
    ensures
        r == is_digit_char(c),
{
    let v: u32 = c as u32;
    48 <= v && v <= 57
}

/// Scans the digit run that starts at `from`.
fn digit_run(s: &str, from: usize, n: usize) -> (end: usize)
    requires
        n == s@.len(),
        from <= n,
    ensures
        end == digit_run_end(s@, from as int),
        from <= end <= n,
    decreases n - from,
{
    if from < n {
        let c = s.get_char(from);
        if check_digit(c) {
            return digit_run(s, from + 1, n);
        }
    }
    from
}

/// An upper bound on the value of a short digit string.
proof fn lemma_digits_val_bound(s: Seq<char>)
    requires
        all_digits(s),
    ensures
        0 <= digits_val(s),
        s.len() <= 1 ==> digits_val(s) <= 9,
        s.len() <= 2 ==> digits_val(s) <= 99,
        s.len() <= 3 ==> digits_val(s) <= 999,
        s.len() <= 4 ==> digits_val(s) <= 9999,
        s.len() <= 5 ==> digits_val(s) <= 99999,
    decreases s.len(),
{
    if s.len() > 0 {
        assert(all_digits(s.drop_last())) by {
            assert(forall|i: int|
                0 <= i < s.len() - 1 ==> s.drop_last()[i] == s[i] && is_digit_char(s[i]));
        }
        lemma_digits_val_bound(s.drop_last());
    }
}

/// Reads the value of the digit run `s[from..to]`, known to be short enough
/// to fit comfortably.
fn digits_value(s: &str, from: usize, to: usize, n: usize) -> (v: u32)
    requires
        n == s@.len(),
        from <= to <= n,
        to - from <= 5,
        all_digits(s@.subrange(from as int, to as int)),
    ensures
        v == digits_val(s@.subrange(from as int, to as int)),
        v <= 99999,
{
    let mut i: usize = from;
    let mut v: u32 = 0;
    while i < to
        invariant
            from <= i <= to <= n,
            n == s@.len(),
            to - from <= 5,
            all_digits(s@.subrange(from as int, to as int)),
            all_digits(s@.subrange(from as int, i as int)),
            v == digits_val(s@.subrange(from as int, i as int)),
            v <= 99999,
        decreases to - i,
    {
        proof {
            lemma_digits_val_bound(s@.subrange(from as int, i as int));
            assert(s@.subrange(from as int, i + 1).drop_last() =~= s@.subrange(
                from as int,
                i as int,
            ));
            assert(is_digit_char(s@.subrange(from as int, to as int)[i - from]));
            assert(s@.subrange(from as int, to as int)[i - from] == s@[i as int]);
            assert(all_digits(s@.subrange(from as int, i + 1))) by {
                assert(forall|j: int|
                    0 <= j < i + 1 - from ==> s@.subrange(from as int, i + 1)[j] == s@.subrange(
                        from as int,
                        to as int,
                    )[j]);
            }
            lemma_digits_val_bound(s@.subrange(from as int, i + 1));
        }
        let c = s.get_char(i);
        v = v * 10 + (c as u32 - 48);
        i = i + 1;
    }
    v
}

/// Checks a digit run against the octet rule and the following separator.
fn check_part(s: &str, from: usize, n: usize, sep: char, max_len: usize, max_val: u32) -> (r: (
    bool,
    usize,
))
    requires
        n == s@.len(),
        from <= n,
        max_len <= 5,
    ensures
        r.1 == digit_run_end(s@, from as int),
        r.0 <==> ({
            let run = s@.subrange(from as int, digit_run_end(s@, from as int));
            &&& 1 <= run.len() <= max_len
            &&& digits_val(run) <= max_val
            &&& digit_run_end(s@, from as int) < s@.len()
            &&& s@[digit_run_end(s@, from as int)] == sep
        }),
        r.0 ==> from < r.1 < n,
{
    let end = digit_run(s, from, n);
    proof {
        lemma_digit_run_digits(s@, from as int);
    }
    if end == from || end - from > max_len {
        return (false, end);
    }
    let v = digits_value(s, from, end, n);
    if v > max_val {
        return (false, end);
    }
    if end >= n {
        return (false, end);
    }
    let c = s.get_char(end);
    (c == sep, end)
}

/// Every character of a digit run is a digit.
proof fn lemma_digit_run_digits(s: Seq<char>, i: int)
    requires
        0 <= i <= s.len(),
    ensures
        i <= digit_run_end(s, i) <= s.len(),
        all_digits(s.subrange(i, digit_run_end(s, i))),
    decreases s.len() - i,
{
    if i < s.len() && is_digit_char(s[i]) {
        lemma_digit_run_digits(s, i + 1);
        let e = digit_run_end(s, i);
        assert(forall|j: int| 0 <= j < e - i ==> is_digit_char(#[trigger] s.subrange(i, e)[j])) by {
            assert(forall|j: int|
                1 <= j < e - i ==> #[trigger] s.subrange(i, e)[j] == s.subrange(i + 1, e)[j - 1]);
            assert(s.subrange(i, e)[0] == s[i]);
        }
    }
}

/// Decides whether `s` is a well-formed connection address. Pure text work:
/// no store traffic is attempted on any input.
pub fn validate_address(s: &str) -> (r: bool)
    ensures
        r == valid_address(s@),
{
    let n = s.unicode_len();
    if n < 8 {
        return false;
    }
    let prefix = s.substring_char(0, 8);
    if !compare_prefix(prefix) {
        proof {
            reveal_strlit("redis://");
        }
        return false;
    }
    let (ok1, b) = check_part(s, 8, n, '.', 3, 255);
    if !ok1 {
        return false;
    }
    let (ok2, c) = check_part(s, b + 1, n, '.', 3, 255);
    if !ok2 {
        return false;
    }
    let (ok3, d) = check_part(s, c + 1, n, '.', 3, 255);
    if !ok3 {
        return false;
    }
    let (ok4, e) = check_part(s, d + 1, n, ':', 3, 255);
    if !ok4 {
        return false;
    }
    // port: digits, no leading zero, at most five digits, value at most 65535
    let (ok5, f) = check_part(s, e + 1, n, '/', 5, 65535);
    if !ok5 {
        return false;
    }
    if s.get_char(e + 1) == '0' {
        proof {
            let run = s@.subrange(e + 1, digit_run_end(s@, e + 1));
            assert(run[0] == s@[e + 1]);
        }
        return false;
    }
    // database index: one or two digits, no leading zero, value at most 15
    let g = digit_run(s, f + 1, n);
    proof {
        lemma_digit_run_digits(s@, f + 1);
    }
    if g != n || g == f + 1 || g - (f + 1) > 2 {
        return false;
    }
    let v = digits_value(s, f + 1, g, n);
    if v > 15 {
        return false;
    }
    if g - (f + 1) == 2 && s.get_char(f + 1) == '0' {
        proof {
            let run = s@.subrange(f + 1, digit_run_end(s@, f + 1));
            assert(run[0] == s@[f + 1]);
        }
        return false;
    }
    proof {
        lemma_digit_run_digits(s@, 8);
        lemma_digit_run_digits(s@, b + 1);
        lemma_digit_run_digits(s@, c + 1);
        lemma_digit_run_digits(s@, d + 1);
        lemma_digit_run_digits(s@, e + 1);
        let run = s@.subrange(e + 1, digit_run_end(s@, e + 1));
        assert(run[0] == s@[e + 1]);
        let dbrun = s@.subrange(f + 1, digit_run_end(s@, f + 1));
        assert(dbrun.len() == 2 ==> dbrun[0] == s@[f + 1]);
    }
    true
}

/// Checks a connection address before any store traffic: a malformed one is
/// the configuration fault, detected with no network attempt.
pub fn check_address(s: &str) -> (r: Result<(), ConfigError>)
    ensures
        r is Ok <==> valid_address(s@),
        r matches Err(e) ==> e == ConfigError::InvalidAddress,
{
    if validate_address(s) {
        Ok(())
    } else {
        Err(ConfigError::InvalidAddress)
    }
}

/// Compares the eight-character scheme prefix.
fn compare_prefix(p: &str) -> (r: bool)
    requires
        p@.len() == 8,
    ensures
        r == (p@ == "redis://"@),
{
    proof {
        reveal_strlit("redis://");
    }
    let r = p.get_char(0) == 'r' && p.get_char(1) == 'e' && p.get_char(2) == 'd' && p.get_char(3)
        == 'i' && p.get_char(4) == 's' && p.get_char(5) == ':' && p.get_char(6) == '/'
        && p.get_char(7) == '/';
    proof {
        if r {
            assert(p@ =~= "redis://"@);
        }
    }
    r
}

} // verus!
