//! Decimal text: parsing signed integers from the strings the trend source
//! delivers, and rendering counters for progress messages.
//!
//! The parsing grammar is the one `str::parse` on the integer types accepts:
//! an optional `+` or `-` sign followed by one or more ASCII digits, with the
//! value inside the target type's range.

use vstd::prelude::*;
use vstd::string::StringSliceAdditionalSpecFns;
use vstd::string::StringExecFns;

verus! {

/// The UTF-8 bytes of a character sequence: what a `&str` with that view
/// hands out as `as_bytes`.
pub open spec fn bytes_of(s: Seq<char>) -> Seq<u8> {
    vstd::utf8::encode_utf8(s)
}

pub open spec fn is_digit_byte(b: u8) -> bool {
    48 <= b && b <= 57
}

pub open spec fn digit_val(b: u8) -> int {
    b - 48
}

/// Every byte of `s` is an ASCII digit.
pub open spec fn all_digits(s: Seq<u8>) -> bool {
    forall|i: int| 0 <= i < s.len() ==> is_digit_byte(#[trigger] s[i])
}

/// The value of a sequence of ASCII digit bytes read in base 10.
pub open spec fn digits_val(s: Seq<u8>) -> int
    decreases s.len(),
{
    if s.len() == 0 {
        0
    } else {
        digits_val(s.drop_last()) * 10 + digit_val(s.last())
    }
}

/// The magnitude part of `s`: everything after a leading `+` or `-`.
pub open spec fn magnitude_part(s: Seq<u8>) -> Seq<u8> {
    if s.len() > 0 && (s[0] == 43 || s[0] == 45) {
        s.subrange(1, s.len() as int)
    } else {
        s
    }
}

/// True when `s` carries a leading minus sign.
pub open spec fn is_negative(s: Seq<u8>) -> bool {
    s.len() > 0 && s[0] == 45
}

/// The signed integer a byte string denotes, before any range check:
/// `None` unless the string is a sign followed by one or more digits.
pub open spec fn spec_parse_int(s: Seq<u8>) -> Option<int> {
    let mag = magnitude_part(s);
    if mag.len() == 0 || !all_digits(mag) {
        None
    } else if is_negative(s) {
        Some(-digits_val(mag))
    } else {
        Some(digits_val(mag))
    }
}

/// What `str::parse::<i64>` returns on `s`, as a mathematical value.
pub open spec fn spec_parse_i64(s: Seq<u8>) -> Option<int> {
    match spec_parse_int(s) {
        Some(v) => if i64::MIN <= v <= i64::MAX {
            Some(v)
        } else {
            None
        },
        None => None,
    }
}

/// What `str::parse::<i32>` returns on `s`, as a mathematical value.
pub open spec fn spec_parse_i32(s: Seq<u8>) -> Option<int> {
    match spec_parse_int(s) {
        Some(v) => if i32::MIN <= v <= i32::MAX {
            Some(v)
        } else {
            None
        },
        None => None,
    }
}

proof fn lemma_digits_val_nonneg(s: Seq<u8>)
    requires
        all_digits(s),
    ensures
        digits_val(s) >= 0,
    decreases s.len(),
{
    if s.len() > 0 {
        assert(all_digits(s.drop_last()));
        lemma_digits_val_nonneg(s.drop_last());
    }
}

proof fn lemma_digits_val_take_step(s: Seq<u8>, i: int)
    requires
        0 <= i < s.len(),
    ensures
        digits_val(s.take(i + 1)) == digits_val(s.take(i)) * 10 + digit_val(s[i]),
{
    assert(s.take(i + 1).drop_last() =~= s.take(i));
    assert(s.take(i + 1).last() == s[i]);
}

/// Once a digit prefix already exceeds `limit`, every longer prefix does too.
proof fn lemma_digits_val_grows(s: Seq<u8>, i: int, j: int)
    requires
        all_digits(s),
        0 <= i <= j <= s.len(),
    ensures
        digits_val(s.take(i)) <= digits_val(s.take(j)),
    decreases j - i,
{
    if i < j {
        lemma_digits_val_grows(s, i, j - 1);
        assert(all_digits(s.take(j - 1)));
        lemma_digits_val_nonneg(s.take(j - 1));
        lemma_digits_val_take_step(s, j - 1);
    }
}

/// Parses the digit run `b[start..]` as a base-10 magnitude.
/// Returns the value exactly when the run is nonempty, all digits,
/// and the value is at most `limit`.
fn parse_magnitude(b: &[u8], start: usize, limit: u64) -> (r: Option<u64>)
    requires
        start <= b@.len(),
        limit >= 9,
    ensures
        match r {
            Some(v) => {
                let mag = b@.subrange(start as int, b@.len() as int);
                &&& mag.len() > 0
                &&& all_digits(mag)
                &&& digits_val(mag) == v as int
                &&& v <= limit
            },
            None => {
                let mag = b@.subrange(start as int, b@.len() as int);
                mag.len() == 0 || !all_digits(mag) || digits_val(mag) > limit
            },
        },
{
    let ghost mag = b@.subrange(start as int, b@.len() as int);
    let n = b.len();
    if start == n {
        return None;
    }
    let mut acc: u64 = 0;
    let mut i: usize = start;
    while i < n
        invariant
            start <= i <= n,
            n == b@.len(),
            mag == b@.subrange(start as int, n as int),
            all_digits(mag.take(i - start)),
            digits_val(mag.take(i - start)) == acc as int,
            acc <= limit,
            limit >= 9,
        decreases n - i,
    {
        let d = b[i];
        if d < 48 || d > 57 {
            proof {
                assert(mag[i - start] == b@[i as int]);
                assert(!all_digits(mag));
            }
            return None;
        }
        let dv: u64 = (d - 48) as u64;
        proof {
            assert(mag[i - start] == b@[i as int]);
            assert(mag.take(i - start + 1).drop_last() =~= mag.take(i - start));
            assert(mag.take(i - start + 1).last() == mag[i - start]);
        }
        if acc > (limit - dv) / 10 {
            proof {
                // the prefix through this digit already exceeds the limit,
                // so the whole run does
                assert(acc as int * 10 + dv as int > limit) by (nonlinear_arith)
                    requires
                        acc as int > (limit as int - dv as int) / 10,
                        0 <= dv <= 9,
                        limit >= 0,
                ;
                if all_digits(mag) {
                    lemma_digits_val_grows(mag, i - start + 1, mag.len() as int);
                    assert(mag.take(mag.len() as int) =~= mag);
                }
            }
            return None;
        }
        proof {
            assert(acc as int * 10 + dv as int <= limit) by (nonlinear_arith)
                requires
                    acc as int <= (limit as int - dv as int) / 10,
                    0 <= dv <= 9,
                    limit as int - dv as int >= 0,
            ;
        }
        acc = acc * 10 + dv;
        i = i + 1;
    }
    proof {
        assert(mag.take(i - start) =~= mag);
    }
    Some(acc)
}

/// Splits off the optional sign byte: returns (negative, index of first digit).
fn parse_sign(b: &[u8]) -> (r: (bool, usize))
    ensures
        r.0 == is_negative(b@),
        r.1 <= b@.len(),
        b@.subrange(r.1 as int, b@.len() as int) == magnitude_part(b@),
{
    if b.len() > 0 && (b[0] == 43 || b[0] == 45) {
        proof {
            assert(b@.subrange(1, b@.len() as int) =~= magnitude_part(b@));
        }
        (b[0] == 45, 1)
    } else {
        proof {
            assert(b@.subrange(0, b@.len() as int) =~= b@);
        }
        (false, 0)
    }
}

/// What `s.parse::<i64>()` returns, computed over the string's bytes.
pub fn parse_i64(s: &str) -> (r: Option<i64>)
    ensures
        match r {
            Some(v) => spec_parse_i64(s.spec_bytes()) == Some(v as int),
            None => spec_parse_i64(s.spec_bytes()) is None,
        },
{
    let b = s.as_bytes();
    let (neg, start) = parse_sign(b);
    let limit: u64 = if neg {
        9223372036854775808
    } else {
        9223372036854775807
    };
    match parse_magnitude(b, start, limit) {
        Some(mag) => {
            if neg {
                if mag == 9223372036854775808 {
                    Some(i64::MIN)
                } else {
                    Some(-(mag as i64))
                }
            } else {
                Some(mag as i64)
            }
        },
        None => {
            proof {
                if spec_parse_int(s.spec_bytes()) is Some {
                    lemma_digits_val_nonneg(magnitude_part(s.spec_bytes()));
                }
            }
            None
        },
    }
}

/// What `s.parse::<i32>()` returns, computed over the string's bytes.
pub fn parse_i32(s: &str) -> (r: Option<i32>)
    ensures
        match r {
            Some(v) => spec_parse_i32(s.spec_bytes()) == Some(v as int),
            None => spec_parse_i32(s.spec_bytes()) is None,
        },
{
    let b = s.as_bytes();
    let (neg, start) = parse_sign(b);
    let limit: u64 = if neg {
        2147483648
    } else {
        2147483647
    };
    match parse_magnitude(b, start, limit) {
        Some(mag) => {
            if neg {
                if mag == 2147483648 {
                    Some(i32::MIN)
                } else {
                    Some(-(mag as i32))
                }
            } else {
                Some(mag as i32)
            }
        },
        None => {
            proof {
                if spec_parse_int(s.spec_bytes()) is Some {
                    lemma_digits_val_nonneg(magnitude_part(s.spec_bytes()));
                }
            }
            None
        },
    }
}

/// The repository identifier a candidate row denotes: the parsed id, or 0
/// when the text is not a well-formed integer.
pub open spec fn spec_id_or_zero(s: Seq<u8>) -> int {
    match spec_parse_i64(s) {
        Some(v) => v,
        None => 0,
    }
}

/// Parses a repository identifier, falling back to 0 on malformed text.
pub fn parse_id_or_zero(s: &str) -> (r: i64)
    ensures
        r as int == spec_id_or_zero(s.spec_bytes()),
{
    match parse_i64(s) {
        Some(v) => v,
        None => 0,
    }
}

/// The decimal digit characters of `n`, most significant first.
pub open spec fn spec_dec(n: nat) -> Seq<char>
    decreases n,
{
    if n < 10 {
        seq![digit_char(n)]
    } else {
        spec_dec(n / 10).push(digit_char(n % 10))
    }
}

pub open spec fn digit_char(d: nat) -> char {
    if d == 0 { '0' }
    else if d == 1 { '1' }
    else if d == 2 { '2' }
    else if d == 3 { '3' }
    else if d == 4 { '4' }
    else if d == 5 { '5' }
    else if d == 6 { '6' }
    else if d == 7 { '7' }
    else if d == 8 { '8' }
    else { '9' }
}

fn digit_str(d: u64) -> (r: &'static str)
    requires
        d < 10,
    ensures
        r@ =~= seq![digit_char(d as nat)],
{
    proof {
        reveal_strlit("0");
        reveal_strlit("1");
        reveal_strlit("2");
        reveal_strlit("3");
        reveal_strlit("4");
        reveal_strlit("5");
        reveal_strlit("6");
        reveal_strlit("7");
        reveal_strlit("8");
        reveal_strlit("9");
    }
    if d == 0 { "0" }
    else if d == 1 { "1" }
    else if d == 2 { "2" }
    else if d == 3 { "3" }
    else if d == 4 { "4" }
    else if d == 5 { "5" }
    else if d == 6 { "6" }
    else if d == 7 { "7" }
    else if d == 8 { "8" }
    else { "9" }
}

/// Renders `n` in decimal, for progress messages.
pub fn u64_to_dec(n: u64) -> (s: String)
    ensures
        s@ == spec_dec(n as nat),
    decreases n,
{
    if n < 10 {
        String::from_str(digit_str(n))
    } else {
        let mut s = u64_to_dec(n / 10);
        s.append(digit_str(n % 10));
        proof {
            assert(s@ == spec_dec((n / 10) as nat) + seq![digit_char((n % 10) as nat)]);
            assert(spec_dec((n / 10) as nat) + seq![digit_char((n % 10) as nat)]
                =~= spec_dec((n / 10) as nat).push(digit_char((n % 10) as nat)));
        }
        s
    }
}

} // verus!
