//! Byte-string helpers: NUL-terminated buffers and decimal conversion.
//!
//! Tasks hand the kernel NUL-terminated byte buffers; the shell parses
//! decimal numbers out of them and the write path formats numbers back into
//! bytes.  Everything here works on plain bytes.

use vstd::prelude::*;

verus! {

/// The bytes of `s` before its first NUL, or all of `s` when it has none.
pub open spec fn nul_prefix(s: Seq<u8>) -> Seq<u8>
    decreases s.len(),
{
    if s.len() == 0 {
        s
    } else if s[0] == 0 {
        Seq::empty()
    } else {
        seq![s[0]] + nul_prefix(s.skip(1))
    }
}

/// Every byte of `s` is an ASCII decimal digit.
pub open spec fn is_digits(s: Seq<u8>) -> bool {
    forall|i: int| 0 <= i < s.len() ==> 48 <= #[trigger] s[i] <= 57
}

/// The number the digit string `s` denotes, most significant digit first.
pub open spec fn dec_value(s: Seq<u8>) -> nat
    decreases s.len(),
{
    if s.len() == 0 {
        0
    } else {
        dec_value(s.drop_last()) * 10 + (if s.last() >= 48 {
            (s.last() - 48) as nat
        } else {
            0
        })
    }
}

/// The decimal digit string of `n`, most significant digit first; `0` is "0".
pub open spec fn dec_digits(n: nat) -> Seq<u8>
    decreases n,
{
    if n < 10 {
        seq![(48 + n) as u8]
    } else {
        dec_digits(n / 10).push((48 + n % 10) as u8)
    }
}

/// Copy the bytes of `cstr` up to (and not including) its first NUL; the
/// whole buffer when no NUL occurs.
pub fn cstr_to_str(cstr: &[u8]) -> (r: Vec<u8>)
    ensures
        r@ == nul_prefix(cstr@),
{
    let mut out: Vec<u8> = Vec::new();
    let mut i: usize = 0;
    while i < cstr.len()
        invariant
            i <= cstr@.len(),
            out@ == cstr@.take(i as int),
            forall|j: int| 0 <= j < i ==> cstr@[j] != 0,
        decreases cstr@.len() - i,
    {
        if cstr[i] == 0 {
            proof {
                lemma_nul_prefix_stops(cstr@, i as int);
            }
            return out;
        }
        out.push(cstr[i]);
        assert(out@ == cstr@.take(i + 1));
        i += 1;
    }
    proof {
        lemma_nul_prefix_whole(cstr@);
        assert(out@ == cstr@.take(cstr@.len() as int));
        assert(cstr@.take(cstr@.len() as int) == cstr@);
    }
    out
}

/// When `s[k]` is the first NUL, the NUL-free prefix is `s.take(k)`.
proof fn lemma_nul_prefix_stops(s: Seq<u8>, k: int)
    requires
        0 <= k < s.len(),
        s[k] == 0,
        forall|j: int| 0 <= j < k ==> s[j] != 0,
    ensures
        nul_prefix(s) == s.take(k),
    decreases k,
{
    if k == 0 {
        assert(nul_prefix(s) =~= s.take(0));
    } else {
        lemma_nul_prefix_stops(s.skip(1), k - 1);
        assert(nul_prefix(s) =~= s.take(k));
    }
}

/// A buffer without a NUL is its own NUL-free prefix.
proof fn lemma_nul_prefix_whole(s: Seq<u8>)
    requires
        forall|j: int| 0 <= j < s.len() ==> s[j] != 0,
    ensures
        nul_prefix(s) == s,
    decreases s.len(),
{
    if s.len() > 0 {
        lemma_nul_prefix_whole(s.skip(1));
        assert(nul_prefix(s) =~= s);
    }
}

/// Why a buffer fails to parse as a decimal number.
#[derive(Clone, Copy, PartialEq, Eq, Structural, Debug)]
pub enum ParseError {
    /// The NUL-free prefix is empty, or only a sign.
    Empty,
    /// A byte of the prefix is not a decimal digit.
    InvalidDigit,
    /// The denoted number does not fit in a `u64`.
    Overflow,
}

/// The input has a non-digit byte, every byte before it is a digit, and the
/// digits before it still fit in a `u64`: the scan stops there with
/// `InvalidDigit`.
pub open spec fn stops_invalid(d: Seq<u8>) -> bool {
    exists|j: int|
        0 <= j < d.len() && !(48 <= #[trigger] d[j] <= 57) && is_digits(d.take(j)) && dec_value(
            d.take(j),
        ) <= u64::MAX
}

/// Some all-digit prefix of the input already exceeds `u64::MAX`: the scan
/// stops there with `Overflow`.
pub open spec fn stops_overflow(d: Seq<u8>) -> bool {
    exists|k: int|
        0 < k <= d.len() && is_digits(#[trigger] d.take(k)) && dec_value(d.take(k)) > u64::MAX
}

/// Growing a digit string never shrinks its value.
proof fn lemma_dec_value_extend(s: Seq<u8>, i: int)
    requires
        0 <= i <= s.len(),
        is_digits(s),
    ensures
        dec_value(s.take(i)) <= dec_value(s),
    decreases s.len() - i,
{
    if i < s.len() {
        lemma_dec_value_extend(s, i + 1);
        assert(s.take(i + 1).drop_last() =~= s.take(i));
        assert(dec_value(s.take(i)) <= dec_value(s.take(i + 1)));
    } else {
        assert(s.take(i) =~= s);
    }
}

/// How a decimal scan of the byte string `d` ends: a value exactly when `d`
/// is non-empty, all digits, and denotes a number that fits in a `u64`, and
/// otherwise the error for the first problem the scan meets.
pub open spec fn parses_as(d: Seq<u8>, r: Result<u64, ParseError>) -> bool {
    match r {
        Ok(v) => d.len() > 0 && is_digits(d) && dec_value(d) <= u64::MAX && v == dec_value(d),
        Err(e) => {
            &&& (e == ParseError::Empty <==> d.len() == 0)
            &&& e == ParseError::InvalidDigit ==> stops_invalid(d)
            &&& e == ParseError::Overflow ==> stops_overflow(d)
            &&& !(d.len() > 0 && is_digits(d) && dec_value(d) <= u64::MAX)
        },
    }
}

/// Parse the digit bytes `s[from..]` as a decimal `u64`.
pub(crate) fn parse_digits(s: &[u8], from: usize) -> (r: Result<u64, ParseError>)
    requires
        from <= s@.len(),
    ensures
        parses_as(s@.skip(from as int), r),
{
    let ghost d = s@.skip(from as int);
    if from == s.len() {
        return Err(ParseError::Empty);
    }
    let mut acc: u64 = 0;
    let mut i: usize = from;
    while i < s.len()
        invariant
            from <= i <= s@.len(),
            d == s@.skip(from as int),
            is_digits(d.take(i - from)),
            acc == dec_value(d.take(i - from)),
        decreases s@.len() - i,
    {
        let c = s[i];
        if c < 48 || c > 57 {
            proof {
                let j = i - from;
                assert(d[j] == c);
                assert(!(48 <= d[j] <= 57) && is_digits(d.take(j)) && dec_value(d.take(j))
                    <= u64::MAX);
            }
            return Err(ParseError::InvalidDigit);
        }
        let digit: u64 = (c - 48) as u64;
        assert(d.take(i - from + 1).drop_last() =~= d.take(i - from));
        if acc > (u64::MAX - digit) / 10 {
            proof {
                let k = i - from + 1;
                assert(forall|m: int| 0 <= m < k ==> 48 <= #[trigger] d.take(k)[m] <= 57);
                assert(dec_value(d.take(k)) == acc * 10 + digit);
                assert(acc * 10 + digit > u64::MAX) by (nonlinear_arith)
                    requires
                        acc > (u64::MAX - digit) / 10,
                        digit <= 9,
                ;
                assert(0 < k <= d.len() && is_digits(d.take(k)) && dec_value(d.take(k))
                    > u64::MAX);
                if is_digits(d) {
                    lemma_dec_value_extend(d, k);
                }
            }
            return Err(ParseError::Overflow);
        }
        proof {
            assert(acc * 10 + digit <= u64::MAX) by (nonlinear_arith)
                requires
                    acc <= (u64::MAX - digit) / 10,
                    digit <= 9,
            ;
        }
        acc = acc * 10 + digit;
        i += 1;
    }
    proof {
        assert(d.take(i - from) =~= d);
    }
    Ok(acc)
}

/// The digit string of `cstr` up to its first NUL, with an optional leading
/// `+`, read as a decimal `u64`.
pub fn cstr_to_u64(cstr: &[u8]) -> (r: Result<u64, ParseError>)
    ensures
        ({
            let p = nul_prefix(cstr@);
            let d = if p.len() > 0 && p[0] == 43 {
                p.skip(1)
            } else {
                p
            };
            parses_as(d, r)
        }),
{
    let p = cstr_to_str(cstr);
    let from: usize = if p.len() > 0 && p[0] == 43 {
        1
    } else {
        0
    };
    let r = parse_digits(p.as_slice(), from);
    proof {
        if from == 0 {
            assert(p@.skip(0) =~= p@);
        }
    }
    r
}

/// Append the decimal digits of `n` to `out`, most significant first.
pub fn push_decimal(out: &mut Vec<u8>, n: u64)
    ensures
        final(out)@ == old(out)@ + dec_digits(n as nat),
    decreases n,
{
    if n < 10 {
        out.push((48 + n) as u8);
    } else {
        push_decimal(out, n / 10);
        out.push((48 + n % 10) as u8);
    }
}

/// The decimal digit string of `num`, as bytes.
pub fn u64_to_str(num: u64) -> (r: Vec<u8>)
    ensures
        r@ == dec_digits(num as nat),
        r@.len() >= 1,
{
    let mut out: Vec<u8> = Vec::new();
    push_decimal(&mut out, num);
    proof {
        lemma_dec_digits_len(num as nat);
    }
    out
}

/// A digit string is never empty.
pub proof fn lemma_dec_digits_len(n: nat)
    ensures
        dec_digits(n).len() >= 1,
    decreases n,
{
    if n >= 10 {
        lemma_dec_digits_len(n / 10);
    }
}

/// Formatting a number and reading the digits back yields the number: the
/// decimal conversions invert each other.
pub proof fn lemma_decimal_round_trip(n: nat)
    ensures
        is_digits(dec_digits(n)),
        dec_value(dec_digits(n)) == n,
    decreases n,
{
    if n < 10 {
        assert(dec_digits(n).drop_last() =~= Seq::<u8>::empty());
        assert(dec_value(Seq::<u8>::empty()) == 0);
        assert(dec_digits(n).last() == (48 + n) as u8);
        assert(dec_value(dec_digits(n)) == (48 + n) as u8 - 48);
    } else {
        lemma_decimal_round_trip(n / 10);
        assert(dec_digits(n).drop_last() =~= dec_digits(n / 10));
        assert(dec_digits(n).last() == (48 + n % 10) as u8);
        assert(dec_value(dec_digits(n)) == (n / 10) * 10 + n % 10);
        assert((n / 10) * 10 + n % 10 == n) by (nonlinear_arith);
        assert(forall|i: int|
            0 <= i < dec_digits(n).len() ==> 48 <= #[trigger] dec_digits(n)[i] <= 57);
    }
}

} // verus!
