//! Decimal text, the wire form of every numeric value: formatting an
//! unsigned or signed integer as ASCII digits, parsing digits back, and
//! trimming the ASCII whitespace the parser tolerates around them.

use vstd::prelude::*;

verus! {

/// Whether `b` is an ASCII decimal digit.
pub open spec fn is_dec_digit(b: u8) -> bool {
    48 <= b <= 57
}

/// Whether every byte of `s` is an ASCII decimal digit.
pub open spec fn all_dec_digits(s: Seq<u8>) -> bool {
    forall|i: int| 0 <= i < s.len() ==> is_dec_digit(#[trigger] s[i])
}

/// The canonical decimal digits of `n`, most significant first, with no
/// leading zero except for `n == 0` itself.
pub open spec fn spec_dec_digits(n: nat) -> Seq<u8>
    decreases n,
{
    if n < 10 {
        seq![(48 + n) as u8]
    } else {
        spec_dec_digits(n / 10).push((48 + n % 10) as u8)
    }
}

/// The number a digit string denotes.
pub open spec fn spec_dec_val(s: Seq<u8>) -> nat
    recommends
        all_dec_digits(s),
    decreases s.len(),
{
    if s.len() == 0 {
        0
    } else {
        spec_dec_val(s.drop_last()) * 10 + (if s.last() >= 48 {
            (s.last() - 48) as nat
        } else {
            0
        })
    }
}

/// The canonical digits of `n` are digits, and denote `n`.
pub proof fn lemma_dec_digits_val(n: nat)
    ensures
        all_dec_digits(spec_dec_digits(n)),
        spec_dec_digits(n).len() >= 1,
        spec_dec_val(spec_dec_digits(n)) == n,
    decreases n,
{
    if n < 10 {
        let s = spec_dec_digits(n);
        assert(s =~= seq![(48 + n) as u8]);
        assert(s.drop_last() =~= Seq::<u8>::empty());
        assert((48 + n) as u8 == 48 + n);
        assert(spec_dec_val(s) == spec_dec_val(s.drop_last()) * 10 + (s.last() - 48) as nat);
        assert(spec_dec_val(Seq::<u8>::empty()) == 0);
    } else {
        lemma_dec_digits_val(n / 10);
        let s = spec_dec_digits(n);
        assert(s.drop_last() =~= spec_dec_digits(n / 10));
        assert(n % 10 < 10) by {
            vstd::arithmetic::div_mod::lemma_mod_division_less_than_divisor(n as int, 10);
        }
        assert(s.last() == (48 + n % 10) as u8);
        assert((48 + n % 10) as u8 - 48 == n % 10);
        assert(spec_dec_val(s) == spec_dec_val(spec_dec_digits(n / 10)) * 10 + n % 10);
        vstd::arithmetic::div_mod::lemma_fundamental_div_mod(n as int, 10);
    }
}

/// A longer digit prefix never denotes a smaller number.
pub proof fn lemma_dec_val_prefix_mono(s: Seq<u8>, i: int, j: int)
    requires
        0 <= i <= j <= s.len(),
    ensures
        spec_dec_val(s.subrange(0, i)) <= spec_dec_val(s.subrange(0, j)),
    decreases j - i,
{
    if i < j {
        lemma_dec_val_prefix_mono(s, i, j - 1);
        let p = s.subrange(0, j);
        assert(p.drop_last() =~= s.subrange(0, j - 1));
        assert(spec_dec_val(s.subrange(0, j - 1)) * 10 >= spec_dec_val(s.subrange(0, j - 1)));
    }
}

/// Append the decimal digits of `n` to `out`.
pub fn push_dec_u64(out: &mut Vec<u8>, n: u64)
    ensures
        final(out)@ == old(out)@ + spec_dec_digits(n as nat),
    decreases n,
{
    if n < 10 {
        out.push(48 + n as u8);
        proof {
            assert(out@ =~= old(out)@ + spec_dec_digits(n as nat));
        }
    } else {
        push_dec_u64(out, n / 10);
        out.push(48 + (n % 10) as u8);
        proof {
            assert(out@ =~= old(out)@ + spec_dec_digits(n as nat));
        }
    }
}

/// The decimal digits of `n` as fresh bytes.
pub fn u64_to_dec(n: u64) -> (r: Vec<u8>)
    ensures
        r@ == spec_dec_digits(n as nat),
{
    let mut out: Vec<u8> = Vec::new();
    push_dec_u64(&mut out, n);
    proof {
        assert(out@ =~= spec_dec_digits(n as nat));
    }
    out
}

/// The wire text of a signed number: a minus sign before the magnitude's
/// digits when it is negative.
pub open spec fn spec_dec_digits_signed(n: int) -> Seq<u8> {
    if n < 0 {
        seq![45u8] + spec_dec_digits((-n) as nat)
    } else {
        spec_dec_digits(n as nat)
    }
}

/// Append the decimal text of the signed number `n` to `out`.
pub fn push_dec_i64(out: &mut Vec<u8>, n: i64)
    ensures
        final(out)@ == old(out)@ + spec_dec_digits_signed(n as int),
{
    if n >= 0 {
        push_dec_u64(out, n as u64);
    } else {
        out.push(45);
        let mag: u64 = if n == i64::MIN {
            9223372036854775808u64
        } else {
            (-n) as u64
        };
        push_dec_u64(out, mag);
        proof {
            assert(out@ =~= old(out)@ + spec_dec_digits_signed(n as int));
        }
    }
}

/// Parse the digit run `s[start..]` as an unsigned 64-bit number:
/// `None` when it is empty, holds a non-digit, or overflows.
pub fn parse_dec_u64(s: &[u8], start: usize) -> (r: Option<u64>)
    requires
        start <= s@.len(),
    ensures
        ({
            let digits = s@.subrange(start as int, s@.len() as int);
            match r {
                Some(v) => digits.len() > 0 && all_dec_digits(digits) && v == spec_dec_val(digits),
                None => digits.len() == 0 || !all_dec_digits(digits) || spec_dec_val(digits)
                    > u64::MAX,
            }
        }),
{
    let slen: usize = s.len();
    let ghost digits = s@.subrange(start as int, s@.len() as int);
    if start == slen {
        return None;
    }
    let mut acc: u64 = 0;
    let mut i: usize = start;
    while i < slen
        invariant
            start <= i <= slen,
            slen == s@.len(),
            all_dec_digits(s@.subrange(start as int, i as int)),
            acc == spec_dec_val(s@.subrange(start as int, i as int)),
            digits == s@.subrange(start as int, s@.len() as int),
        decreases slen - i,
    {
        let b = s[i];
        if b < 48 || b > 57 {
            proof {
                assert(digits[i - start] == b);
            }
            return None;
        }
        let d = b - 48;
        proof {
            assert(s@.subrange(start as int, i + 1).drop_last() =~= s@.subrange(
                start as int,
                i as int,
            ));
            assert(s@.subrange(start as int, i + 1).last() == b);
        }
        if acc > 1844674407370955161u64 || (acc == 1844674407370955161u64 && d > 5) {
            proof {
                assert(spec_dec_val(s@.subrange(start as int, i + 1)) == acc * 10 + d);
                assert(spec_dec_val(s@.subrange(start as int, i + 1)) > u64::MAX);
                lemma_dec_val_prefix_mono(
                    s@.subrange(start as int, s@.len() as int),
                    i + 1 - start,
                    s@.len() - start,
                );
                assert(digits.subrange(0, i + 1 - start) =~= s@.subrange(start as int, i + 1));
                assert(digits.subrange(0, digits.len() as int) =~= digits);
            }
            return None;
        }
        acc = acc * 10 + (d as u64);
        proof {
            assert(forall|k: int|
                0 <= k < i + 1 - start ==> is_dec_digit(
                    #[trigger] s@.subrange(start as int, i + 1)[k],
                ));
        }
        i = i + 1;
    }
    proof {
        assert(s@.subrange(start as int, slen as int) =~= digits);
    }
    Some(acc)
}

/// Whether `b` is one of the ASCII whitespace bytes the numeric parser
/// strips: space, tab, line feed, form feed, carriage return.
pub open spec fn is_ascii_ws(b: u8) -> bool {
    b == 32 || b == 9 || b == 10 || b == 12 || b == 13
}

/// How many whitespace bytes `s` begins with.
pub open spec fn ws_prefix_len(s: Seq<u8>) -> nat
    decreases s.len(),
{
    if s.len() > 0 && is_ascii_ws(s[0]) {
        1 + ws_prefix_len(s.drop_first())
    } else {
        0
    }
}

/// How many whitespace bytes `s` ends with.
pub open spec fn ws_suffix_len(s: Seq<u8>) -> nat
    decreases s.len(),
{
    if s.len() > 0 && is_ascii_ws(s.last()) {
        1 + ws_suffix_len(s.drop_last())
    } else {
        0
    }
}

/// `s` with leading and trailing ASCII whitespace removed.
pub open spec fn spec_trim(s: Seq<u8>) -> Seq<u8> {
    if ws_prefix_len(s) == s.len() {
        Seq::empty()
    } else {
        s.subrange(ws_prefix_len(s) as int, (s.len() - ws_suffix_len(s)) as int)
    }
}

proof fn lemma_ws_prefix_is_first_non_ws(s: Seq<u8>, k: int)
    requires
        0 <= k <= s.len(),
        forall|i: int| 0 <= i < k ==> is_ascii_ws(#[trigger] s[i]),
        k == s.len() || !is_ascii_ws(s[k]),
    ensures
        ws_prefix_len(s) == k,
    decreases s.len(),
{
    if s.len() > 0 && is_ascii_ws(s[0]) {
        lemma_ws_prefix_is_first_non_ws(s.drop_first(), k - 1);
    }
}

proof fn lemma_ws_suffix_is_last_non_ws(s: Seq<u8>, k: int)
    requires
        0 <= k <= s.len(),
        forall|i: int| k <= i < s.len() ==> is_ascii_ws(#[trigger] s[i]),
        k == 0 || !is_ascii_ws(s[k - 1]),
    ensures
        ws_suffix_len(s) == s.len() - k,
    decreases s.len(),
{
    if s.len() > 0 && is_ascii_ws(s.last()) {
        lemma_ws_suffix_is_last_non_ws(s.drop_last(), k);
    }
}

/// The bounds of `s` with its surrounding ASCII whitespace stripped:
/// the subrange `lo..hi` is exactly `spec_trim(s@)`.
pub fn trim_bounds(s: &[u8]) -> (r: (usize, usize))
    ensures
        r.0 <= r.1 <= s@.len(),
        s@.subrange(r.0 as int, r.1 as int) == spec_trim(s@),
{
    let slen: usize = s.len();
    let mut lo: usize = 0;
    while lo < slen && (s[lo] == 32 || s[lo] == 9 || s[lo] == 10 || s[lo] == 12 || s[lo] == 13)
        invariant
            lo <= slen,
            slen == s@.len(),
            forall|i: int| 0 <= i < lo ==> is_ascii_ws(#[trigger] s@[i]),
        decreases slen - lo,
    {
        lo = lo + 1;
    }
    if lo == slen {
        proof {
            lemma_ws_prefix_is_first_non_ws(s@, slen as int);
            assert(s@.subrange(slen as int, slen as int) =~= spec_trim(s@));
        }
        return (slen, slen);
    }
    proof {
        lemma_ws_prefix_is_first_non_ws(s@, lo as int);
    }
    let mut hi: usize = slen;
    while hi > lo && (s[hi - 1] == 32 || s[hi - 1] == 9 || s[hi - 1] == 10 || s[hi - 1] == 12 || s[
        hi - 1] == 13)
        invariant
            lo <= hi <= slen,
            slen == s@.len(),
            forall|i: int| hi <= i < slen ==> is_ascii_ws(#[trigger] s@[i]),
        decreases hi,
    {
        hi = hi - 1;
    }
    proof {
        assert(!is_ascii_ws(s@[lo as int]));
        assert(hi > lo);
        lemma_ws_suffix_is_last_non_ws(s@, hi as int);
    }
    (lo, hi)
}

/// The decimal meaning, if any, of trimmed text as an unsigned number:
/// an optional plus sign, then at least one digit, denoting a value
/// of at most `bound`.
pub open spec fn spec_parse_unsigned(t: Seq<u8>, bound: nat) -> Option<nat> {
    let digits = if t.len() > 0 && t[0] == 43 {
        t.subrange(1, t.len() as int)
    } else {
        t
    };
    if digits.len() > 0 && all_dec_digits(digits) && spec_dec_val(digits) <= bound {
        Some(spec_dec_val(digits))
    } else {
        None
    }
}

/// The decimal meaning, if any, of trimmed text as a signed number: an
/// optional plus or minus sign, then at least one digit, denoting a
/// value within `[lo, hi]`.
pub open spec fn spec_parse_signed(t: Seq<u8>, lo: int, hi: int) -> Option<int> {
    let negative = t.len() > 0 && t[0] == 45;
    let digits = if t.len() > 0 && (t[0] == 43 || t[0] == 45) {
        t.subrange(1, t.len() as int)
    } else {
        t
    };
    if digits.len() > 0 && all_dec_digits(digits) {
        let magnitude = spec_dec_val(digits) as int;
        let value = if negative {
            -magnitude
        } else {
            magnitude
        };
        if lo <= value <= hi {
            Some(value)
        } else {
            None
        }
    } else {
        None
    }
}

/// Parse `s[lo..hi]` as an unsigned decimal number no larger than
/// `bound`, after the sign and digit rules of [`spec_parse_unsigned`].
pub fn parse_unsigned(s: &[u8], lo: usize, hi: usize, bound: u64) -> (r: Option<u64>)
    requires
        lo <= hi <= s@.len(),
    ensures
        ({
            let t = s@.subrange(lo as int, hi as int);
            match r {
                Some(v) => spec_parse_unsigned(t, bound as nat) == Some(v as nat),
                None => spec_parse_unsigned(t, bound as nat) is None,
            }
        }),
{
    let ghost t = s@.subrange(lo as int, hi as int);
    let start: usize = if lo < hi && s[lo] == 43 {
        lo + 1
    } else {
        lo
    };
    proof {
        if lo < hi && s@[lo as int] == 43 {
            assert(t.subrange(1, t.len() as int) =~= s@.subrange(start as int, hi as int));
        } else {
            assert(t =~= s@.subrange(start as int, hi as int));
        }
    }
    let sub = vstd::slice::slice_subrange(s, start, hi);
    match parse_dec_u64(sub, 0) {
        Some(v) => {
            proof {
                assert(sub@.subrange(0, sub@.len() as int) =~= sub@);
            }
            if v <= bound {
                Some(v)
            } else {
                None
            }
        },
        None => {
            proof {
                assert(sub@.subrange(0, sub@.len() as int) =~= sub@);
            }
            None
        },
    }
}


/// Parse `s[lo..hi]` as a signed decimal number within `[min, max]`,
/// after the sign and digit rules of [`spec_parse_signed`].
pub fn parse_signed(s: &[u8], lo: usize, hi: usize, min: i64, max: i64) -> (r: Option<i64>)
    requires
        lo <= hi <= s@.len(),
        min < 0 < max,
    ensures
        ({
            let t = s@.subrange(lo as int, hi as int);
            match r {
                Some(v) => spec_parse_signed(t, min as int, max as int) == Some(v as int),
                None => spec_parse_signed(t, min as int, max as int) is None,
            }
        }),
{
    let ghost t = s@.subrange(lo as int, hi as int);
    let negative = lo < hi && s[lo] == 45;
    let start: usize = if lo < hi && (s[lo] == 43 || s[lo] == 45) {
        lo + 1
    } else {
        lo
    };
    proof {
        if lo < hi && (s@[lo as int] == 43 || s@[lo as int] == 45) {
            assert(t.subrange(1, t.len() as int) =~= s@.subrange(start as int, hi as int));
        } else {
            assert(t =~= s@.subrange(start as int, hi as int));
        }
    }
    let sub = vstd::slice::slice_subrange(s, start, hi);
    proof {
        assert(sub@.subrange(0, sub@.len() as int) =~= sub@);
    }
    match parse_dec_u64(sub, 0) {
        None => None,
        Some(mag) => {
            if negative {
                let min_mag: u64 = if min == i64::MIN {
                    9223372036854775808u64
                } else {
                    (-min) as u64
                };
                if mag <= min_mag {
                    let v: i64 = if mag == 9223372036854775808u64 {
                        i64::MIN
                    } else {
                        -(mag as i64)
                    };
                    Some(v)
                } else {
                    None
                }
            } else {
                if mag <= (max as u64) {
                    Some(mag as i64)
                } else {
                    None
                }
            }
        },
    }
}


/// Trimming does nothing to text that neither starts nor ends with
/// whitespace.
pub proof fn lemma_trim_no_ws(s: Seq<u8>)
    requires
        s.len() == 0 || (!is_ascii_ws(s[0]) && !is_ascii_ws(s.last())),
    ensures
        spec_trim(s) == s,
{
    if s.len() == 0 {
        assert(ws_prefix_len(s) == 0);
        assert(spec_trim(s) =~= s);
    } else {
        lemma_ws_prefix_is_first_non_ws(s, 0);
        lemma_ws_suffix_is_last_non_ws(s, s.len() as int);
        assert(spec_trim(s) =~= s);
    }
}

} // verus!
