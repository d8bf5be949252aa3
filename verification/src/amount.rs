//! Decimal amount text and its conversion to grains.
//!
//! A human-facing amount is a decimal literal such as `"3"`, `"3.5"` or
//! `".25"`, optionally signed. Converting it to grains multiplies the value
//! by `10^decimals` and truncates toward zero: the fractional digits beyond
//! the `decimals`-th are dropped, never rounded up. All bound checks in the
//! claim workflow happen on the resulting integer grain count.

use vstd::prelude::*;
use vstd::string::StrSliceExecFns;
use vstd::string::StringExecFns;

use crate::Grains;

verus! {

/// A character is an ASCII decimal digit.
pub open spec fn is_digit(c: char) -> bool {
    '0' as u32 <= c as u32 && c as u32 <= '9' as u32
}

/// Numeric value of one ASCII digit.
pub open spec fn digit_val(c: char) -> nat
    recommends
        is_digit(c),
{
    (c as u32 - '0' as u32) as nat
}

/// Every character of the sequence is an ASCII decimal digit.
pub open spec fn all_digits(s: Seq<char>) -> bool {
    forall|i: int| 0 <= i < s.len() ==> is_digit(#[trigger] s[i])
}

/// Value of a digit sequence read in base ten, most significant first.
/// The empty sequence has value zero, so leading zeroes are harmless.
pub open spec fn digits_val(s: Seq<char>) -> nat
    decreases s.len(),
{
    if s.len() == 0 {
        0
    } else {
        digits_val(s.drop_last()) * 10 + digit_val(s.last())
    }
}

/// Ten to the `k`-th power.
pub open spec fn pow10(k: nat) -> nat
    decreases k,
{
    if k == 0 {
        1nat
    } else {
        10 * pow10((k - 1) as nat)
    }
}

/// Index of the first `'.'` in the sequence, or its length if there is none.
pub open spec fn dot_split(s: Seq<char>) -> int
    decreases s.len(),
{
    if s.len() == 0 {
        0
    } else if s[0] == '.' {
        0
    } else {
        1 + dot_split(s.skip(1))
    }
}

/// Digits before the decimal point (the whole sequence if there is none).
pub open spec fn int_part(s: Seq<char>) -> Seq<char> {
    s.take(dot_split(s))
}

/// Digits after the decimal point (empty if there is none).
pub open spec fn frac_part(s: Seq<char>) -> Seq<char> {
    if dot_split(s) == s.len() {
        Seq::empty()
    } else {
        s.skip(dot_split(s) + 1)
    }
}

/// An unsigned decimal literal: digits with at most one `'.'` between them,
/// and at least one digit overall (`"7"`, `"7."`, `".5"`, `"0.25"`).
pub open spec fn is_unsigned_decimal(s: Seq<char>) -> bool {
    &&& all_digits(int_part(s))
    &&& all_digits(frac_part(s))
    &&& int_part(s).len() + frac_part(s).len() >= 1
}

/// The literal starts with an explicit sign character.
pub open spec fn has_sign(s: Seq<char>) -> bool {
    s.len() > 0 && (s[0] == '-' || s[0] == '+')
}

/// The literal denotes a negative value.
pub open spec fn is_negative(s: Seq<char>) -> bool {
    s.len() > 0 && s[0] == '-'
}

/// The literal with any leading sign removed.
pub open spec fn body_of(s: Seq<char>) -> Seq<char> {
    if has_sign(s) {
        s.skip(1)
    } else {
        s
    }
}

/// A decimal literal: an unsigned decimal, optionally preceded by one sign.
pub open spec fn is_decimal(s: Seq<char>) -> bool {
    is_unsigned_decimal(body_of(s))
}

/// Grains contributed by the fractional digits: the first `k` of them,
/// scaled so that exactly `k` fractional places count. Digits beyond the
/// `k`-th are truncated away.
pub open spec fn frac_grains(f: Seq<char>, k: nat) -> nat {
    if f.len() <= k {
        digits_val(f) * pow10((k - f.len()) as nat)
    } else {
        digits_val(f.take(k as int))
    }
}

/// Grains denoted by an unsigned decimal literal with `k` decimal places:
/// the integer digits shifted up by `k` places plus the truncated
/// fractional contribution. This equals `floor(value * 10^k)`.
pub open spec fn unsigned_grains(s: Seq<char>, k: nat) -> nat {
    digits_val(int_part(s)) * pow10(k) + frac_grains(frac_part(s), k)
}

/// Grains denoted by a decimal literal. A negative value truncates toward
/// zero to zero grains, as the workflow's saturating conversion demands.
pub open spec fn decimal_grains(s: Seq<char>, k: nat) -> nat {
    if is_negative(s) {
        0
    } else {
        unsigned_grains(body_of(s), k)
    }
}

/// `dot_split` is exactly `p` when the first dot stands at `p` (or `p` is
/// the length and there is no dot at all).
pub proof fn lemma_dot_split_at(s: Seq<char>, p: int)
    requires
        0 <= p <= s.len(),
        forall|j: int| 0 <= j < p ==> s[j] != '.',
        p < s.len() ==> s[p] == '.',
    ensures
        dot_split(s) == p,
    decreases p,
{
    if p == 0 {
        if s.len() > 0 {
            assert(s[0] == '.');
        }
    } else {
        assert(s[0] != '.');
        assert(forall|j: int| 0 <= j < p - 1 ==> #[trigger] s.skip(1)[j] == s[j + 1]);
        lemma_dot_split_at(s.skip(1), p - 1);
    }
}

/// Appending a digit multiplies the value by ten and adds the digit.
pub proof fn lemma_digits_val_push(s: Seq<char>, c: char)
    ensures
        digits_val(s.push(c)) == digits_val(s) * 10 + digit_val(c),
{
    assert(s.push(c).drop_last() =~= s);
    assert(s.push(c).last() == c);
}

/// The value of a digit prefix never exceeds the value of a longer prefix.
pub proof fn lemma_digits_val_take_le(s: Seq<char>, i: int, j: int)
    requires
        0 <= i <= j <= s.len(),
    ensures
        digits_val(s.take(i)) <= digits_val(s.take(j)),
    decreases j - i,
{
    if i < j {
        lemma_digits_val_take_le(s, i, j - 1);
        assert(s.take(j).drop_last() =~= s.take(j - 1));
        assert(digits_val(s.take(j)) == digits_val(s.take(j - 1)) * 10 + digit_val(s.take(
            j,
        ).last()));
    }
}

/// Concatenating digit runs shifts the left run past the right one.
pub proof fn lemma_digits_val_append(a: Seq<char>, b: Seq<char>)
    ensures
        digits_val(a + b) == digits_val(a) * pow10(b.len()) + digits_val(b),
    decreases b.len(),
{
    if b.len() == 0 {
        assert(a + b =~= a);
        assert(pow10(b.len()) == 1);
        assert(digits_val(b) == 0);
        assert(digits_val(a) * 1 == digits_val(a));
    } else {
        let b0 = b.drop_last();
        lemma_digits_val_append(a, b0);
        assert((a + b).drop_last() =~= a + b0);
        assert((a + b).last() == b.last());
        assert(digits_val(a + b) == (digits_val(a) * pow10(b0.len()) + digits_val(b0)) * 10
            + digit_val(b.last()));
        assert(digits_val(a + b) == digits_val(a) * pow10(b.len()) + digits_val(b))
            by (nonlinear_arith)
            requires
                digits_val(a + b) == (digits_val(a) * pow10(b0.len()) + digits_val(b0)) * 10
                    + digit_val(b.last()),
                pow10(b.len()) == 10 * pow10(b0.len()),
                digits_val(b) == digits_val(b0) * 10 + digit_val(b.last()),
        ;
    }
}

/// Powers of ten are positive.
pub proof fn lemma_pow10_pos(k: nat)
    ensures
        pow10(k) >= 1,
    decreases k,
{
    if k > 0 {
        lemma_pow10_pos((k - 1) as nat);
    }
}

/// Powers of ten grow with the exponent.
pub proof fn lemma_pow10_mono(a: nat, b: nat)
    requires
        a <= b,
    ensures
        pow10(a) <= pow10(b),
    decreases b,
{
    if a < b {
        lemma_pow10_mono(a, (b - 1) as nat);
        lemma_pow10_pos((b - 1) as nat);
    }
}

/// Exponents add under multiplication of powers of ten.
pub proof fn lemma_pow10_adds(a: nat, b: nat)
    ensures
        pow10(a + b) == pow10(a) * pow10(b),
    decreases a,
{
    if a == 0 {
        assert(pow10(b) == 1 * pow10(b));
    } else {
        lemma_pow10_adds((a - 1) as nat, b);
        assert(pow10(a + b) == 10 * pow10((a - 1) as nat + b));
        assert(10 * (pow10((a - 1) as nat) * pow10(b)) == (10 * pow10((a - 1) as nat)) * pow10(
            b,
        )) by (nonlinear_arith);
    }
}

/// A run of `n` digits denotes a value below `10^n`.
pub proof fn lemma_digits_val_bound(s: Seq<char>)
    requires
        all_digits(s),
    ensures
        digits_val(s) < pow10(s.len()),
    decreases s.len(),
{
    if s.len() > 0 {
        let s0 = s.drop_last();
        assert(all_digits(s0));
        lemma_digits_val_bound(s0);
        assert(is_digit(s.last()));
        assert(digit_val(s.last()) <= 9);
        assert(digits_val(s0) * 10 <= (pow10(s0.len()) - 1) * 10) by (nonlinear_arith)
            requires
                digits_val(s0) <= pow10(s0.len()) - 1,
        ;
        assert(pow10(s.len()) == 10 * pow10(s0.len()));
    }
}

/// How many fractional digits actually count toward the grains: all of
/// them, or the first `k` when there are more.
pub open spec fn used_frac(s: Seq<char>, k: nat) -> nat {
    if frac_part(s).len() <= k {
        frac_part(s).len()
    } else {
        k
    }
}

/// The significant digits of a decimal literal: the integer digits
/// followed by the fractional digits that count.
pub open spec fn sig_digits(s: Seq<char>, k: nat) -> Seq<char> {
    int_part(s) + frac_part(s).take(used_frac(s, k) as int)
}

/// The grains of an unsigned decimal are the value of its significant
/// digits, shifted up by whatever fractional places remain unused.
pub proof fn lemma_unsigned_grains_digits(s: Seq<char>, k: nat)
    ensures
        unsigned_grains(s, k) == digits_val(sig_digits(s, k)) * pow10((k - used_frac(s, k)) as nat),
{
    let i = int_part(s);
    let f = frac_part(s);
    if f.len() <= k {
        assert(f.take(f.len() as int) =~= f);
        lemma_digits_val_append(i, f);
        let m = (k - f.len()) as nat;
        lemma_pow10_adds(f.len(), m);
        assert((digits_val(i) * pow10(f.len()) + digits_val(f)) * pow10(m) == digits_val(i) * (
        pow10(f.len()) * pow10(m)) + digits_val(f) * pow10(m)) by (nonlinear_arith);
    } else {
        lemma_digits_val_append(i, f.take(k as int));
        assert(f.take(k as int).len() == k);
        let d = digits_val(i + f.take(k as int));
        assert(d * pow10(0) == d * 1);
        assert(unsigned_grains(s, k) == digits_val(i) * pow10(k) + digits_val(f.take(k as int)));
    }
}

/// Once a prefix of the significant digits is already too large for a
/// `u64`, the whole grain count is too.
pub proof fn lemma_prefix_overflow(s: Seq<char>, k: nat, q: int)
    requires
        0 <= q <= sig_digits(s, k).len(),
        digits_val(sig_digits(s, k).take(q)) > u64::MAX,
    ensures
        unsigned_grains(s, k) > u64::MAX,
{
    let d = sig_digits(s, k);
    lemma_digits_val_take_le(d, q, d.len() as int);
    assert(d.take(d.len() as int) =~= d);
    lemma_unsigned_grains_digits(s, k);
    lemma_pow10_pos((k - used_frac(s, k)) as nat);
    assert(digits_val(d) * pow10((k - used_frac(s, k)) as nat) >= digits_val(d))
        by (nonlinear_arith)
        requires
            pow10((k - used_frac(s, k)) as nat) >= 1,
    ;
}

/// Numeric value of a digit character, or `None` for any other character.
fn digit_of(c: char) -> (r: Option<u64>)
    ensures
        r is Some <==> is_digit(c),
        r matches Some(d) ==> d == digit_val(c),
{
    let v = c as u32;
    if 48 <= v && v <= 57 {
        Some((v - 48) as u64)
    } else {
        None
    }
}

/// `10^e` as a `u64`, or `None` when it does not fit.
fn pow10_checked(e: u32) -> (r: Option<u64>)
    ensures
        r is Some <==> pow10(e as nat) <= u64::MAX,
        r matches Some(v) ==> v == pow10(e as nat),
{
    let mut acc: u64 = 1;
    let mut j: u32 = 0;
    while j < e
        invariant
            0 <= j <= e,
            acc == pow10(j as nat),
        decreases e - j,
    {
        match acc.checked_mul(10) {
            Some(x) => {
                acc = x;
                j = j + 1;
            },
            None => {
                proof {
                    assert(pow10((j + 1) as nat) == 10 * pow10(j as nat));
                    lemma_pow10_mono((j + 1) as nat, e as nat);
                }
                return None;
            },
        }
    }
    Some(acc)
}

/// Parses a decimal literal and converts it to grains with `decimals`
/// fractional places, truncating toward zero.
///
/// Returns the grain count, or `None` exactly when the text is not a
/// decimal literal or its grain count does not fit in a `u64`. A negative
/// literal is valid and truncates to zero grains.
#[verifier::loop_isolation(false)]
#[verifier::rlimit(100)]
pub fn grains_from_decimal(s: &str, decimals: u32) -> (r: Option<Grains>)
    ensures
        r is Some <==> is_decimal(s@) && decimal_grains(s@, decimals as nat) <= u64::MAX,
        r matches Some(g) ==> g == decimal_grains(s@, decimals as nat),
{
    let ghost k = decimals as nat;
    let n = s.unicode_len();
    let mut start: usize = 0;
    let mut neg = false;
    if n > 0 {
        let c0 = s.get_char(0);
        if c0 == '-' {
            neg = true;
            start = 1;
        } else if c0 == '+' {
            start = 1;
        }
    }
    let ghost body = body_of(s@);
    proof {
        assert(body =~= s@.skip(start as int));
        assert(neg == is_negative(s@));
        assert(forall|j: int| 0 <= j < body.len() ==> #[trigger] body[j] == s@[j + start]);
    }
    // Locate the first decimal point, if any.
    let mut dot: usize = n;
    let mut found = false;
    let mut i: usize = start;
    while i < n && !found
        invariant
            start <= i <= n,
            !found ==> dot == n,
            !found ==> forall|j: int| start <= j < i ==> s@[j] != '.',
            found ==> start <= dot < i && s@[dot as int] == '.',
            found ==> forall|j: int| start <= j < dot ==> s@[j] != '.',
        decreases n - i,
    {
        let c = s.get_char(i);
        if c == '.' {
            dot = i;
            found = true;
        }
        i = i + 1;
    }
    let ghost dotb = dot - start;
    proof {
        lemma_dot_split_at(body, dotb as int);
        assert(int_part(body) =~= body.take(dotb as int));
    }
    // Every other character must be a digit.
    let mut v: usize = start;
    while v < n
        invariant
            start <= v <= n,
            forall|j: int| start <= j < v && j != dot ==> is_digit(s@[j]),
        decreases n - v,
    {
        if v != dot {
            let c = s.get_char(v);
            if digit_of(c).is_none() {
                proof {
                    if v < dot {
                        assert(int_part(body)[v - start] == s@[v as int]);
                        assert(!all_digits(int_part(body)));
                    } else {
                        assert(frac_part(body)[v - dot - 1] == s@[v as int]);
                        assert(!all_digits(frac_part(body)));
                    }
                }
                return None;
            }
        }
        v = v + 1;
    }
    // At least one digit must be present.
    let digit_count: usize = if found {
        n - start - 1
    } else {
        n - start
    };
    proof {
        assert forall|p: int| 0 <= p < int_part(body).len() implies is_digit(
            #[trigger] int_part(body)[p],
        ) by {
            assert(int_part(body)[p] == s@[p + start]);
        }
        assert forall|p: int| 0 <= p < frac_part(body).len() implies is_digit(
            #[trigger] frac_part(body)[p],
        ) by {
            assert(frac_part(body)[p] == s@[p + dot + 1]);
        }
        assert(int_part(body).len() + frac_part(body).len() == digit_count);
    }
    if digit_count == 0 {
        return None;
    }
    assert(is_decimal(s@));
    if neg {
        return Some(0);
    }
    // Accumulate the significant digits: integer digits first.
    let ghost sig = sig_digits(body, k);
    let mut acc: u64 = 0;
    let mut p: usize = start;
    while p < dot
        invariant
            start <= p <= dot,
            acc == digits_val(sig.take(p - start)),
        decreases dot - p,
    {
        proof {
            assert(sig.take(p + 1 - start) =~= sig.take(p - start).push(s@[p as int]));
            lemma_digits_val_push(sig.take(p - start), s@[p as int]);
        }
        let c = s.get_char(p);
        let d = match digit_of(c) {
            Some(d) => d,
            None => {
                return None;  // unreachable: every non-dot character is a digit
            },
        };
        let acc10 = match acc.checked_mul(10) {
            Some(x) => x,
            None => {
                proof {
                    lemma_prefix_overflow(body, k, p + 1 - start);
                }
                return None;
            },
        };
        acc = match acc10.checked_add(d) {
            Some(x) => x,
            None => {
                proof {
                    lemma_prefix_overflow(body, k, p + 1 - start);
                }
                return None;
            },
        };
        p = p + 1;
    }
    // Then the fractional digits that count: the first `decimals` of them.
    let frac_len: usize = if found {
        n - dot - 1
    } else {
        0
    };
    let dlim: usize = decimals as usize;
    let mut used: usize = 0;
    while used < frac_len && used < dlim
        invariant
            0 <= used <= frac_len,
            used <= dlim,
            acc == digits_val(sig.take(dotb + used)),
        decreases frac_len - used,
    {
        let ghost q = dotb + used;
        proof {
            assert(sig[q as int] == frac_part(body)[used as int]);
            assert(frac_part(body)[used as int] == s@[dot + 1 + used]);
            assert(sig.take(q + 1) =~= sig.take(q).push(s@[dot + 1 + used]));
            lemma_digits_val_push(sig.take(q), s@[dot + 1 + used]);
        }
        let c = s.get_char(dot + 1 + used);
        let d = match digit_of(c) {
            Some(d) => d,
            None => {
                return None;  // unreachable: every non-dot character is a digit
            },
        };
        let acc10 = match acc.checked_mul(10) {
            Some(x) => x,
            None => {
                proof {
                    lemma_prefix_overflow(body, k, q + 1);
                }
                return None;
            },
        };
        acc = match acc10.checked_add(d) {
            Some(x) => x,
            None => {
                proof {
                    lemma_prefix_overflow(body, k, q + 1);
                }
                return None;
            },
        };
        used = used + 1;
    }
    proof {
        assert(used == used_frac(body, k));
        assert(sig.take(dotb + used) =~= sig);
        lemma_unsigned_grains_digits(body, k);
    }
    // Shift up by the fractional places that went unused.
    if acc == 0 {
        proof {
            assert(0 * pow10((k - used_frac(body, k)) as nat) == 0) by (nonlinear_arith);
        }
        return Some(0);
    }
    let shift: u32 = decimals - (used as u32);
    let mult = match pow10_checked(shift) {
        Some(x) => x,
        None => {
            proof {
                lemma_pow10_pos((k - used_frac(body, k)) as nat);
                assert(digits_val(sig) * pow10((k - used_frac(body, k)) as nat) >= 1 * pow10(
                    (k - used_frac(body, k)) as nat,
                )) by (nonlinear_arith)
                    requires
                        digits_val(sig) >= 1,
                ;
            }
            return None;
        },
    };
    match acc.checked_mul(mult) {
        Some(g) => Some(g),
        None => None,
    }
}

/// Value of a run of digit values taken least significant first.
pub open spec fn lsf_val(s: Seq<u64>) -> nat
    decreases s.len(),
{
    if s.len() == 0 {
        0
    } else {
        (s[0] + 10 * lsf_val(s.skip(1))) as nat
    }
}

/// Appending a digit to a least-significant-first run adds it at the top.
pub proof fn lemma_lsf_push(s: Seq<u64>, d: u64)
    ensures
        lsf_val(s.push(d)) == lsf_val(s) + d * pow10(s.len()),
    decreases s.len(),
{
    if s.len() == 0 {
        assert(s.push(d).skip(1) =~= Seq::<u64>::empty());
        assert(s.push(d)[0] == d);
        assert(lsf_val(s.push(d).skip(1)) == 0);
        assert(d * pow10(0) == d * 1);
    } else {
        assert(s.push(d)[0] == s[0]);
        assert(s.push(d).skip(1) =~= s.skip(1).push(d));
        lemma_lsf_push(s.skip(1), d);
        assert(10 * (lsf_val(s.skip(1)) + d * pow10(s.skip(1).len())) == 10 * lsf_val(s.skip(1))
            + d * (10 * pow10(s.skip(1).len()))) by (nonlinear_arith);
        assert(pow10(s.len()) == 10 * pow10(s.skip(1).len()));
    }
}

/// One digit value as text.
fn digit_str_of(d: u64) -> (r: &'static str)
    requires
        d < 10,
    ensures
        r@.len() == 1,
        is_digit(r@[0]),
        digit_val(r@[0]) == d,
{
    match d {
        0 => {
            proof {
                reveal_strlit("0");
            }
            "0"
        },
        1 => {
            proof {
                reveal_strlit("1");
            }
            "1"
        },
        2 => {
            proof {
                reveal_strlit("2");
            }
            "2"
        },
        3 => {
            proof {
                reveal_strlit("3");
            }
            "3"
        },
        4 => {
            proof {
                reveal_strlit("4");
            }
            "4"
        },
        5 => {
            proof {
                reveal_strlit("5");
            }
            "5"
        },
        6 => {
            proof {
                reveal_strlit("6");
            }
            "6"
        },
        7 => {
            proof {
                reveal_strlit("7");
            }
            "7"
        },
        8 => {
            proof {
                reveal_strlit("8");
            }
            "8"
        },
        _ => {
            proof {
                reveal_strlit("9");
            }
            "9"
        },
    }
}

/// Renders a grain count as the decimal literal it stands for, with
/// exactly `decimals` fractional places: the inverse of
/// `grains_from_decimal`. Parsing the result with the same `decimals`
/// gives the grain count back unchanged — the round trip loses nothing.
#[verifier::loop_isolation(false)]
pub fn decimal_text_of_grains(grains: Grains, decimals: u32) -> (r: String)
    ensures
        is_decimal(r@),
        decimal_grains(r@, decimals as nat) == grains,
{
    // Extract the digit values, least significant first.
    let mut v: Vec<u64> = Vec::new();
    let mut x: u64 = grains;
    proof {
        assert(v@ =~= Seq::<u64>::empty());
        assert(lsf_val(v@) == 0);
        assert(x * pow10(0) == x * 1);
    }
    while x >= 10
        invariant
            lsf_val(v@) + x * pow10(v@.len()) == grains,
            forall|j: int| 0 <= j < v@.len() ==> #[trigger] v@[j] < 10,
        decreases x,
    {
        proof {
            lemma_lsf_push(v@, x % 10);
            assert((x % 10) + 10 * (x / 10) == x);
            assert((x % 10) * pow10(v@.len()) + (x / 10) * (10 * pow10(v@.len())) == x * pow10(
                v@.len(),
            )) by (nonlinear_arith)
                requires
                    (x % 10) + 10 * (x / 10) == x,
            ;
        }
        v.push(x % 10);
        x = x / 10;
    }
    proof {
        lemma_lsf_push(v@, x);
    }
    v.push(x);
    // Write them out most significant first.
    let dlen: usize = v.len();
    let mut digits = String::new();
    let mut i: usize = dlen;
    while i > 0
        invariant
            0 <= i <= dlen,
            all_digits(digits@),
            digits@.len() == dlen - i,
            digits_val(digits@) == lsf_val(v@.skip(i as int)),
        decreases i,
    {
        let d = digit_str_of(v[i - 1]);
        proof {
            assert(v@.skip(i as int - 1).skip(1) =~= v@.skip(i as int));
            lemma_digits_val_push(digits@, d@[0]);
            assert(digits@ + d@ =~= digits@.push(d@[0]));
        }
        digits.append(d);
        i = i - 1;
    }
    proof {
        assert(v@.skip(0) =~= v@);
    }
    let dlim: usize = decimals as usize;
    if dlim == 0 {
        proof {
            lemma_all_digits_text(digits@);
        }
        return digits;
    }
    if dlen > dlim {
        // Enough digits for a whole part: split at the decimal point.
        let split: usize = dlen - dlim;
        let head = digits.as_str().substring_char(0, split);
        let tail = digits.as_str().substring_char(split, dlen);
        let mut out = String::from_str(head);
        out.append(".");
        out.append(tail);
        proof {
            reveal_strlit(".");
            assert(out@ =~= head@ + seq!['.'] + tail@);
            assert(head@ + tail@ =~= digits@);
            assert forall|j: int| 0 <= j < head@.len() implies is_digit(#[trigger] head@[j]) by {
                assert(head@[j] == digits@[j]);
            }
            assert forall|j: int| 0 <= j < tail@.len() implies is_digit(#[trigger] tail@[j]) by {
                assert(tail@[j] == digits@[j + split]);
            }
            lemma_assembled_text(out@, head@, tail@, decimals as nat);
            lemma_digits_val_append(head@, tail@);
        }
        out
    } else {
        // Too few digits: everything is fractional, zero-padded in front.
        let mut out = String::from_str("0.");
        let mut z: usize = 0;
        proof {
            reveal_strlit("0.");
        }
        while z < dlim - dlen
            invariant
                0 <= z <= dlim - dlen,
                out@.len() == 2 + z,
                out@[0] == '0' && out@[1] == '.',
                all_digits(out@.skip(2)),
                digits_val(out@.skip(2)) == 0,
            decreases dlim - dlen - z,
        {
            let zs = digit_str_of(0);
            proof {
                assert((out@ + zs@).skip(2) =~= out@.skip(2).push(zs@[0]));
                lemma_digits_val_push(out@.skip(2), zs@[0]);
            }
            out.append(zs);
            z = z + 1;
        }
        proof {
            assert((out@ + digits@).skip(2) =~= out@.skip(2) + digits@);
            lemma_digits_val_append(out@.skip(2), digits@);
            assert(forall|j: int|
                0 <= j < (out@.skip(2) + digits@).len() ==> is_digit(
                    #[trigger] (out@.skip(2) + digits@)[j],
                ));
            assert(0 * pow10(digits@.len()) == 0) by (nonlinear_arith);
        }
        out.append(digits.as_str());
        proof {
            lemma_padded_text(out@, decimals as nat);
        }
        out
    }
}

/// A nonempty run of digits, read alone, is the decimal literal of its own
/// value: no fractional places, no point.
proof fn lemma_all_digits_text(s: Seq<char>)
    requires
        all_digits(s),
        s.len() >= 1,
    ensures
        is_decimal(s),
        decimal_grains(s, 0) == digits_val(s),
{
    assert(forall|j: int| 0 <= j < s.len() ==> s[j] != '.');
    lemma_dot_split_at(s, s.len() as int);
    assert(int_part(s) =~= s);
    assert(!has_sign(s));
    assert(frac_part(s) =~= Seq::<char>::empty());
    assert(unsigned_grains(s, 0) == digits_val(s) * 1 + 0 * 1);
}

/// Digits, a point, then exactly `k` more digits read as a decimal literal
/// with `k` places: the whole part shifted up, plus the fraction.
proof fn lemma_assembled_text(r: Seq<char>, head: Seq<char>, tail: Seq<char>, k: nat)
    requires
        r == head + seq!['.'] + tail,
        head.len() >= 1,
        all_digits(head),
        all_digits(tail),
        tail.len() == k,
        k >= 1,
    ensures
        is_decimal(r),
        decimal_grains(r, k) == digits_val(head) * pow10(k) + digits_val(tail),
{
    let hl = head.len() as int;
    assert(forall|j: int| 0 <= j < hl ==> r[j] == head[j] && r[j] != '.');
    assert(r[hl] == '.');
    lemma_dot_split_at(r, hl);
    assert(int_part(r) =~= head);
    assert(frac_part(r) =~= tail);
    assert(!has_sign(r));
    assert(frac_grains(tail, k) == digits_val(tail) * 1);
}

/// `"0."`, zero padding and digits read as a decimal literal with `k`
/// places: exactly the value of the fractional digits.
proof fn lemma_padded_text(r: Seq<char>, k: nat)
    requires
        r.len() == 2 + k,
        r[0] == '0',
        r[1] == '.',
        all_digits(r.skip(2)),
        k >= 1,
    ensures
        is_decimal(r),
        decimal_grains(r, k) == digits_val(r.skip(2)),
{
    lemma_dot_split_at(r, 1);
    assert(int_part(r) =~= seq!['0']);
    assert(frac_part(r) =~= r.skip(2));
    assert(seq!['0'].drop_last() =~= Seq::<char>::empty());
    assert(seq!['0'].last() == '0');
    assert(digit_val('0') == 0);
    assert(digits_val(seq!['0']) == digits_val(Seq::<char>::empty()) * 10 + 0);
    assert(!has_sign(r));
    assert(frac_grains(r.skip(2), k) == digits_val(r.skip(2)) * 1);
    assert(unsigned_grains(r, k) == 0 * pow10(k) + digits_val(r.skip(2)));
    assert(0 * pow10(k) == 0) by (nonlinear_arith);
}

/// The digits of an unsigned integer literal, with any leading `'+'`
/// removed.
pub open spec fn u64_body(s: Seq<char>) -> Seq<char> {
    if s.len() > 0 && s[0] == '+' {
        s.skip(1)
    } else {
        s
    }
}

/// The text is an unsigned integer literal whose value fits in a `u64`:
/// an optional `'+'` followed by one or more digits.
pub open spec fn is_u64_literal(s: Seq<char>) -> bool {
    u64_body(s).len() > 0 && all_digits(u64_body(s)) && digits_val(u64_body(s)) <= u64::MAX
}

/// Value of an unsigned integer literal.
pub open spec fn u64_literal_value(s: Seq<char>) -> nat {
    digits_val(u64_body(s))
}

/// Parses an unsigned integer literal: an optional `'+'` followed by one
/// or more digits, with a value that fits in a `u64`.
#[verifier::loop_isolation(false)]
pub fn parse_u64_literal(s: &str) -> (r: Option<u64>)
    ensures
        r is Some <==> is_u64_literal(s@),
        r matches Some(x) ==> x == u64_literal_value(s@),
{
    let n = s.unicode_len();
    let mut start: usize = 0;
    if n > 0 {
        if s.get_char(0) == '+' {
            start = 1;
        }
    }
    let ghost body = u64_body(s@);
    proof {
        assert(body =~= s@.skip(start as int));
        assert(forall|j: int| 0 <= j < body.len() ==> #[trigger] body[j] == s@[j + start]);
    }
    if start >= n {
        return None;
    }
    let mut acc: u64 = 0;
    let mut i: usize = start;
    while i < n
        invariant
            start <= i <= n,
            acc == digits_val(body.take(i - start)),
            forall|j: int| 0 <= j < i - start ==> is_digit(#[trigger] body[j]),
        decreases n - i,
    {
        proof {
            assert(body.take(i + 1 - start) =~= body.take(i - start).push(s@[i as int]));
            lemma_digits_val_push(body.take(i - start), s@[i as int]);
        }
        let c = s.get_char(i);
        let d = match digit_of(c) {
            Some(d) => d,
            None => {
                proof {
                    assert(!is_digit(body[i - start]));
                }
                return None;
            },
        };
        let acc10 = match acc.checked_mul(10) {
            Some(x) => x,
            None => {
                proof {
                    lemma_digits_val_take_le(body, i + 1 - start, body.len() as int);
                    assert(body.take(body.len() as int) =~= body);
                }
                return None;
            },
        };
        acc = match acc10.checked_add(d) {
            Some(x) => x,
            None => {
                proof {
                    lemma_digits_val_take_le(body, i + 1 - start, body.len() as int);
                    assert(body.take(body.len() as int) =~= body);
                }
                return None;
            },
        };
        i = i + 1;
    }
    proof {
        assert(body.take(body.len() as int) =~= body);
        assert(all_digits(body));
    }
    Some(acc)
}

/// Law: the conversion truncates. For an unsigned decimal with integer
/// digits of value `I` and `f` fractional digits of value `F`, the denoted
/// value is `d = (I * 10^f + F) / 10^f`, and the grain count `g` satisfies
/// `g * 10^f <= (I * 10^f + F) * 10^k < (g + 1) * 10^f`, i.e.
/// `g = floor(d * 10^k)` — never rounded up.
pub proof fn lemma_grains_is_floor(s: Seq<char>, k: nat)
    requires
        is_unsigned_decimal(s),
    ensures
        ({
            let g = unsigned_grains(s, k);
            let f = frac_part(s).len();
            let num = digits_val(int_part(s)) * pow10(f) + digits_val(frac_part(s));
            g * pow10(f) <= num * pow10(k) < (g + 1) * pow10(f)
        }),
{
    let i_val = digits_val(int_part(s));
    let fr = frac_part(s);
    let f = fr.len();
    let g = unsigned_grains(s, k);
    let num = i_val * pow10(f) + digits_val(fr);
    lemma_pow10_pos(f);
    lemma_pow10_pos(k);
    if f <= k {
        // Every fractional digit counts: the floor is exact.
        let m = (k - f) as nat;
        assert(g == i_val * pow10(k) + digits_val(fr) * pow10(m));
        lemma_pow10_adds(m, f);
        lemma_pow10_adds(f, (k - f) as nat);
        assert(g * pow10(f) == num * pow10(k)) by (nonlinear_arith)
            requires
                g == i_val * pow10(k) + digits_val(fr) * pow10(m),
                num == i_val * pow10(f) + digits_val(fr),
                pow10(k) == pow10(f) * pow10(m),
                pow10(m) * pow10(f) == pow10(m + f),
                m + f == k,
        ;
        assert(g * pow10(f) < (g + 1) * pow10(f)) by (nonlinear_arith)
            requires
                pow10(f) >= 1,
        ;
    } else {
        // Digits beyond the k-th fractional place are dropped.
        let hi = fr.take(k as int);
        let lo = fr.skip(k as int);
        assert(fr =~= hi + lo);
        lemma_digits_val_append(hi, lo);
        assert(all_digits(lo)) by {
            assert(forall|j: int| 0 <= j < lo.len() ==> lo[j] == fr[j + k]);
        }
        lemma_digits_val_bound(lo);
        assert(g == i_val * pow10(k) + digits_val(hi));
        assert(hi.len() == k);
        assert(lo.len() == f - k);
        let r = digits_val(lo);
        // num * 10^k = (I*10^f + T*10^(f-k) + R) * 10^k = g * 10^f + R * 10^k
        lemma_pow10_adds(k, (f - k) as nat);
        assert(num * pow10(k) == g * pow10(f) + r * pow10(k)) by (nonlinear_arith)
            requires
                num == i_val * pow10(f) + digits_val(hi) * pow10((f - k) as nat) + r,
                g == i_val * pow10(k) + digits_val(hi),
                pow10(f) == pow10(k) * pow10((f - k) as nat),
        ;
        assert(r * pow10(k) < pow10(f)) by (nonlinear_arith)
            requires
                r < pow10((f - k) as nat),
                pow10(f) == pow10(k) * pow10((f - k) as nat),
                pow10(k) >= 1,
        ;
        assert(g * pow10(f) <= num * pow10(k));
        assert(num * pow10(k) < g * pow10(f) + pow10(f));
        assert((g + 1) * pow10(f) == g * pow10(f) + pow10(f)) by (nonlinear_arith);
    }
}

} // verus!
