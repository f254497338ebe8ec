//! Exact parsing of the numeric fields of a delta: real-number prices held
//! as fixed-point ticks, and signed integer quantities.
use vstd::prelude::*;

verus! {

/// Number of decimal places a price keeps: one tick is 10^-8 of a unit.
pub const PRICE_DECIMALS: usize = 8;

pub open spec fn is_digit(c: char) -> bool {
    '0' <= c && c <= '9'
}

pub open spec fn digit_value(c: char) -> nat {
    ((c as int) - ('0' as int)) as nat
}

pub open spec fn all_digits(s: Seq<char>) -> bool {
    forall|i: int| 0 <= i < s.len() ==> is_digit(#[trigger] s[i])
}

/// A non-empty run of decimal digits.
pub open spec fn is_numeral(s: Seq<char>) -> bool {
    s.len() > 0 && all_digits(s)
}

/// The value of a run of decimal digits, most significant first.
pub open spec fn digits_value(s: Seq<char>) -> nat
    decreases s.len(),
{
    if s.len() == 0 {
        0
    } else {
        digits_value(s.drop_last()) * 10 + digit_value(s.last())
    }
}

/// A run of `n` zero digits.
pub open spec fn zeros(n: nat) -> Seq<char> {
    Seq::new(n, |i: int| '0')
}

/// The length of the run of digits that `s` starts with.
pub open spec fn digit_run(s: Seq<char>) -> nat
    decreases s.len(),
{
    if s.len() > 0 && is_digit(s[0]) {
        1 + digit_run(s.drop_first())
    } else {
        0
    }
}

/// Every character of `s` is the digit zero.
pub open spec fn all_zeros(s: Seq<char>) -> bool {
    forall|i: int| 0 <= i < s.len() ==> #[trigger] s[i] == '0'
}

/// 10 to the power `n`.
pub open spec fn pow10(n: nat) -> nat
    decreases n,
{
    if n == 0 {
        1
    } else {
        10 * pow10((n - 1) as nat)
    }
}

/// `s` without a leading `+`.
pub open spec fn strip_plus(s: Seq<char>) -> Seq<char> {
    if s.len() > 0 && s[0] == '+' {
        s.drop_first()
    } else {
        s
    }
}

/// `s` without a leading `+` or `-`.
pub open spec fn strip_sign(s: Seq<char>) -> Seq<char> {
    if s.len() > 0 && (s[0] == '+' || s[0] == '-') {
        s.drop_first()
    } else {
        s
    }
}

/// The exponent written after an `e` or `E`: an optional sign and a numeral.
pub open spec fn exponent_of(s: Seq<char>) -> Option<int> {
    if is_numeral(strip_sign(s)) {
        if s.len() > 0 && s[0] == '-' {
            Some(-digits_value(strip_sign(s)))
        } else {
            Some(digits_value(strip_sign(s)) as int)
        }
    } else {
        None
    }
}

/// The whole number of ticks `digits_value(d) * 10^k`, if it is one and fits
/// in u64: for a negative `k` the digits dropped must all be zero.
pub open spec fn ticks_of(d: Seq<char>, k: int) -> Option<u64> {
    if k >= 0 {
        let v = digits_value(d + zeros(k as nat));
        if v <= u64::MAX {
            Some(v as u64)
        } else {
            None
        }
    } else if -k <= d.len() {
        let cut = d.len() + k;
        if all_zeros(d.skip(cut)) && digits_value(d.take(cut)) <= u64::MAX {
            Some(digits_value(d.take(cut)) as u64)
        } else {
            None
        }
    } else if all_zeros(d) {
        Some(0)
    } else {
        None
    }
}

/// The ticks of the digits `d`, of which the last `n_frac` stood after the
/// point, followed by `rest`: nothing, or an exponent `(e|E)[+|-]X`.
pub open spec fn ticks_with_exponent(d: Seq<char>, n_frac: nat, rest: Seq<char>) -> Option<u64> {
    if rest.len() == 0 {
        ticks_of(d, PRICE_DECIMALS - n_frac)
    } else if rest[0] == 'e' || rest[0] == 'E' {
        match exponent_of(rest.drop_first()) {
            Some(x) => ticks_of(d, x + PRICE_DECIMALS - n_frac),
            None => None,
        }
    } else {
        None
    }
}

/// The price written by `s`, in ticks. `s` is a non-negative decimal
/// `[+]I[.F][(e|E)[+|-]X]`, where `I` and `F` are runs of digits, not both
/// empty, and `X` is a numeral; its value must be a whole number of ticks that
/// fits in u64. A value finer than a tick is refused, not rounded.
pub open spec fn price_of(s: Seq<char>) -> Option<u64> {
    let s1 = strip_plus(s);
    let n_int = digit_run(s1);
    let r1 = s1.skip(n_int as int);
    let r2 = if r1.len() > 0 && r1[0] == '.' {
        r1.drop_first()
    } else {
        r1
    };
    let n_frac = digit_run(r2);
    if n_int + n_frac == 0 {
        None
    } else {
        ticks_with_exponent(
            s1.take(n_int as int) + r2.take(n_frac as int),
            n_frac,
            r2.skip(n_frac as int),
        )
    }
}

/// The integer written by `s`: an optional sign followed by a numeral.
pub open spec fn signed_value(s: Seq<char>) -> Option<int> {
    if s.len() > 0 && s[0] == '-' && is_numeral(s.skip(1)) {
        Some(-digits_value(s.skip(1)))
    } else if s.len() > 0 && s[0] == '+' && is_numeral(s.skip(1)) {
        Some(digits_value(s.skip(1)) as int)
    } else if is_numeral(s) {
        Some(digits_value(s) as int)
    } else {
        None
    }
}

/// The quantity written by `s`, when it is an integer in the range of i64.
pub open spec fn quantity_of(s: Seq<char>) -> Option<i64> {
    match signed_value(s) {
        Some(v) => if i64::MIN <= v <= i64::MAX {
            Some(v as i64)
        } else {
            None
        },
        None => None,
    }
}

/// A longer run of digits is worth at least as much as any of its prefixes.
pub proof fn lemma_prefix_value_le(s: Seq<char>, i: int)
    requires
        0 <= i <= s.len(),
    ensures
        digits_value(s.take(i)) <= digits_value(s),
    decreases s.len(),
{
    if i < s.len() {
        lemma_prefix_value_le(s.drop_last(), i);
        assert(s.drop_last().take(i) =~= s.take(i));
    } else {
        assert(s.take(i) =~= s);
    }
}

/// Reads the digits `s[lo..hi]` as an unsigned number; `None` when one of
/// them is not a digit or the value exceeds u128.
fn parse_digits_wide(s: &Vec<char>, lo: usize, hi: usize) -> (r: Option<u128>)
    requires
        lo <= hi <= s@.len(),
    ensures
        r == (if all_digits(s@.subrange(lo as int, hi as int)) && digits_value(
            s@.subrange(lo as int, hi as int),
        ) <= u128::MAX {
            Some(digits_value(s@.subrange(lo as int, hi as int)) as u128)
        } else {
            None
        }),
{
    let ghost t = s@.subrange(lo as int, hi as int);
    let mut acc: u128 = 0;
    let mut i: usize = lo;
    while i < hi
        invariant
            lo <= i <= hi <= s@.len(),
            t == s@.subrange(lo as int, hi as int),
            all_digits(t.take(i - lo)),
            acc as nat == digits_value(t.take(i - lo)),
        decreases hi - i,
    {
        let c = s[i];
        assert(t.take(i - lo + 1).drop_last() =~= t.take(i - lo));
        if !('0' <= c && c <= '9') {
            assert(!is_digit(t[i - lo]));
            return None;
        }
        let d: u128 = (c as u32 - '0' as u32) as u128;
        assert(t.take(i - lo + 1).last() == c);
        if acc > (u128::MAX - d) / 10 {
            assert(digits_value(t.take(i - lo + 1)) > u128::MAX) by (nonlinear_arith)
                requires
                    acc > (u128::MAX - d) / 10,
                    digits_value(t.take(i - lo + 1)) == acc * 10 + d,
                    d <= 9,
            ;
            proof {
                lemma_prefix_value_le(t, i - lo + 1);
            }
            return None;
        }
        acc = acc * 10 + d;
        assert(all_digits(t.take(i - lo + 1)));
        i = i + 1;
    }
    assert(t.take(hi - lo) =~= t);
    Some(acc)
}

/// Reads the digits `s[lo..hi]` as an unsigned number; `None` when one of
/// them is not a digit or the value exceeds u64.
pub fn parse_digits(s: &Vec<char>, lo: usize, hi: usize) -> (r: Option<u64>)
    requires
        lo <= hi <= s@.len(),
    ensures
        r == (if all_digits(s@.subrange(lo as int, hi as int)) && digits_value(
            s@.subrange(lo as int, hi as int),
        ) <= u64::MAX {
            Some(digits_value(s@.subrange(lo as int, hi as int)) as u64)
        } else {
            None
        }),
{
    match parse_digits_wide(s, lo, hi) {
        Some(v) => if v <= u64::MAX as u128 {
            Some(v as u64)
        } else {
            None
        },
        None => None,
    }
}

/// Appends `s[lo..hi]` to `d`.
fn push_range(d: &mut Vec<char>, s: &Vec<char>, lo: usize, hi: usize)
    requires
        lo <= hi <= s@.len(),
    ensures
        final(d)@ == old(d)@ + s@.subrange(lo as int, hi as int),
{
    let mut i: usize = lo;
    while i < hi
        invariant
            lo <= i <= hi <= s@.len(),
            d@ == old(d)@ + s@.subrange(lo as int, i as int),
        decreases hi - i,
    {
        d.push(s[i]);
        assert(s@.subrange(lo as int, i + 1) =~= s@.subrange(lo as int, i as int).push(s@[i as int]));
        i = i + 1;
    }
}

/// Appends `n` zero digits to `d`.
fn push_zeros(d: &mut Vec<char>, n: usize)
    ensures
        final(d)@ == old(d)@ + zeros(n as nat),
{
    let mut i: usize = 0;
    while i < n
        invariant
            i <= n,
            d@ == old(d)@ + zeros(i as nat),
        decreases n - i,
    {
        d.push('0');
        assert(zeros((i + 1) as nat) =~= zeros(i as nat).push('0'));
        i = i + 1;
    }
}

/// `digit_run` measured by where the first non-digit stands.
pub proof fn lemma_digit_run(s: Seq<char>, n: int)
    requires
        0 <= n <= s.len(),
        all_digits(s.take(n)),
        n == s.len() || !is_digit(s[n]),
    ensures
        digit_run(s) == n,
    decreases n,
{
    if n > 0 {
        assert(is_digit(s.take(n)[0]));
        assert(s.drop_first().take(n - 1) =~= s.take(n).drop_first());
        lemma_digit_run(s.drop_first(), n - 1);
    }
}

/// A run of zeros is worth nothing.
pub proof fn lemma_zeros_worth_nothing(s: Seq<char>)
    requires
        all_zeros(s),
    ensures
        digits_value(s) == 0,
    decreases s.len(),
{
    if s.len() > 0 {
        lemma_zeros_worth_nothing(s.drop_last());
    }
}

/// Digits that are not all zero are worth at least one.
pub proof fn lemma_nonzero_worth_one(s: Seq<char>)
    requires
        all_digits(s),
        !all_zeros(s),
    ensures
        digits_value(s) >= 1,
    decreases s.len(),
{
    if s.last() == '0' {
        assert(!all_zeros(s.drop_last())) by {
            let i = choose|i: int| 0 <= i < s.len() && s[i] != '0';
            assert(s.drop_last()[i] == s[i]);
        }
        lemma_nonzero_worth_one(s.drop_last());
    }
}

/// Appending `n` zeros multiplies by 10^n.
pub proof fn lemma_append_zeros(s: Seq<char>, n: nat)
    ensures
        digits_value(s + zeros(n)) == digits_value(s) * pow10(n),
    decreases n,
{
    let a = digits_value(s);
    if n == 0 {
        assert(s + zeros(0) =~= s);
        assert(pow10(0) == 1);
        assert(a * 1 == a);
    } else {
        lemma_append_zeros(s, (n - 1) as nat);
        let t = s + zeros(n);
        assert(t.drop_last() =~= s + zeros((n - 1) as nat));
        assert(t.last() == '0');
        assert(digit_value('0') == 0);
        assert(digits_value(t) == digits_value(t.drop_last()) * 10 + digit_value(t.last()));
        let b = pow10((n - 1) as nat);
        assert(pow10(n) == 10 * b);
        assert(digits_value(t.drop_last()) == a * b);
        assert(a * b * 10 == a * (10 * b)) by (nonlinear_arith);
    }
}

/// Non-zero digits scaled by 10^20 or more do not fit in u64.
pub proof fn lemma_too_large(d: Seq<char>, k: int)
    requires
        all_digits(d),
        !all_zeros(d),
        k >= 20,
    ensures
        digits_value(d + zeros(k as nat)) > u64::MAX,
{
    assert((d + zeros(k as nat)).take(d.len() + 20int) =~= d + zeros(20));
    lemma_prefix_value_le(d + zeros(k as nat), d.len() + 20int);
    lemma_append_zeros(d, 20);
    lemma_nonzero_worth_one(d);
    reveal_with_fuel(pow10, 21);
    let v = digits_value(d);
    assert(v * pow10(20) >= pow10(20)) by (nonlinear_arith)
        requires
            v >= 1,
    ;
}

/// The end of the run of digits that starts at `i`.
fn scan_digits(s: &Vec<char>, i: usize, hi: usize) -> (j: usize)
    requires
        i <= hi <= s@.len(),
    ensures
        i <= j <= hi,
        j - i == digit_run(s@.subrange(i as int, hi as int)),
        all_digits(s@.subrange(i as int, j as int)),
{
    let mut j: usize = i;
    while j < hi && '0' <= s[j] && s[j] <= '9'
        invariant
            i <= j <= hi <= s@.len(),
            all_digits(s@.subrange(i as int, j as int)),
        decreases hi - j,
    {
        assert(s@.subrange(i as int, j + 1) =~= s@.subrange(i as int, j as int).push(s@[j as int]));
        j = j + 1;
    }
    let ghost t = s@.subrange(i as int, hi as int);
    assert(t.take(j - i) =~= s@.subrange(i as int, j as int));
    proof {
        lemma_digit_run(t, j - i);
    }
    j
}

/// Whether `s[lo..hi]` is all zeros.
fn zeros_only(s: &Vec<char>, lo: usize, hi: usize) -> (r: bool)
    requires
        lo <= hi <= s@.len(),
    ensures
        r == all_zeros(s@.subrange(lo as int, hi as int)),
{
    let mut i: usize = lo;
    while i < hi
        invariant
            lo <= i <= hi <= s@.len(),
            forall|j: int| lo <= j < i ==> s@[j] == '0',
        decreases hi - i,
    {
        if s[i] != '0' {
            assert(s@.subrange(lo as int, hi as int)[i - lo] != '0');
            return false;
        }
        i = i + 1;
    }
    assert forall|j: int| 0 <= j < hi - lo implies #[trigger] s@.subrange(
        lo as int,
        hi as int,
    )[j] == '0' by {
        assert(s@[lo + j] == '0');
    }
    true
}

/// The ticks of the digits `d` scaled by 10^k.
fn scaled_ticks(d: &Vec<char>, k: i128) -> (r: Option<u64>)
    requires
        all_digits(d@),
        k > -0x1_0000_0000_0000_0000_0000_0000_0000,
    ensures
        r == ticks_of(d@, k as int),
{
    let len = d.len();
    assert(d@.subrange(0, len as int) =~= d@);
    if k >= 0 {
        if zeros_only(d, 0, len) {
            assert(all_zeros(d@ + zeros(k as nat)));
            proof {
                lemma_zeros_worth_nothing(d@ + zeros(k as nat));
            }
            return Some(0);
        }
        if k >= 20 {
            proof {
                lemma_too_large(d@, k as int);
            }
            return None;
        }
        let mut e: Vec<char> = Vec::new();
        push_range(&mut e, d, 0, len);
        push_zeros(&mut e, k as usize);
        let n = e.len();
        assert(e@.subrange(0, n as int) =~= e@);
        assert(all_digits(e@)) by {
            assert forall|i: int| 0 <= i < e@.len() implies is_digit(#[trigger] e@[i]) by {
                if i < len {
                    assert(e@[i] == d@[i]);
                }
            }
        }
        parse_digits(&e, 0, n)
    } else {
        let m = -k;
        if m <= len as i128 {
            let cut = len - m as usize;
            assert(d@.subrange(cut as int, len as int) =~= d@.skip(cut as int));
            assert(d@.subrange(0, cut as int) =~= d@.take(cut as int));
            if zeros_only(d, cut, len) {
                parse_digits(d, 0, cut)
            } else {
                None
            }
        } else if zeros_only(d, 0, len) {
            Some(0)
        } else {
            None
        }
    }
}

/// Reads `s[lo..hi]` as a non-negative decimal price, in ticks of
/// 10^-PRICE_DECIMALS: an optional `+`, digits with an optional point, and an
/// optional exponent. `None` when it is not of that form, when its value is
/// not a whole number of ticks, or when it does not fit in u64.
pub fn parse_price(s: &Vec<char>, lo: usize, hi: usize) -> (r: Option<u64>)
    requires
        lo <= hi <= s@.len(),
    ensures
        r == price_of(s@.subrange(lo as int, hi as int)),
{
    let ghost t = s@.subrange(lo as int, hi as int);
    let a: usize = if lo < hi && s[lo] == '+' {
        lo + 1
    } else {
        lo
    };
    let ghost s1 = s@.subrange(a as int, hi as int);
    assert(s1 =~= strip_plus(t));
    let ie = scan_digits(s, a, hi);
    assert(s1.skip(ie - a) =~= s@.subrange(ie as int, hi as int));
    assert(s1.take(ie - a) =~= s@.subrange(a as int, ie as int));
    let b: usize = if ie < hi && s[ie] == '.' {
        ie + 1
    } else {
        ie
    };
    let ghost r1 = s1.skip(ie - a);
    let ghost r2 = s@.subrange(b as int, hi as int);
    assert(r2 =~= (if r1.len() > 0 && r1[0] == '.' {
        r1.drop_first()
    } else {
        r1
    }));
    let fe = scan_digits(s, b, hi);
    assert(r2.take(fe - b) =~= s@.subrange(b as int, fe as int));
    assert(r2.skip(fe - b) =~= s@.subrange(fe as int, hi as int));
    if ie == a && fe == b {
        return None;
    }
    let mut d: Vec<char> = Vec::new();
    push_range(&mut d, s, a, ie);
    push_range(&mut d, s, b, fe);
    assert(all_digits(d@)) by {
        assert forall|i: int| 0 <= i < d@.len() implies is_digit(#[trigger] d@[i]) by {
            if i < ie - a {
                assert(d@[i] == s@.subrange(a as int, ie as int)[i]);
            } else {
                assert(d@[i] == s@.subrange(b as int, fe as int)[i - (ie - a)]);
            }
        }
    }
    scaled_with_exponent(s, &d, fe - b, fe, hi)
}

/// The ticks of the digits `d`, of which the last `n_frac` stood after the
/// point, followed by the exponent, if any, in `s[fe..hi]`.
fn scaled_with_exponent(s: &Vec<char>, d: &Vec<char>, n_frac: usize, fe: usize, hi: usize) -> (r:
    Option<u64>)
    requires
        fe <= hi <= s@.len(),
        n_frac <= d@.len(),
        all_digits(d@),
    ensures
        r == ticks_with_exponent(d@, n_frac as nat, s@.subrange(fe as int, hi as int)),
{
    if fe == hi {
        return scaled_ticks(d, 8 - n_frac as i128);
    }
    if s[fe] != 'e' && s[fe] != 'E' {
        return None;
    }
    let c = fe + 1;
    let ghost r4 = s@.subrange(c as int, hi as int);
    assert(s@.subrange(fe as int, hi as int).drop_first() =~= r4);
    let negative = c < hi && s[c] == '-';
    let es: usize = if c < hi && (s[c] == '+' || s[c] == '-') {
        c + 1
    } else {
        c
    };
    assert(strip_sign(r4) =~= s@.subrange(es as int, hi as int));
    if es == hi || scan_digits(s, es, hi) != hi {
        proof {
            if es < hi {
                let x = s@.subrange(es as int, hi as int);
                if all_digits(x) {
                    lemma_digit_run(x, x.len() as int);
                }
            }
        }
        return None;
    }
    let big: u128 = 0x10_0000_0000_0000_0000_0000_0000;
    match parse_digits_wide(s, es, hi) {
        Some(x) if x < big => {
            let k: i128 = if negative {
                8 - n_frac as i128 - x as i128
            } else {
                8 - n_frac as i128 + x as i128
            };
            scaled_ticks(&d, k)
        },
        _ => {
            assert(d@.subrange(0, d@.len() as int) =~= d@);
            let all_zero = zeros_only(&d, 0, d.len());
            if all_zero {
                proof {
                    if !negative {
                        lemma_zeros_worth_nothing(
                            d@ + zeros((digits_value(strip_sign(r4)) + 8 - n_frac) as nat),
                        );
                    }
                }
                Some(0)
            } else {
                proof {
                    if !negative {
                        lemma_too_large(d@, digits_value(strip_sign(r4)) + 8 - n_frac);
                    }
                }
                None
            }
        },
    }
}

/// Reads `s[lo..hi]` as an integer with an optional sign; `None` when it is
/// not one or lies outside the range of i64.
pub fn parse_quantity(s: &Vec<char>, lo: usize, hi: usize) -> (r: Option<i64>)
    requires
        lo <= hi <= s@.len(),
    ensures
        r == quantity_of(s@.subrange(lo as int, hi as int)),
{
    let ghost t = s@.subrange(lo as int, hi as int);
    if lo < hi && (s[lo] == '-' || s[lo] == '+') {
        assert(t.skip(1) =~= s@.subrange(lo + 1, hi as int));
        assert(!is_digit(t[0]));
        if lo + 1 == hi {
            return None;
        }
        match parse_digits(s, lo + 1, hi) {
            Some(m) => {
                if s[lo] == '-' {
                    if m <= 9223372036854775807 {
                        Some(-(m as i64))
                    } else if m == 9223372036854775808 {
                        Some(i64::MIN)
                    } else {
                        None
                    }
                } else if m <= 9223372036854775807 {
                    Some(m as i64)
                } else {
                    None
                }
            },
            None => None,
        }
    } else {
        if lo == hi {
            return None;
        }
        match parse_digits(s, lo, hi) {
            Some(m) => {
                if m <= 9223372036854775807 {
                    Some(m as i64)
                } else {
                    None
                }
            },
            None => None,
        }
    }
}

} // verus!
