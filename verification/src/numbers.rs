//! Numeric text: decimal digits, signed integers, and an exact
//! fixed-point decimal value type used for method arguments and results.
//!
//! The parse rules are the canonical ones of this library's value types:
//! an unsigned integer is up to 18 decimal digits, a signed integer is an
//! optional sign followed by up to 18 digits, and a decimal number is an
//! optional sign, up to 12 integer digits, and an optional fraction of up
//! to 6 digits.  The bounds keep every arithmetic step exact.

use vstd::prelude::*;
use vstd::string::*;

verus! {

/// 10 to the power `k`.
pub open spec fn pow10(k: nat) -> nat
    decreases k,
{
    if k == 0 {
        1
    } else {
        10 * pow10((k - 1) as nat)
    }
}

pub proof fn lemma_pow10_pos(k: nat)
    ensures
        pow10(k) >= 1,
    decreases k,
{
    if k > 0 {
        lemma_pow10_pos((k - 1) as nat);
    }
}

pub proof fn lemma_pow10_adds(j: nat, k: nat)
    ensures
        pow10(j + k) == pow10(j) * pow10(k),
    decreases j,
{
    if j > 0 {
        lemma_pow10_adds((j - 1) as nat, k);
        let a = pow10((j - 1) as nat);
        let b = pow10(k);
        assert((j + k - 1) as nat == (j - 1) as nat + k);
        assert(pow10(j + k) == 10 * (a * b));
        assert(10 * (a * b) == (10 * a) * b) by (nonlinear_arith);
        assert(pow10(j) == 10 * a);
        assert(pow10(j) * pow10(k) == (10 * a) * b);
        assert(pow10(j + k) == pow10(j) * pow10(k));
    } else {
        assert(pow10(j) == 1);
        assert(j + k == k);
        assert(pow10(j + k) == pow10(k));
    }
}

/// The concrete values of the powers of ten that the parsers bound by.
pub proof fn lemma_pow10_values()
    ensures
        pow10(6) == 1000000,
        pow10(12) == 1000000000000,
        pow10(17) == 100000000000000000,
        pow10(18) == 1000000000000000000,
{
    reveal_with_fuel(pow10, 19);
}

pub proof fn lemma_pow10_mono(j: nat, k: nat)
    requires
        j <= k,
    ensures
        pow10(j) <= pow10(k),
    decreases k,
{
    if j < k {
        lemma_pow10_mono(j, (k - 1) as nat);
        lemma_pow10_pos((k - 1) as nat);
    }
}

/// The character for one decimal digit.
pub open spec fn digit_char(d: nat) -> char {
    if d == 0 {
        '0'
    } else if d == 1 {
        '1'
    } else if d == 2 {
        '2'
    } else if d == 3 {
        '3'
    } else if d == 4 {
        '4'
    } else if d == 5 {
        '5'
    } else if d == 6 {
        '6'
    } else if d == 7 {
        '7'
    } else if d == 8 {
        '8'
    } else {
        '9'
    }
}

/// The decimal digit string of `n`, most significant digit first.
pub open spec fn dec_digits_of(n: nat) -> Seq<char>
    decreases n,
{
    if n < 10 {
        seq![digit_char(n)]
    } else {
        dec_digits_of(n / 10).push(digit_char(n % 10))
    }
}

/// Appends the character of the digit `d` to `s`.
fn append_digit(s: &mut String, d: u128)
    requires
        d < 10,
    ensures
        final(s)@ == old(s)@ + seq![digit_char(d as nat)],
{
    proof {
        reveal_strlit("0");
        reveal_strlit("1");
        reveal_strlit("2");
        reveal_strlit("3");
        reveal_strlit("4");
        reveal_strlit("5");
        reveal_strlit("6");
        reveal_strlit("7");
        reveal_strlit("8");
        reveal_strlit("9");
    }
    if d == 0 {
        s.append("0");
        proof { assert(final(s)@ =~= old(s)@ + seq![digit_char(d as nat)]); }
    } else if d == 1 {
        s.append("1");
        proof { assert(final(s)@ =~= old(s)@ + seq![digit_char(d as nat)]); }
    } else if d == 2 {
        s.append("2");
        proof { assert(final(s)@ =~= old(s)@ + seq![digit_char(d as nat)]); }
    } else if d == 3 {
        s.append("3");
        proof { assert(final(s)@ =~= old(s)@ + seq![digit_char(d as nat)]); }
    } else if d == 4 {
        s.append("4");
        proof { assert(final(s)@ =~= old(s)@ + seq![digit_char(d as nat)]); }
    } else if d == 5 {
        s.append("5");
        proof { assert(final(s)@ =~= old(s)@ + seq![digit_char(d as nat)]); }
    } else if d == 6 {
        s.append("6");
        proof { assert(final(s)@ =~= old(s)@ + seq![digit_char(d as nat)]); }
    } else if d == 7 {
        s.append("7");
        proof { assert(final(s)@ =~= old(s)@ + seq![digit_char(d as nat)]); }
    } else if d == 8 {
        s.append("8");
        proof { assert(final(s)@ =~= old(s)@ + seq![digit_char(d as nat)]); }
    } else {
        s.append("9");
        proof { assert(final(s)@ =~= old(s)@ + seq![digit_char(d as nat)]); }
    }
}

/// Appends the decimal digits of `n` to `s`.
pub fn push_u128(s: &mut String, n: u128)
    ensures
        final(s)@ == old(s)@ + dec_digits_of(n as nat),
    decreases n,
{
    if n < 10 {
        append_digit(s, n);
    } else {
        push_u128(s, n / 10);
        append_digit(s, n % 10);
        proof {
            assert(old(s)@ + dec_digits_of((n / 10) as nat) + seq![digit_char((n % 10) as nat)]
                =~= old(s)@ + dec_digits_of(n as nat));
        }
    }
}

/// Is `c` a decimal digit?
pub open spec fn is_digit(c: char) -> bool {
    48 <= c as int && c as int <= 57
}

/// The value of one digit character.
pub open spec fn digit_val(c: char) -> nat {
    (c as int - 48) as nat
}

/// Are all characters of `s` decimal digits?
pub open spec fn all_digits(s: Seq<char>) -> bool {
    forall|i: int| 0 <= i < s.len() ==> is_digit(#[trigger] s[i])
}

/// The value of a digit string, most significant digit first.
pub open spec fn digits_val(s: Seq<char>) -> nat
    decreases s.len(),
{
    if s.len() == 0 {
        0
    } else {
        digits_val(s.drop_last()) * 10 + digit_val(s.last())
    }
}

pub proof fn lemma_digits_val_bound(s: Seq<char>)
    requires
        all_digits(s),
    ensures
        digits_val(s) < pow10(s.len()),
    decreases s.len(),
{
    if s.len() > 0 {
        lemma_digits_val_bound(s.drop_last());
        assert(is_digit(s.last()));
        assert(digit_val(s.last()) <= 9);
    }
}

/// Reads the digit run `s[from .. to]` as a number.
///
/// Returns the value when the run is non-empty and all digits; the caller
/// bounds the run at 18 digits, so the value fits well within `u64`.
fn digits_value(s: &str, from: usize, to: usize) -> (r: Option<u64>)
    requires
        from <= to <= s@.len(),
        to - from <= 18,
    ensures
        r is Some <==> (from < to && all_digits(s@.subrange(from as int, to as int))),
        r matches Some(v) ==> v == digits_val(s@.subrange(from as int, to as int))
            && v < pow10((to - from) as nat),
{
    if from == to {
        return None;
    }
    let mut acc: u64 = 0;
    let mut i: usize = from;
    while i < to
        invariant
            from <= i <= to <= s@.len(),
            to - from <= 18,
            all_digits(s@.subrange(from as int, i as int)),
            acc == digits_val(s@.subrange(from as int, i as int)),
            acc < pow10((i - from) as nat),
        decreases to - i,
    {
        let c = s.get_char(i);
        let u = c as u32;
        if u < 48 || u > 57 {
            proof {
                assert(s@.subrange(from as int, to as int)[i - from] == s@[i as int]);
                assert(!is_digit(s@[i as int]));
            }
            return None;
        }
        let d = (u - 48) as u64;
        proof {
            lemma_pow10_mono((i - from) as nat, 17);
            lemma_pow10_values();
            assert(acc < pow10(17));
        }
        acc = acc * 10 + d;
        i = i + 1;
        proof {
            let pre = s@.subrange(from as int, i - 1);
            let now = s@.subrange(from as int, i as int);
            assert(now.drop_last() =~= pre);
            assert(now.last() == s@[i - 1]);
            assert(is_digit(s@[i - 1]));
            assert(forall|j: int| 0 <= j < now.len() ==> is_digit(#[trigger] now[j]));
            assert(acc == digits_val(now));
        }
    }
    proof {
        assert(s@.subrange(from as int, to as int) =~= s@.subrange(from as int, i as int));
        lemma_digits_val_bound(s@.subrange(from as int, to as int));
    }
    Some(acc)
}

/// The canonical parse of an unsigned integer: an optional `+` sign, then
/// one to eighteen digits.
pub open spec fn spec_parse_uint(s: Seq<char>) -> Option<nat> {
    let body = if s.len() > 0 && s[0] == '+' {
        s.subrange(1, s.len() as int)
    } else {
        s
    };
    if 1 <= body.len() <= 18 && all_digits(body) {
        Some(digits_val(body))
    } else {
        None
    }
}

/// Parses an unsigned integer according to [`spec_parse_uint`].
pub fn parse_uint(s: &str) -> (r: Option<u64>)
    ensures
        r is Some <==> spec_parse_uint(s@) is Some,
        r matches Some(v) ==> spec_parse_uint(s@) == Some(v as nat),
{
    let n = s.unicode_len();
    let start: usize = if n > 0 && s.get_char(0) == '+' {
        1
    } else {
        0
    };
    proof {
        if n > 0 && s@[0] == '+' {
            assert(s@.subrange(1, n as int).len() == n - 1);
        }
    }
    if n - start < 1 || n - start > 18 {
        return None;
    }
    let r = digits_value(s, start, n);
    proof {
        if start == 1 {
            assert(s@.subrange(1, n as int) =~= s@.subrange(start as int, n as int));
        } else {
            assert(s@ =~= s@.subrange(0, n as int));
        }
        if r is Some {
            lemma_digits_val_bound(s@.subrange(start as int, n as int));
            lemma_pow10_mono((n - start) as nat, 18);
            lemma_pow10_values();
        }
    }
    r
}

/// The canonical parse of a signed integer: an optional `+` or `-` sign,
/// then one to eighteen digits.
pub open spec fn spec_parse_int(s: Seq<char>) -> Option<int> {
    let negative = s.len() > 0 && s[0] == '-';
    let body = if s.len() > 0 && (s[0] == '+' || s[0] == '-') {
        s.subrange(1, s.len() as int)
    } else {
        s
    };
    if 1 <= body.len() <= 18 && all_digits(body) {
        Some(if negative {
            -(digits_val(body) as int)
        } else {
            digits_val(body) as int
        })
    } else {
        None
    }
}

/// Parses a signed integer according to [`spec_parse_int`].
pub fn parse_int(s: &str) -> (r: Option<i64>)
    ensures
        r is Some <==> spec_parse_int(s@) is Some,
        r matches Some(v) ==> spec_parse_int(s@) == Some(v as int),
{
    let n = s.unicode_len();
    let mut negative = false;
    let mut start: usize = 0;
    if n > 0 {
        let c = s.get_char(0);
        if c == '-' {
            negative = true;
            start = 1;
        } else if c == '+' {
            start = 1;
        }
    }
    proof {
        if start == 1 {
            assert(s@.subrange(1, n as int).len() == n - 1);
        }
    }
    if n - start < 1 || n - start > 18 {
        return None;
    }
    let r = digits_value(s, start, n);
    proof {
        if start == 1 {
            assert(s@.subrange(1, n as int) =~= s@.subrange(start as int, n as int));
        } else {
            assert(s@ =~= s@.subrange(0, n as int));
        }
        if r is Some {
            lemma_pow10_mono((n - start) as nat, 18);
            lemma_pow10_values();
        }
    }
    match r {
        Option::None => None,
        Option::Some(v) => {
            if negative {
                Some(-(v as i64))
            } else {
                Some(v as i64)
            }
        },
    }
}

/// The canonical parse of a boolean: exactly `true` or `false`.
pub open spec fn spec_parse_bool(s: Seq<char>) -> Option<bool> {
    if s == "true"@ {
        Some(true)
    } else if s == "false"@ {
        Some(false)
    } else {
        None
    }
}

/// Parses a boolean according to [`spec_parse_bool`].
pub fn parse_bool(s: &str) -> (r: Option<bool>)
    ensures
        r == spec_parse_bool(s@),
{
    let owned = s.to_owned();
    if owned == String::from_str("true") {
        Some(true)
    } else if owned == String::from_str("false") {
        Some(false)
    } else {
        None
    }
}

/// An exact fixed-point decimal: `mant / 10^scale`, negated when `neg`.
///
/// This is the library's floating-literal value type: `4.20` parses to
/// `mant 420, scale 2`.  Arithmetic on it is exact.
#[derive(PartialEq, Eq, Structural, Clone, Copy)]
pub struct Dec {
    pub neg: bool,
    pub mant: u128,
    pub scale: u32,
}

/// The largest mantissa a well-formed decimal carries; parsing stays far
/// below it, and it keeps every sum of up to 255 arguments exact.
pub const DEC_MANT_LIMIT: u128 = 1000000000000000000000000000;

/// A decimal that argument parsing can produce: a bounded mantissa and at
/// most six fractional digits.
pub open spec fn dec_wf(d: Dec) -> bool {
    d.scale <= 6 && d.mant <= DEC_MANT_LIMIT
}

/// The value of a decimal in millionths, as a mathematical integer.
pub open spec fn dec_units(d: Dec) -> int {
    (if d.neg {
        -1int
    } else {
        1int
    }) * d.mant * pow10((6 - d.scale) as nat)
}

/// The canonical parse of a decimal: an optional sign, one to twelve
/// integer digits, and optionally a point followed by one to six
/// fraction digits.
pub open spec fn spec_parse_dec(s: Seq<char>) -> Option<Dec> {
    let negative = s.len() > 0 && s[0] == '-';
    let body = if s.len() > 0 && (s[0] == '+' || s[0] == '-') {
        s.subrange(1, s.len() as int)
    } else {
        s
    };
    match first_at(body, 0, '.') {
        Option::None => if 1 <= body.len() <= 12 && all_digits(body) {
            Some(Dec { neg: negative, mant: digits_val(body) as u128, scale: 0 })
        } else {
            None
        },
        Option::Some(k) => {
            let ip = body.subrange(0, k as int);
            let fp = body.subrange(k as int + 1, body.len() as int);
            if 1 <= ip.len() <= 12 && 1 <= fp.len() <= 6 && all_digits(ip) && all_digits(fp) {
                Some(
                    Dec {
                        neg: negative,
                        mant: (digits_val(ip) * pow10(fp.len()) + digits_val(fp)) as u128,
                        scale: fp.len() as u32,
                    },
                )
            } else {
                None
            }
        },
    }
}

/// The first position of `c` in `s` at or after `i`.
pub open spec fn first_at(s: Seq<char>, i: nat, c: char) -> Option<nat>
    decreases s.len() - i,
{
    if i >= s.len() {
        None
    } else if s[i as int] == c {
        Some(i)
    } else {
        first_at(s, i + 1, c)
    }
}

pub proof fn lemma_first_at_found(s: Seq<char>, i: nat, j: nat, c: char)
    requires
        i <= j < s.len(),
        s[j as int] == c,
        forall|m: int| i <= m < j ==> s[m] != c,
    ensures
        first_at(s, i, c) == Some(j),
    decreases j - i,
{
    if i < j {
        lemma_first_at_found(s, i + 1, j, c);
    }
}

pub proof fn lemma_first_at_none(s: Seq<char>, i: nat, c: char)
    requires
        forall|m: int| i <= m < s.len() ==> s[m] != c,
    ensures
        first_at(s, i, c) is None,
    decreases s.len() - i,
{
    if i < s.len() {
        lemma_first_at_none(s, i + 1, c);
    }
}

/// Parses a decimal according to [`spec_parse_dec`].
///
/// The result is well formed, with a mantissa below `10^18`.
pub fn parse_dec(s: &str) -> (r: Option<Dec>)
    ensures
        r == spec_parse_dec(s@),
        r matches Some(d) ==> dec_wf(d) && d.mant < 1000000000000000000u128,
{
    let n = s.unicode_len();
    let mut negative = false;
    let mut start: usize = 0;
    if n > 0 {
        let c = s.get_char(0);
        if c == '-' {
            negative = true;
            start = 1;
        } else if c == '+' {
            start = 1;
        }
    }
    let ghost body = if s@.len() > 0 && (s@[0] == '+' || s@[0] == '-') {
        s@.subrange(1, s@.len() as int)
    } else {
        s@
    };
    proof {
        if start == 1 {
            assert(body =~= s@.subrange(start as int, n as int));
        } else {
            assert(body =~= s@.subrange(start as int, n as int));
        }
        assert(body.len() == n - start);
    }
    // Find the first point, if any.
    let mut i: usize = start;
    while i < n && s.get_char(i) != '.'
        invariant
            start <= i <= n,
            n == s@.len(),
            forall|m: int| start <= m < i ==> s@[m] != '.',
        decreases n - i,
    {
        i = i + 1;
    }
    let dot = i;
    proof {
        if dot < n {
            assert(s@[dot as int] == '.');
            assert(forall|m: int| 0 <= m < dot - start ==> body[m] == s@[m + start]);
            lemma_first_at_found(body, 0, (dot - start) as nat, '.');
        } else {
            assert(forall|m: int| 0 <= m < body.len() ==> body[m] == s@[m + start]);
            assert(forall|m: int| 0 <= m < body.len() ==> body[m] != '.');
            lemma_first_at_none(body, 0, '.');
        }
    }
    if dot == n {
        // No fraction: a plain integer run.
        if n - start < 1 || n - start > 12 {
            return None;
        }
        let v = digits_value(s, start, n);
        proof {
            assert(body =~= s@.subrange(start as int, n as int));
            lemma_pow10_mono((n - start) as nat, 12);
            lemma_pow10_values();
            lemma_pow10_mono(12, 18);
        }
        match v {
            Option::None => None,
            Option::Some(m) => Some(Dec { neg: negative, mant: m as u128, scale: 0 }),
        }
    } else {
        let ip_len = dot - start;
        let fp_len = n - dot - 1;
        if ip_len < 1 || ip_len > 12 || fp_len < 1 || fp_len > 6 {
            return None;
        }
        let iv = digits_value(s, start, dot);
        let fv = digits_value(s, dot + 1, n);
        proof {
            assert(body.subrange(0, ip_len as int) =~= s@.subrange(start as int, dot as int));
            assert(body.subrange(ip_len + 1, body.len() as int) =~= s@.subrange(
                dot + 1,
                n as int,
            ));
        }
        match (iv, fv) {
            (Option::Some(a), Option::Some(b)) => {
                let p = pow10_small(fp_len as u32);
                proof {
                    lemma_pow10_mono(ip_len as nat, 12);
                    assert((a as int) * (p as int) + (b as int) < pow10(12) * (p as int))
                        by (nonlinear_arith)
                        requires
                            (a as int) < pow10(12),
                            (b as int) < (p as int),
                            (p as int) >= 1,
                    ;
                    lemma_pow10_adds(12, fp_len as nat);
                    lemma_pow10_mono(12 + fp_len as nat, 18);
                    lemma_pow10_values();
                }
                let mant = (a as u128) * p + (b as u128);
                Some(Dec { neg: negative, mant, scale: fp_len as u32 })
            },
            _ => None,
        }
    }
}

pub proof fn lemma_pow10_values_wide()
    ensures
        pow10(27) == DEC_MANT_LIMIT,
        pow10(33) == 1000000000000000000000000000000000,
{
    reveal_with_fuel(pow10, 34);
}

/// A run of `n` zero characters.
pub open spec fn zeroes(n: nat) -> Seq<char>
    decreases n,
{
    if n == 0 {
        Seq::empty()
    } else {
        zeroes((n - 1) as nat).push('0')
    }
}

/// `s` left-padded with zeroes to length `k`.
pub open spec fn pad_digits(s: Seq<char>, k: nat) -> Seq<char> {
    if s.len() >= k {
        s
    } else {
        zeroes((k - s.len()) as nat) + s
    }
}

/// `s` with its trailing zero characters removed.
pub open spec fn trim_zeroes(s: Seq<char>) -> Seq<char>
    decreases s.len(),
{
    if s.len() > 0 && s.last() == '0' {
        trim_zeroes(s.drop_last())
    } else {
        s
    }
}

pub proof fn lemma_trim_prefix(s: Seq<char>, j: int)
    requires
        0 <= j <= s.len(),
        forall|m: int| j <= m < s.len() ==> s[m] == '0',
        j == 0 || s[j - 1] != '0',
    ensures
        trim_zeroes(s) == s.subrange(0, j),
    decreases s.len(),
{
    if j == s.len() {
        assert(s.subrange(0, j) =~= s);
        if s.len() > 0 {
            assert(s.last() != '0');
        }
    } else {
        assert(s.last() == '0');
        lemma_trim_prefix(s.drop_last(), j);
        assert(s.drop_last().subrange(0, j) =~= s.subrange(0, j));
    }
}

/// The debug text of a decimal: sign, integer digits, a point, and the
/// fraction digits with trailing zeroes removed but at least one digit
/// kept, exactly as a binary float debug-prints an in-range value.
pub open spec fn dec_text(d: Dec) -> Seq<char> {
    let p = pow10(d.scale as nat);
    let ip = (d.mant as nat) / p;
    let fr = (d.mant as nat) % p;
    let frac0 = trim_zeroes(pad_digits(dec_digits_of(fr), d.scale as nat));
    let frac = if frac0.len() == 0 {
        seq!['0']
    } else {
        frac0
    };
    (if d.neg {
        seq!['-']
    } else {
        Seq::empty()
    }) + dec_digits_of(ip) + seq!['.'] + frac
}

/// Appends the debug text of a decimal to `s`.
pub fn push_dec(s: &mut String, d: Dec)
    requires
        d.scale <= 6,
    ensures
        final(s)@ == old(s)@ + dec_text(d),
{
    proof {
        reveal_strlit("-");
        reveal_strlit(".");
        reveal_strlit("0");
        lemma_pow10_pos(d.scale as nat);
    }
    if d.neg {
        s.append("-");
    }
    let p = pow10_small(d.scale);
    push_u128(s, d.mant / p);
    s.append(".");
    let ghost head = old(s)@ + (if d.neg {
        seq!['-']
    } else {
        Seq::<char>::empty()
    }) + dec_digits_of(((d.mant as nat) / (p as nat))) + seq!['.'];
    proof {
        assert(s@ =~= head);
    }
    // Build the zero-padded fraction digits in a scratch string.
    let fr = d.mant % p;
    let mut digits = String::new();
    push_u128(&mut digits, fr);
    let dlen = digits.as_str().unicode_len();
    let mut padded = String::new();
    let mut k: usize = dlen;
    while k < d.scale as usize
        invariant
            dlen <= k,
            d.scale <= 6,
            k <= d.scale || k == dlen,
            padded@ == zeroes((k - dlen) as nat),
        decreases d.scale as int - k,
    {
        padded.append("0");
        k = k + 1;
        proof {
            reveal_strlit("0");
            assert(zeroes((k - dlen) as nat) =~= zeroes((k - 1 - dlen) as nat).push('0'));
            assert(padded@ =~= zeroes((k - dlen) as nat));
        }
    }
    padded.append(digits.as_str());
    proof {
        assert(padded@ =~= pad_digits(dec_digits_of(fr as nat), d.scale as nat));
    }
    // Trim trailing zeroes, keeping at least one digit.
    let n = padded.as_str().unicode_len();
    let mut j: usize = n;
    while j > 0 && padded.as_str().get_char(j - 1) == '0'
        invariant
            0 <= j <= n,
            n == padded@.len(),
            forall|m: int| j <= m < n ==> padded@[m] == '0',
        decreases j,
    {
        j = j - 1;
    }
    proof {
        lemma_trim_prefix(padded@, j as int);
    }
    if j == 0 {
        s.append("0");
        proof {
            assert(s@ =~= head + seq!['0']);
            assert(s@ =~= old(s)@ + dec_text(d));
        }
    } else {
        let frac = padded.as_str().substring_char(0, j);
        s.append(frac);
        proof {
            assert(trim_zeroes(padded@).len() == j);
            assert(s@ =~= old(s)@ + dec_text(d));
        }
    }
}

/// The debug text of a signed integer.
pub open spec fn int_text(v: int) -> Seq<char> {
    if v < 0 {
        seq!['-'] + dec_digits_of((-v) as nat)
    } else {
        dec_digits_of(v as nat)
    }
}

/// Appends the debug text of a signed integer to `s`.
pub fn push_i64(s: &mut String, v: i64)
    ensures
        final(s)@ == old(s)@ + int_text(v as int),
{
    if v < 0 {
        proof {
            reveal_strlit("-");
        }
        s.append("-");
        let m = -(v as i128);
        push_u128(s, m as u128);
        proof {
            assert(s@ =~= old(s)@ + int_text(v as int));
        }
    } else {
        push_u128(s, v as u128);
    }
}

/// `10^k` for a small exponent.
pub fn pow10_small(k: u32) -> (r: u128)
    requires
        k <= 6,
    ensures
        r == pow10(k as nat),
{
    proof {
        reveal_with_fuel(pow10, 8);
    }
    if k == 0 {
        1
    } else if k == 1 {
        10
    } else if k == 2 {
        100
    } else if k == 3 {
        1000
    } else if k == 4 {
        10000
    } else if k == 5 {
        100000
    } else {
        1000000
    }
}

} // verus!
