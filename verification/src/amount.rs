//! Amounts: an exact decimal number paired with a currency code.
//!
//! The number is held as an unscaled 96-bit mantissa, a decimal scale of at
//! most 28, and a sign, so parsing and rendering lose no precision and no
//! floating point is involved.  An amount token is one or more digits and
//! dots, optionally followed by whitespace and a currency code
//! (uppercase-led, 1 to 24 characters); without a code the caller's default
//! currency applies.

use crate::text::{
    lemma_seq_span, lemma_seq_span_at_least, lemma_seq_span_is, push_all, seq_span, str_to_chars,
    string_from_chars,
};
use vstd::prelude::*;
use vstd::string::StringExecFns;

verus! {

/// The largest unscaled value a number can hold: 2^96 - 1.
pub const MAX_MANTISSA: u128 = 79228162514264337593543950335;

/// The largest decimal scale a number can carry.
pub const MAX_SCALE: u32 = 28;

/// An exact decimal number: `(-1)^negative * mantissa * 10^(-scale)`.
#[derive(Clone, Copy, Debug, PartialEq, Eq, Structural)]
#[verifier::ext_equal]
pub struct Number {
    pub negative: bool,
    pub mantissa: u128,
    pub scale: u32,
}

/// The representation invariant of a number.
pub open spec fn number_wf(n: Number) -> bool {
    n.mantissa <= MAX_MANTISSA && n.scale <= MAX_SCALE
}

pub open spec fn is_digit(c: char) -> bool {
    48 <= c as u32 && c as u32 <= 57
}

pub open spec fn is_num_char(c: char) -> bool {
    is_digit(c) || c == '.'
}

pub open spec fn digit_val(c: char) -> int {
    c as u32 - 48
}

/// The value of a string of decimal digits, most significant first.
pub open spec fn digits_val(s: Seq<char>) -> int
    decreases s.len(),
{
    if s.len() == 0 {
        0
    } else {
        digits_val(s.drop_last()) * 10 + digit_val(s.last())
    }
}

/// Parses a run of digits and dots as an exact decimal: at most one dot,
/// at least one digit, and within the mantissa and scale limits; the scale
/// is the number of digits after the dot.
pub open spec fn spec_parse_number(s: Seq<char>) -> Option<Number> {
    let d = seq_span(s, 0, |c: char| c != '.');
    let digits = if d >= s.len() {
        s
    } else {
        s.subrange(0, d) + s.subrange(d + 1, s.len() as int)
    };
    let scale = if d >= s.len() {
        0
    } else {
        s.len() - 1 - d
    };
    if d < s.len() && seq_span(s, d + 1, |c: char| c != '.') < s.len() {
        None  // a second dot
    } else if digits.len() == 0 {
        None  // no digit at all
    } else if scale > MAX_SCALE {
        None
    } else if digits_val(digits) > MAX_MANTISSA {
        None
    } else {
        Some(Number { negative: false, mantissa: digits_val(digits) as u128, scale: scale as u32 })
    }
}

pub open spec fn is_upper(c: char) -> bool {
    65 <= c as u32 && c as u32 <= 90
}

/// A character allowed in the middle of a currency code.
pub open spec fn is_currency_char(c: char) -> bool {
    is_upper(c) || is_digit(c) || c == '\'' || c == '.' || c == '_' || c == '-'
}

/// A character allowed at the end of a currency code.
pub open spec fn is_currency_end(c: char) -> bool {
    is_upper(c) || is_digit(c)
}

/// A valid currency code: a single uppercase letter, or 2 to 24 characters
/// that start with an uppercase letter, end with an uppercase letter or
/// digit, and hold only uppercase letters, digits, `'`, `.`, `_`, `-` in
/// between.
pub open spec fn spec_is_currency(s: Seq<char>) -> bool {
    (s.len() == 1 && is_upper(s[0])) || (2 <= s.len() <= 24 && is_upper(s[0]) && is_currency_end(
        s.last(),
    ) && (forall|k: int| 1 <= k < s.len() - 1 ==> is_currency_char(#[trigger] s[k])))
}

/// A Unicode whitespace character (the White_Space property), as the
/// separator between number and currency is allowed to be.
pub open spec fn is_unicode_ws(c: char) -> bool {
    c == ' ' || c == '\t' || c == '\n' || c == '\u{0b}' || c == '\u{0c}' || c == '\r' || c
        == '\u{85}' || c == '\u{a0}' || c == '\u{1680}' || (8192 <= c as u32 && c as u32 <= 8202)
        || c == '\u{2028}' || c == '\u{2029}' || c == '\u{202f}' || c == '\u{205f}' || c
        == '\u{3000}'
}

/// An amount value as the contracts speak of it.
#[verifier::ext_equal]
pub struct AmountView {
    pub number: Number,
    pub currency: Seq<char>,
}

/// An exact decimal number with its currency code.
#[derive(Debug)]
pub struct Amount {
    pub number: Number,
    pub currency: String,
}

impl View for Amount {
    type V = AmountView;

    open spec fn view(&self) -> AmountView {
        AmountView { number: self.number, currency: self.currency@ }
    }
}

/// Parses an amount token: a nonempty run of digits and dots, then
/// optional whitespace, then an optional currency code reaching the end of
/// the token; absent a code, the default currency is taken.
pub open spec fn spec_parse_amount(t: Seq<char>, default_currency: Seq<char>) -> Option<
    AmountView,
> {
    let np = seq_span(t, 0, |c: char| is_num_char(c));
    if np == 0 {
        None
    } else {
        let we = seq_span(t, np, |c: char| is_unicode_ws(c));
        let cur = t.subrange(we, t.len() as int);
        if cur.len() > 0 && !spec_is_currency(cur) {
            None
        } else {
            match spec_parse_number(t.subrange(0, np)) {
                None => None,
                Some(n) => Some(
                    AmountView {
                        number: n,
                        currency: if cur.len() == 0 {
                            default_currency
                        } else {
                            cur
                        },
                    },
                ),
            }
        }
    }
}

fn is_num_char_exec(c: char) -> (r: bool)
    ensures
        r == is_num_char(c),
{
    let u = c as u32;
    (48 <= u && u <= 57) || c == '.'
}

fn is_unicode_ws_exec(c: char) -> (r: bool)
    ensures
        r == is_unicode_ws(c),
{
    let u = c as u32;
    c == ' ' || c == '\t' || c == '\n' || c == '\u{0b}' || c == '\u{0c}' || c == '\r' || c
        == '\u{85}' || c == '\u{a0}' || c == '\u{1680}' || (8192 <= u && u <= 8202) || c
        == '\u{2028}' || c == '\u{2029}' || c == '\u{202f}' || c == '\u{205f}' || c == '\u{3000}'
}

/// Whether the characters form a valid currency code.
#[verifier::loop_isolation(false)]
fn check_currency(v: &Vec<char>) -> (r: bool)
    ensures
        r == spec_is_currency(v@),
{
    let n = v.len();
    if n == 0 || n > 24 {
        return false;
    }
    let c0 = v[0] as u32;
    if !(65 <= c0 && c0 <= 90) {
        return false;
    }
    if n == 1 {
        return true;
    }
    let cl = v[n - 1] as u32;
    if !(65 <= cl && cl <= 90) && !(48 <= cl && cl <= 57) {
        return false;
    }
    let mut k: usize = 1;
    while k < n - 1
        invariant
            1 <= k <= n - 1,
            n == v@.len(),
            forall|k2: int| 1 <= k2 < k ==> is_currency_char(#[trigger] v@[k2]),
        decreases n - k,
    {
        let c = v[k];
        let u = c as u32;
        if !((65 <= u && u <= 90) || (48 <= u && u <= 57) || c == '\'' || c == '.' || c == '_' || c
            == '-') {
            return false;
        }
        k = k + 1;
    }
    true
}

/// The digit characters of `s[..j]`, the first dot (of all of `s`)
/// removed when it falls before `j`.
pub open spec fn cur_digits(s: Seq<char>, j: int) -> Seq<char> {
    let d = seq_span(s, 0, |c: char| c != '.');
    if d >= j {
        s.subrange(0, j)
    } else {
        s.subrange(0, d) + s.subrange(d + 1, j)
    }
}

/// The digit characters of all of `s`: what `spec_parse_number` reads.
pub open spec fn spec_digits(s: Seq<char>) -> Seq<char> {
    let d = seq_span(s, 0, |c: char| c != '.');
    if d >= s.len() {
        s
    } else {
        s.subrange(0, d) + s.subrange(d + 1, s.len() as int)
    }
}

/// Parses the digits-and-dots part into a number.
#[verifier::loop_isolation(false)]
fn parse_number(v: &Vec<char>) -> (r: Option<Number>)
    requires
        forall|k: int| 0 <= k < v@.len() ==> is_num_char(#[trigger] v@[k]),
    ensures
        r == spec_parse_number(v@),
        r matches Some(n) ==> number_wf(n),
{
    let ghost s = v@;
    let ghost nondot = |c: char| c != '.';
    let n = v.len();
    let mut dot: usize = 0;
    let mut has_dot = false;
    let mut value: u128 = 0;
    let mut over = false;
    let mut ndigits: usize = 0;
    proof {
        lemma_seq_span(s, 0, nondot);
        assert(cur_digits(s, 0) =~= Seq::<char>::empty());
    }
    let mut i: usize = 0;
    while i < n
        invariant
            i <= n,
            n == s.len(),
            ndigits <= i,
            has_dot ==> dot < i && s[dot as int] == '.' && (forall|k: int|
                0 <= k < i && k != dot ==> s[k] != '.'),
            !has_dot ==> forall|k: int| 0 <= k < i ==> s[k] != '.',
            ndigits == i - (if has_dot {
                1int
            } else {
                0int
            }),
            !over ==> value <= MAX_MANTISSA && value as int == digits_val(cur_digits(s, i as int)),
            over ==> digits_val(cur_digits(s, i as int)) > MAX_MANTISSA,
        decreases n - i,
    {
        let ghost old_digits = cur_digits(s, i as int);
        let c = v[i];
        if c == '.' {
            if has_dot {
                proof {
                    lemma_seq_span_is(s, 0, nondot, dot as int);
                    lemma_seq_span_at_least(s, dot + 1, nondot, i as int);
                    lemma_seq_span(s, dot + 1, nondot);
                }
                return None;
            }
            proof {
                lemma_seq_span_is(s, 0, nondot, i as int);
                assert(cur_digits(s, i + 1) =~= old_digits);
            }
            dot = i;
            has_dot = true;
        } else {
            let dg = (c as u32 - 48) as u128;
            proof {
                if has_dot {
                    lemma_seq_span_is(s, 0, nondot, dot as int);
                } else {
                    lemma_seq_span_at_least(s, 0, nondot, i + 1);
                }
                assert(cur_digits(s, i + 1) =~= old_digits.push(s[i as int]));
                assert(cur_digits(s, i + 1).drop_last() =~= old_digits);
                assert(cur_digits(s, i + 1).last() == s[i as int]);
                assert(digits_val(cur_digits(s, i + 1)) == digits_val(old_digits) * 10 + dg);
            }
            if !over {
                if value <= (MAX_MANTISSA - dg) / 10 {
                    proof {
                        assert(value * 10 + dg <= MAX_MANTISSA) by (nonlinear_arith)
                            requires
                                value <= (MAX_MANTISSA - dg) / 10,
                                dg < 10,
                        ;
                    }
                    value = value * 10 + dg;
                } else {
                    proof {
                        assert(value * 10 + dg > MAX_MANTISSA) by (nonlinear_arith)
                            requires
                                value > (MAX_MANTISSA - dg) / 10,
                                dg < 10,
                                value >= 0,
                        ;
                    }
                    over = true;
                }
            } else {
                proof {
                    assert(digits_val(old_digits) * 10 + dg > MAX_MANTISSA) by (nonlinear_arith)
                        requires
                            digits_val(old_digits) > MAX_MANTISSA,
                            dg >= 0,
                    ;
                }
            }
            ndigits = ndigits + 1;
        }
        i = i + 1;
    }
    proof {
        if has_dot {
            lemma_seq_span_is(s, 0, nondot, dot as int);
            lemma_seq_span_at_least(s, dot + 1, nondot, s.len() as int);
            lemma_seq_span(s, dot + 1, nondot);
        } else {
            lemma_seq_span_is(s, 0, nondot, s.len() as int);
        }
        assert(cur_digits(s, n as int) =~= spec_digits(s));
    }
    if ndigits == 0 {
        return None;
    }
    let scale_usize = if has_dot {
        n - 1 - dot
    } else {
        0
    };
    if scale_usize > 28 {
        return None;
    }
    if over {
        return None;
    }
    Some(Number { negative: false, mantissa: value, scale: scale_usize as u32 })
}


impl Amount {
    /// Parses an amount token against the grammar: digits and dots, then
    /// optional whitespace, then an optional currency code; without a code
    /// the default currency is used.  Any mismatch yields no amount.
    #[verifier::loop_isolation(false)]
    pub fn from_str(s: &str, default_currency: &str) -> (r: Option<Amount>)
        ensures
            match r {
                Some(a) => spec_parse_amount(s@, default_currency@) == Some(a@) && number_wf(
                    a.number,
                ),
                None => spec_parse_amount(s@, default_currency@) is None,
            },
    {
        let ghost t = s@;
        let ghost nump = |c: char| is_num_char(c);
        let ghost wsq = |c: char| is_unicode_ws(c);
        let chars = str_to_chars(s);
        let n = chars.len();
        let mut i: usize = 0;
        let mut numv: Vec<char> = Vec::new();
        while i < n && is_num_char_exec(chars[i])
            invariant
                i <= n,
                n == t.len(),
                chars@ == t,
                numv@ == t.subrange(0, i as int),
                seq_span(t, 0, nump) == seq_span(t, i as int, nump),
            decreases n - i,
        {
            numv.push(chars[i]);
            i = i + 1;
            proof {
                assert(numv@ =~= t.subrange(0, i as int));
            }
        }
        proof {
            assert(seq_span(t, i as int, nump) == i as int);
        }
        let np = i;
        if np == 0 {
            return None;
        }
        while i < n && is_unicode_ws_exec(chars[i])
            invariant
                np <= i <= n,
                n == t.len(),
                chars@ == t,
                seq_span(t, np as int, wsq) == seq_span(t, i as int, wsq),
            decreases n - i,
        {
            i = i + 1;
        }
        proof {
            assert(seq_span(t, i as int, wsq) == i as int);
        }
        let we = i;
        let mut curv: Vec<char> = Vec::new();
        while i < n
            invariant
                we <= i <= n,
                n == t.len(),
                chars@ == t,
                curv@ == t.subrange(we as int, i as int),
            decreases n - i,
        {
            curv.push(chars[i]);
            i = i + 1;
            proof {
                assert(curv@ =~= t.subrange(we as int, i as int));
            }
        }
        if curv.len() > 0 && !check_currency(&curv) {
            return None;
        }
        proof {
            lemma_seq_span(t, 0, nump);
            assert(forall|k: int| 0 <= k < numv@.len() ==> is_num_char(#[trigger] numv@[k]));
        }
        match parse_number(&numv) {
            None => None,
            Some(num) => {
                let currency = if curv.len() == 0 {
                    String::from_str(default_currency)
                } else {
                    string_from_chars(&curv)
                };
                Some(Amount { number: num, currency })
            },
        }
    }

    /// Arithmetic negation: flips the sign and keeps number and currency.
    pub fn neg(&self) -> (r: Amount)
        ensures
            r@ == spec_neg(self@),
    {
        Amount {
            number: Number {
                negative: !self.number.negative,
                mantissa: self.number.mantissa,
                scale: self.number.scale,
            },
            currency: self.currency.clone(),
        }
    }
}

/// The negated amount: same magnitude, same currency, opposite sign.
pub open spec fn spec_neg(a: AmountView) -> AmountView {
    AmountView {
        number: Number {
            negative: !a.number.negative,
            mantissa: a.number.mantissa,
            scale: a.number.scale,
        },
        currency: a.currency,
    }
}

/// Negating twice gives back the original amount, currency included.
pub proof fn lemma_neg_neg(a: AmountView)
    ensures
        spec_neg(spec_neg(a)) == a,
{
    assert(spec_neg(spec_neg(a)) =~= a);
}

pub open spec fn digit_char(d: int) -> char {
    if d == 0 {
        '0'
    } else if d == 1 {
        '1'
    } else if d == 2 {
        '2'
    } else if d == 3 {
        '3'
    } else if d == 4 {
        '4'
    } else if d == 5 {
        '5'
    } else if d == 6 {
        '6'
    } else if d == 7 {
        '7'
    } else if d == 8 {
        '8'
    } else {
        '9'
    }
}

/// The decimal digits of `n`, most significant first; `0` is `"0"`.
pub open spec fn dec_str(n: int) -> Seq<char>
    decreases n,
{
    if n < 10 {
        seq![digit_char(n)]
    } else {
        proof {
            assert(n / 10 * 10 + n % 10 == n);
        }
        dec_str(n / 10).push(digit_char(n % 10))
    }
}

pub open spec fn pow10(k: int) -> int
    decreases k,
{
    if k <= 0 {
        1
    } else {
        10 * pow10(k - 1)
    }
}

pub proof fn lemma_pow10_pos(k: int)
    ensures
        pow10(k) >= 1,
    decreases k,
{
    if k > 0 {
        lemma_pow10_pos(k - 1);
    }
}

pub proof fn lemma_pow10_mono(i: int, j: int)
    requires
        i <= j,
    ensures
        pow10(i) <= pow10(j),
    decreases j - i,
{
    if i < j {
        lemma_pow10_mono(i, j - 1);
        lemma_pow10_pos(j - 1);
    }
}

pub proof fn lemma_dec_str_len(n: int, k: int)
    requires
        0 <= n < pow10(k),
        1 <= k,
    ensures
        1 <= dec_str(n).len() <= k,
    decreases k,
{
    if n < 10 {
    } else {
        assert(k >= 2) by {
            if k == 1 {
                assert(pow10(1) == 10) by {
                    reveal_with_fuel(pow10, 3);
                }
            }
        }
        assert(n / 10 * 10 + n % 10 == n);
        assert(n / 10 < pow10(k - 1));
        lemma_dec_str_len(n / 10, k - 1);
    }
}

pub open spec fn zeros(k: int) -> Seq<char>
    decreases k,
{
    if k <= 0 {
        Seq::empty()
    } else {
        seq!['0'] + zeros(k - 1)
    }
}

pub proof fn lemma_zeros(k: int)
    requires
        0 <= k,
    ensures
        zeros(k).len() == k,
        forall|i: int| 0 <= i < k ==> zeros(k)[i] == '0',
    decreases k,
{
    if k > 0 {
        lemma_zeros(k - 1);
    }
}

/// `s` grown to length `k` with leading zeros.
pub open spec fn zero_pad(s: Seq<char>, k: int) -> Seq<char> {
    if s.len() >= k {
        s
    } else {
        zeros(k - s.len()) + s
    }
}

/// The canonical text of a number: sign, integer digits, and with a
/// nonzero scale a dot and exactly `scale` fractional digits; trailing
/// zeros of the fractional part are kept, and a negative zero renders with
/// its sign.
pub open spec fn spec_render_number(n: Number) -> Seq<char> {
    let sign: Seq<char> = if n.negative {
        seq!['-']
    } else {
        Seq::empty()
    };
    if n.scale == 0 {
        sign + dec_str(n.mantissa as int)
    } else {
        let p = pow10(n.scale as int);
        sign + dec_str(n.mantissa as int / p) + seq!['.'] + zero_pad(
            dec_str(n.mantissa as int % p),
            n.scale as int,
        )
    }
}

/// The canonical text of an amount: the number, a space, the currency.
pub open spec fn spec_render_amount(a: AmountView) -> Seq<char> {
    spec_render_number(a.number) + seq![' '] + a.currency
}

fn digit_char_exec(d: u128) -> (r: char)
    requires
        d < 10,
    ensures
        r == digit_char(d as int),
{
    if d == 0 {
        '0'
    } else if d == 1 {
        '1'
    } else if d == 2 {
        '2'
    } else if d == 3 {
        '3'
    } else if d == 4 {
        '4'
    } else if d == 5 {
        '5'
    } else if d == 6 {
        '6'
    } else if d == 7 {
        '7'
    } else if d == 8 {
        '8'
    } else {
        '9'
    }
}

pub fn fmt_u128(n: u128) -> (r: Vec<char>)
    ensures
        r@ == dec_str(n as int),
    decreases n,
{
    if n < 10 {
        let mut v: Vec<char> = Vec::new();
        v.push(digit_char_exec(n));
        proof {
            assert(v@ =~= seq![digit_char(n as int)]);
        }
        v
    } else {
        proof {
            assert(n as int / 10 * 10 + n as int % 10 == n as int);
        }
        let mut v = fmt_u128(n / 10);
        v.push(digit_char_exec(n % 10));
        v
    }
}

#[verifier::loop_isolation(false)]
fn pow10_u128(k: u32) -> (r: u128)
    requires
        k <= 28,
    ensures
        r as int == pow10(k as int),
{
    let mut p: u128 = 1;
    let mut i: u32 = 0;
    while i < k
        invariant
            i <= k <= 28,
            p as int == pow10(i as int),
        decreases k - i,
    {
        proof {
            lemma_pow10_mono(i as int + 1, 28);
            assert(pow10(28) == 10000000000000000000000000000) by {
                reveal_with_fuel(pow10, 30);
            }
        }
        p = p * 10;
        i = i + 1;
    }
    p
}

/// Renders a number as its canonical decimal text.
#[verifier::loop_isolation(false)]
pub fn render_number(n: &Number) -> (r: Vec<char>)
    requires
        number_wf(*n),
    ensures
        r@ == spec_render_number(*n),
{
    let ghost sign: Seq<char> = if n.negative {
        seq!['-']
    } else {
        Seq::empty()
    };
    let mut out: Vec<char> = Vec::new();
    if n.negative {
        out.push('-');
    }
    proof {
        assert(out@ =~= sign);
    }
    if n.scale == 0 {
        let d = fmt_u128(n.mantissa);
        push_all(&mut out, &d);
        out
    } else {
        let p = pow10_u128(n.scale);
        proof {
            lemma_pow10_pos(n.scale as int);
        }
        let ip = n.mantissa / p;
        let fp = n.mantissa % p;
        let dip = fmt_u128(ip);
        push_all(&mut out, &dip);
        out.push('.');
        let ghost head = sign + dec_str(ip as int) + seq!['.'];
        proof {
            assert(out@ =~= head);
            lemma_dec_str_len(fp as int, n.scale as int);
        }
        let dfp = fmt_u128(fp);
        let flen = dfp.len();
        let scale_us = n.scale as usize;
        let mut z: usize = 0;
        while z < scale_us - flen
            invariant
                z <= scale_us - flen,
                flen == dec_str(fp as int).len(),
                flen <= scale_us,
                out@ == head + zeros(z as int),
            decreases scale_us - flen - z,
        {
            out.push('0');
            z = z + 1;
            proof {
                lemma_zeros(z as int);
                lemma_zeros(z - 1);
                assert(out@ =~= head + zeros(z as int));
            }
        }
        push_all(&mut out, &dfp);
        proof {
            lemma_zeros(scale_us - flen);
            assert(zero_pad(dec_str(fp as int), n.scale as int) =~= zeros(scale_us - flen)
                + dec_str(fp as int));
            assert(out@ =~= spec_render_number(*n));
        }
        out
    }
}

impl Amount {
    /// The canonical text of this amount: `<number> <currency>`.
    pub fn render(&self) -> (r: String)
        requires
            number_wf(self.number),
        ensures
            r@ == spec_render_amount(self@),
    {
        let mut out = render_number(&self.number);
        out.push(' ');
        let cur = str_to_chars(self.currency.as_str());
        push_all(&mut out, &cur);
        proof {
            assert(out@ =~= spec_render_amount(self@));
        }
        string_from_chars(&out)
    }
}

/// The decimal digits of `n`, grown to `width` characters with leading
/// zeros.
#[verifier::loop_isolation(false)]
pub fn fmt_u128_padded(n: u128, width: usize) -> (r: Vec<char>)
    ensures
        r@ == zero_pad(dec_str(n as int), width as int),
{
    let d = fmt_u128(n);
    if d.len() >= width {
        return d;
    }
    let pad = width - d.len();
    let mut out: Vec<char> = Vec::new();
    let mut z: usize = 0;
    while z < pad
        invariant
            z <= pad,
            out@ == zeros(z as int),
        decreases pad - z,
    {
        out.push('0');
        z = z + 1;
        proof {
            lemma_zeros(z as int);
            lemma_zeros(z - 1);
            assert(out@ =~= zeros(z as int));
        }
    }
    push_all(&mut out, &d);
    out
}

} // verus!
