//! Exact decimal amounts of Canadian dollars and exact percentage rates, their text forms,
//! and the decimal arithmetic on them.

use vstd::prelude::*;
use crate::text::{
    all_digits, all_digits_in, digit_value, digits_value, find_dot, first_dot, first_dot_from,
    is_digit, lemma_digits_value_concat, lemma_digits_value_push, lemma_first_dot_bounds,
    lemma_pow10_positive, pow10,
};
use rust_decimal::Decimal;
use rusty_money::{Currency, Iso, Money, Round};

verus! {

/// Largest mantissa of a decimal: 2^96 - 1.
pub const MAX_MANTISSA: i128 = 79228162514264337593543950335;

/// Largest number of fraction digits of a decimal.
pub const MAX_SCALE: u32 = 28;

/// Whether `mantissa / 10^scale` is a value that a 96-bit decimal holds exactly.
pub open spec fn valid_decimal(mantissa: int, scale: int) -> bool {
    -MAX_MANTISSA <= mantissa <= MAX_MANTISSA && 0 <= scale <= MAX_SCALE
}

/// Why a field's text was not taken.
#[derive(Clone, Copy, Debug, PartialEq, Eq, Structural)]
pub enum ErrorKind {
    InvalidMonetaryInput,
    InvalidPercentage,
    UnrecognizedField,
}

/// An exact amount of Canadian dollars: `mantissa / 10^scale`.
#[derive(Clone, Copy, Debug, PartialEq, Eq, Structural)]
pub struct MonetaryAmount {
    pub mantissa: i128,
    pub scale: u32,
}

/// An exact markup percentage: `mantissa / 10^scale` (the text `15` is fifteen percent).
#[derive(Clone, Copy, Debug, PartialEq, Eq, Structural)]
pub struct PercentageRate {
    pub mantissa: i128,
    pub scale: u32,
}

// ---------------------------------------------------------------------------------------
// Numerals
// ---------------------------------------------------------------------------------------

/// A decimal numeral: `<digits>[.<digits>]`.
pub open spec fn numeral(s: Seq<char>) -> bool {
    let k = first_dot(s);
    &&& 1 <= k
    &&& all_digits(s.subrange(0, k))
    &&& k < s.len() ==> k + 2 <= s.len() && all_digits(s.subrange(k + 1, s.len() as int))
}

/// The digits of a numeral, with its point taken out.
pub open spec fn numeral_digits(s: Seq<char>) -> Seq<char> {
    let k = first_dot(s);
    if k >= s.len() {
        s
    } else {
        s.subrange(0, k) + s.subrange(k + 1, s.len() as int)
    }
}

/// The number of digits after the point of a numeral.
pub open spec fn numeral_scale(s: Seq<char>) -> int {
    let k = first_dot(s);
    if k >= s.len() {
        0
    } else {
        s.len() - k - 1
    }
}

/// Whether a numeral's value is a decimal as written: its digits fit 96 bits and it has at
/// most 28 fraction digits.
pub open spec fn numeral_fits(s: Seq<char>) -> bool {
    digits_value(numeral_digits(s)) <= MAX_MANTISSA && numeral_scale(s) <= MAX_SCALE
}

pub open spec fn negated(s: Seq<char>) -> bool {
    s.len() > 0 && s[0] == '-'
}

/// A numeral without its leading minus sign, if it has one.
pub open spec fn unsigned_part(s: Seq<char>) -> Seq<char> {
    if negated(s) {
        s.drop_first()
    } else {
        s
    }
}

/// A decimal numeral with an optional leading minus sign: `[-]<digits>[.<digits>]`.
pub open spec fn signed_numeral(s: Seq<char>) -> bool {
    numeral(unsigned_part(s))
}

/// The (mantissa, scale) that a signed numeral spells.
pub open spec fn signed_numeral_value(s: Seq<char>) -> (int, int) {
    let u = unsigned_part(s);
    let v = digits_value(numeral_digits(u)) as int;
    (
        if negated(s) {
            -v
        } else {
            v
        },
        numeral_scale(u),
    )
}

/// Whether `t` is a decimal numeral.
fn is_numeral(t: &str) -> (b: bool)
    ensures
        b == numeral(t@),
{
    let n = t.unicode_len();
    let k = find_dot(t, n);
    proof {
        lemma_first_dot_bounds(t@, 0);
        assert(t@.subrange(0, n as int) =~= t@);
    }
    if k >= n {
        1 <= n && all_digits_in(t, 0, n)
    } else {
        1 <= k && all_digits_in(t, 0, k) && k + 1 < n && all_digits_in(t, k + 1, n)
    }
}

/// Whether `t` is a decimal numeral with an optional leading minus sign.
fn is_signed_numeral(t: &str) -> (b: bool)
    ensures
        b == signed_numeral(t@),
{
    let n = t.unicode_len();
    if n > 0 && t.get_char(0) == '-' {
        let u = t.substring_char(1, n);
        proof {
            assert(u@ =~= t@.drop_first());
        }
        is_numeral(u)
    } else {
        is_numeral(t)
    }
}

// ---------------------------------------------------------------------------------------
// Decimal arithmetic and parsing, by rust_decimal
// ---------------------------------------------------------------------------------------

/// What `Decimal::from_str` gives for a text, as (mantissa, scale).
pub uninterp spec fn decimal_from_text(s: Seq<char>) -> Option<(int, int)>;

/// What `Decimal::checked_add` gives for two decimals, as (mantissa, scale).
pub uninterp spec fn decimal_sum(a: (int, int), b: (int, int)) -> Option<(int, int)>;

/// What `Decimal::checked_mul` gives for two decimals, as (mantissa, scale).
pub uninterp spec fn decimal_product(a: (int, int), b: (int, int)) -> Option<(int, int)>;

/// What `Decimal::checked_div` gives for two decimals, as (mantissa, scale).
pub uninterp spec fn decimal_quotient(a: (int, int), b: (int, int)) -> Option<(int, int)>;

pub open spec fn pair_of(d: (i128, u32)) -> (int, int) {
    (d.0 as int, d.1 as int)
}

pub open spec fn option_pair_of(r: Option<(i128, u32)>) -> Option<(int, int)> {
    match r {
        Some(d) => Some(pair_of(d)),
        None => None,
    }
}

pub open spec fn valid_pair(d: (i128, u32)) -> bool {
    valid_decimal(d.0 as int, d.1 as int)
}

/// Relies on `Decimal::from_str`, `Decimal::mantissa` and `Decimal::scale`: the result depends
/// on the text alone and is a decimal; a numeral with an optional minus sign, whose digits fit
/// 96 bits and which has at most 28 fraction digits, is read exactly, its fraction digits
/// giving the scale.
#[verifier::external_body]
fn decimal_from_str(s: &str) -> (r: Option<(i128, u32)>)
    ensures
        option_pair_of(r) == decimal_from_text(s@),
        r matches Some(d) ==> valid_pair(d),
        signed_numeral(s@) && numeral_fits(unsigned_part(s@)) ==> option_pair_of(r) == Some(
            signed_numeral_value(s@),
        ),
{
    match s.parse::<Decimal>() {
        Ok(d) => Some((d.mantissa(), d.scale())),
        Err(_) => None,
    }
}

/// Relies on `Decimal::checked_add`: the result depends on the operands alone and is a
/// decimal where there is one.
#[verifier::external_body]
pub(crate) fn checked_add(a: (i128, u32), b: (i128, u32)) -> (r: Option<(i128, u32)>)
    requires
        valid_pair(a),
        valid_pair(b),
    ensures
        option_pair_of(r) == decimal_sum(pair_of(a), pair_of(b)),
        r matches Some(d) ==> valid_pair(d),
{
    let x = Decimal::from_i128_with_scale(a.0, a.1);
    let y = Decimal::from_i128_with_scale(b.0, b.1);
    x.checked_add(y).map(|d| (d.mantissa(), d.scale()))
}

/// Relies on `Decimal::checked_mul`: the result depends on the operands alone and is a
/// decimal where there is one.
#[verifier::external_body]
pub(crate) fn checked_mul(a: (i128, u32), b: (i128, u32)) -> (r: Option<(i128, u32)>)
    requires
        valid_pair(a),
        valid_pair(b),
    ensures
        option_pair_of(r) == decimal_product(pair_of(a), pair_of(b)),
        r matches Some(d) ==> valid_pair(d),
{
    let x = Decimal::from_i128_with_scale(a.0, a.1);
    let y = Decimal::from_i128_with_scale(b.0, b.1);
    x.checked_mul(y).map(|d| (d.mantissa(), d.scale()))
}

/// Relies on `Decimal::checked_div`: the result depends on the operands alone, is a decimal
/// where there is one, and there is none for a zero divisor.
#[verifier::external_body]
pub(crate) fn checked_div(a: (i128, u32), b: (i128, u32)) -> (r: Option<(i128, u32)>)
    requires
        valid_pair(a),
        valid_pair(b),
    ensures
        option_pair_of(r) == decimal_quotient(pair_of(a), pair_of(b)),
        r matches Some(d) ==> valid_pair(d),
        b.0 == 0 ==> r is None,
{
    let x = Decimal::from_i128_with_scale(a.0, a.1);
    let y = Decimal::from_i128_with_scale(b.0, b.1);
    x.checked_div(y).map(|d| (d.mantissa(), d.scale()))
}

// ---------------------------------------------------------------------------------------
// Display
// ---------------------------------------------------------------------------------------

pub open spec fn abs(x: int) -> nat {
    if x < 0 {
        (-x) as nat
    } else {
        x as nat
    }
}

/// The character of a decimal digit.
pub open spec fn digit_char(d: int) -> char {
    (d + ('0' as int)) as char
}

/// The decimal digits of `n`, most significant first, with no leading zero.
pub open spec fn digits_of(n: nat) -> Seq<char>
    decreases n,
{
    if n < 10 {
        seq![digit_char(n as int)]
    } else {
        digits_of(n / 10).push(digit_char((n % 10) as int))
    }
}

/// `n / d` rounded to the nearest integer, halves to the even one.
pub open spec fn half_even(n: nat, d: nat) -> nat
    recommends
        d > 0,
{
    let q = n / d;
    let r = n % d;
    if 2 * r < d || (2 * r == d && q % 2 == 0) {
        q
    } else {
        q + 1
    }
}

/// The magnitude of `mantissa / 10^scale` in cents, rounded half to even.
pub open spec fn rounded_cents(mantissa: int, scale: int) -> nat {
    if scale >= 2 {
        half_even(abs(mantissa), pow10((scale - 2) as nat))
    } else {
        abs(mantissa) * pow10((2 - scale) as nat)
    }
}

/// A number of cents as dollars: the whole dollars, a point, and two digits.
pub open spec fn cents_text(c: nat) -> Seq<char> {
    digits_of(c / 100) + seq![
        '.',
        digit_char(((c % 100) / 10) as int),
        digit_char((c % 10) as int),
    ]
}

/// How an amount `mantissa / 10^scale` is displayed: the dollar symbol, a minus sign where the
/// amount in cents, rounded half to even, is below zero, then those cents as dollars.
pub open spec fn display_text(mantissa: int, scale: int) -> Seq<char> {
    let c = rounded_cents(mantissa, scale);
    let sign = if mantissa < 0 && c != 0 {
        seq!['-']
    } else {
        Seq::<char>::empty()
    };
    seq!['$'] + sign + cents_text(c)
}

/// Relies on `rusty_money::Money::round` (half to even, to two places), the Canadian dollar's
/// symbol, and the `Display` of `Decimal` with a precision of two: the symbol, a minus sign
/// where the rounded amount is below zero, the whole part, a point and two digits.
#[verifier::external_body]
fn money_display(mantissa: i128, scale: u32) -> (r: String)
    requires
        valid_decimal(mantissa as int, scale as int),
    ensures
        r@ == display_text(mantissa as int, scale as int),
{
    let amount = Decimal::from_i128_with_scale(mantissa, scale);
    let money = Money::from_decimal(amount, Currency::get(Iso::CAD)).round(2, Round::HalfEven);
    format!("{}{:.2}", money.currency().symbol, money.amount())
}

// ---------------------------------------------------------------------------------------
// Amounts and rates
// ---------------------------------------------------------------------------------------

/// What a monetary field's text gives: its first character (the currency symbol) is dropped,
/// and the rest must be a numeral with an optional minus sign. One whose value is a decimal as
/// written gives that value; a longer one gives what `Decimal` reads, if anything.
pub open spec fn parse_money_spec(s: Seq<char>) -> Result<MonetaryAmount, ErrorKind> {
    if s.len() == 0 || !signed_numeral(s.drop_first()) {
        Err(ErrorKind::InvalidMonetaryInput)
    } else if numeral_fits(unsigned_part(s.drop_first())) {
        Ok(amount_of_pair(signed_numeral_value(s.drop_first())))
    } else {
        match decimal_from_text(s.drop_first()) {
            Some(d) => Ok(MonetaryAmount { mantissa: d.0 as i128, scale: d.1 as u32 }),
            None => Err(ErrorKind::InvalidMonetaryInput),
        }
    }
}

/// What the percentage field's text gives: it must be a numeral, with no sign. One whose value
/// is a decimal as written gives that value; a longer one gives what `Decimal` reads, if
/// anything.
pub open spec fn parse_percentage_spec(s: Seq<char>) -> Result<PercentageRate, ErrorKind> {
    if !numeral(s) {
        Err(ErrorKind::InvalidPercentage)
    } else if numeral_fits(s) {
        let d = signed_numeral_value(s);
        Ok(PercentageRate { mantissa: d.0 as i128, scale: d.1 as u32 })
    } else {
        match decimal_from_text(s) {
            Some(d) => Ok(PercentageRate { mantissa: d.0 as i128, scale: d.1 as u32 }),
            None => Err(ErrorKind::InvalidPercentage),
        }
    }
}

impl MonetaryAmount {
    pub open spec fn wf(&self) -> bool {
        valid_decimal(self.mantissa as int, self.scale as int)
    }

    /// Whether two amounts are the same number of dollars, whatever their scales.
    pub open spec fn same_value(&self, other: MonetaryAmount) -> bool {
        self.mantissa * pow10(other.scale as nat) == other.mantissa * pow10(self.scale as nat)
    }

    /// An amount given in cents.
    pub fn from_cents(cents: i64) -> (r: MonetaryAmount)
        ensures
            r == (MonetaryAmount { mantissa: cents as i128, scale: 2 }),
            r.wf(),
    {
        MonetaryAmount { mantissa: cents as i128, scale: 2 }
    }

    /// Zero dollars, with two fraction digits.
    pub fn zero() -> (r: MonetaryAmount)
        ensures
            r == (MonetaryAmount { mantissa: 0, scale: 2 }),
            r.wf(),
    {
        MonetaryAmount { mantissa: 0, scale: 2 }
    }

    /// Reads a monetary field: a currency symbol, then `[-]<digits>[.<digits>]`. Any other
    /// text is refused.
    pub fn parse(text: &str) -> (r: Result<MonetaryAmount, ErrorKind>)
        ensures
            r == parse_money_spec(text@),
            r matches Ok(a) ==> a.wf(),
    {
        let n = text.unicode_len();
        if n == 0 {
            return Err(ErrorKind::InvalidMonetaryInput);
        }
        let rest = text.substring_char(1, n);
        proof {
            assert(rest@ =~= text@.drop_first());
        }
        if !is_signed_numeral(rest) {
            return Err(ErrorKind::InvalidMonetaryInput);
        }
        match decimal_from_str(rest) {
            Some((mantissa, scale)) => Ok(MonetaryAmount { mantissa, scale }),
            None => Err(ErrorKind::InvalidMonetaryInput),
        }
    }

    /// The display text: `$`, a minus sign where the rounded amount is negative, and the
    /// amount to two fraction digits, rounded half to even.
    pub fn format(&self) -> (r: String)
        requires
            self.wf(),
        ensures
            r@ == display_text(self.mantissa as int, self.scale as int),
    {
        money_display(self.mantissa, self.scale)
    }
}

pub open spec fn amount_of_pair(d: (int, int)) -> MonetaryAmount {
    MonetaryAmount { mantissa: d.0 as i128, scale: d.1 as u32 }
}

impl PercentageRate {
    pub open spec fn wf(&self) -> bool {
        valid_decimal(self.mantissa as int, self.scale as int)
    }

    /// A whole number of percent.
    pub fn from_percent(percent: i64) -> (r: PercentageRate)
        ensures
            r == (PercentageRate { mantissa: percent as i128, scale: 0 }),
            r.wf(),
    {
        PercentageRate { mantissa: percent as i128, scale: 0 }
    }

    /// Reads the percentage field: `<digits>[.<digits>]`, with no symbol and no sign. Any
    /// other text is refused.
    pub fn parse(text: &str) -> (r: Result<PercentageRate, ErrorKind>)
        ensures
            r == parse_percentage_spec(text@),
            r matches Ok(p) ==> p.wf(),
    {
        if !is_numeral(text) {
            return Err(ErrorKind::InvalidPercentage);
        }
        proof {
            lemma_first_dot_bounds(text@, 0);
            assert(is_digit(text@.subrange(0, first_dot(text@))[0]));
            assert(!negated(text@));
        }
        match decimal_from_str(text) {
            Some((mantissa, scale)) => Ok(PercentageRate { mantissa, scale }),
            None => Err(ErrorKind::InvalidPercentage),
        }
    }
}

} // verus!

verus! {

pub proof fn lemma_digit_char(d: int)
    requires
        0 <= d <= 9,
    ensures
        is_digit(digit_char(d)),
        digit_value(digit_char(d)) == d,
{
}

pub proof fn lemma_digits_of(n: nat)
    ensures
        all_digits(digits_of(n)),
        digits_value(digits_of(n)) == n,
        digits_of(n).len() >= 1,
    decreases n,
{
    if n < 10 {
        lemma_digit_char(n as int);
        let d = seq![digit_char(n as int)];
        assert(d.drop_last() =~= Seq::<char>::empty());
        assert(digits_value(Seq::<char>::empty()) == 0);
        assert(digits_value(d) == n);
    } else {
        lemma_digits_of(n / 10);
        lemma_digit_char((n % 10) as int);
        lemma_digits_value_push(digits_of(n / 10), digit_char((n % 10) as int));
        let d = digits_of(n / 10);
        let c = digit_char((n % 10) as int);
        assert forall|i: int| 0 <= i < d.push(c).len() implies is_digit(#[trigger] d.push(c)[i]) by {
            if i < d.len() {
                assert(d.push(c)[i] == d[i]);
            }
        }
    }
}

pub proof fn lemma_first_dot_after(s: Seq<char>, i: int, k: int)
    requires
        0 <= i <= k < s.len(),
        s[k] == '.',
        forall|j: int| i <= j < k ==> s[j] != '.',
    ensures
        first_dot_from(s, i) == k,
    decreases k - i,
{
    if i < k {
        lemma_first_dot_after(s, i + 1, k);
    }
}

pub proof fn lemma_pow10_small()
    ensures
        pow10(0) == 1,
        pow10(1) == 10,
        pow10(2) == 100,
{
    assert(pow10(0) == 1);
    assert(pow10(1) == 10);
}

pub proof fn lemma_pow10_split(n: nat)
    ensures
        pow10(n + 2) == pow10(n) * 100,
{
    assert(pow10(n + 2) == 10 * pow10(n + 1));
    assert(pow10(n + 1) == 10 * pow10(n));
}

/// The text of a number of cents as dollars is a numeral of two fraction digits that spells
/// that number.
pub proof fn lemma_cents_text_numeral(c: nat)
    ensures
        numeral(cents_text(c)),
        numeral_scale(cents_text(c)) == 2,
        digits_value(numeral_digits(cents_text(c))) == c,
        cents_text(c)[0] != '-',
{
    let w = c / 100;
    let x = (c % 100) / 10;
    let y = c % 10;
    lemma_digits_of(w);
    lemma_digit_char(x as int);
    lemma_digit_char(y as int);
    let g = digits_of(w);
    let f = seq![digit_char(x as int), digit_char(y as int)];
    let t = g + seq!['.'] + f;
    assert(t =~= cents_text(c));
    assert forall|j: int| 0 <= j < g.len() implies t[j] != '.' by {
        assert(t[j] == g[j]);
        assert(is_digit(g[j]));
    }
    lemma_first_dot_after(t, 0, g.len() as int);
    assert(t.subrange(0, g.len() as int) =~= g);
    assert(t.subrange(g.len() as int + 1, t.len() as int) =~= f);
    assert(all_digits(f));
    assert(f.drop_last() =~= seq![digit_char(x as int)]);
    assert(f.drop_last().drop_last() =~= Seq::<char>::empty());
    assert(digits_value(Seq::<char>::empty()) == 0);
    assert(f.drop_last().last() == digit_char(x as int));
    assert(digits_value(f.drop_last()) == x);
    assert(digits_value(f) == x * 10 + y);
    lemma_digits_value_concat(g, f);
    lemma_pow10_small();
    assert(t[0] == g[0]);
    assert(is_digit(g[0]));
}

/// The signed number of cents that an amount is, where it is a whole number of cents.
pub open spec fn whole_cents(a: MonetaryAmount) -> int {
    if a.scale <= 2 {
        a.mantissa * pow10((2 - a.scale) as nat)
    } else {
        (a.mantissa as int) / (pow10((a.scale - 2) as nat) as int)
    }
}

/// A number of cents as an amount with two fraction digits.
pub open spec fn cents_amount(c: int) -> MonetaryAmount {
    MonetaryAmount { mantissa: c as i128, scale: 2 }
}

/// Formatting an amount that is a whole number of cents, and whose number of cents is itself
/// a decimal, then parsing the text, gives the same number of dollars back, with two fraction
/// digits.
pub proof fn lemma_format_parse_round_trip(a: MonetaryAmount)
    requires
        a.wf(),
        a.scale > 2 ==> (a.mantissa as int) % (pow10((a.scale - 2) as nat) as int) == 0,
        abs(whole_cents(a)) <= MAX_MANTISSA,
    ensures
        parse_money_spec(display_text(a.mantissa as int, a.scale as int)) == Ok::<
            MonetaryAmount,
            ErrorKind,
        >(cents_amount(whole_cents(a))),
        cents_amount(whole_cents(a)).same_value(a),
{
    let m = a.mantissa as int;
    let s = a.scale as int;
    let w = whole_cents(a);
    let c = rounded_cents(m, s);
    lemma_pow10_small();
    if s <= 2 {
        let p = pow10((2 - s) as nat);
        if s == 2 {
            assert(half_even(abs(m), 1) == abs(m));
        }
        assert(c == abs(m) * p);
        assert(w == m * p);
        assert(c == abs(w)) by (nonlinear_arith)
            requires
                c == abs(m) * p,
                w == m * p,
                p >= 1,
        ;
        assert(pow10(s as nat) * p == 100) by {
            if s == 1 {
                assert(pow10(1) == 10);
            }
        }
        assert(w * pow10(s as nat) == m * 100) by (nonlinear_arith)
            requires
                w == m * p,
                pow10(s as nat) * p == 100,
        ;
    } else {
        let q = pow10((s - 2) as nat);
        lemma_pow10_positive((s - 2) as nat);
        assert(w == m / (q as int));
        assert(m == w * q) by (nonlinear_arith)
            requires
                w == m / (q as int),
                m % (q as int) == 0,
                q >= 1,
        ;
        assert(abs(m) == abs(w) * q) by (nonlinear_arith)
            requires
                m == w * q,
                q >= 1,
        ;
        assert(abs(m) % q == 0 && abs(m) / q == abs(w)) by (nonlinear_arith)
            requires
                abs(m) == abs(w) * q,
                q >= 1,
        ;
        assert(c == abs(w));
        lemma_pow10_split((s - 2) as nat);
        assert(w * pow10(s as nat) == m * 100) by (nonlinear_arith)
            requires
                m == w * q,
                pow10(s as nat) == q * 100,
        ;
    }
    lemma_cents_text_numeral(c);
    let t = cents_text(c);
    let sign = if m < 0 && c != 0 {
        seq!['-']
    } else {
        Seq::<char>::empty()
    };
    let text = seq!['$'] + sign + t;
    assert(text == display_text(m, s));
    let rest = text.drop_first();
    assert(rest =~= sign + t);
    if m < 0 && c != 0 {
        assert(rest.drop_first() =~= t);
        assert(w < 0);
    } else {
        assert(rest =~= t);
        assert(w >= 0);
    }
    assert(unsigned_part(rest) == t);
}

} // verus!
