//! Fixed-point money values.
//!
//! An [`Amount`] is a signed decimal number with exactly four fractional
//! digits, stored as an `i64` holding the value scaled by `10^4`.  All
//! arithmetic is exact while the scaled value stays inside the `i64` range
//! and saturates at `i64::MIN` / `i64::MAX` outside of it; the contracts
//! below state that policy precisely.

use vstd::prelude::*;
use vstd::string::StrSliceExecFns;
use vstd::string::StringExecFns;

verus! {

/// Number of fractional decimal digits carried by every `Amount`.
pub const DECIMAL_PLACES: u32 = 4;

/// `10^DECIMAL_PLACES`: the factor between an `Amount`'s mathematical value
/// and the scaled integer it stores.
pub const SCALE_FACTOR: i64 = 10000;

/// True when `v` fits in the scaled `i64` representation.
pub open spec fn in_range(v: int) -> bool {
    i64::MIN <= v <= i64::MAX
}

/// Clamps a mathematical result to the representable range; the saturation
/// policy of [`Amount::add`] and [`Amount::sub`].
pub open spec fn saturate(v: int) -> int {
    if v > i64::MAX {
        i64::MAX as int
    } else if v < i64::MIN {
        i64::MIN as int
    } else {
        v
    }
}

/// A money value: a signed decimal with [`DECIMAL_PLACES`] fractional digits.
///
/// The view of an `Amount` is the scaled integer it stores, as a
/// mathematical `int`; an `Amount` with view `v` denotes the decimal number
/// `v / 10^4`.
#[derive(Copy, Clone, Debug, PartialEq, Eq)]
pub struct Amount {
    scaled: i64,
}

impl View for Amount {
    type V = int;

    closed spec fn view(&self) -> int {
        self.scaled as int
    }
}

impl Amount {
    /// The `Amount` whose scaled value is `v`, as a spec-level constructor.
    pub closed spec fn spec_new(v: int) -> Amount {
        Amount { scaled: v as i64 }
    }

    /// Creates the amount `value / 10^4` from an already-scaled integer.
    pub fn new(value: i64) -> (r: Amount)
        ensures
            r@ == value,
    {
        Amount { scaled: value }
    }

    /// The additive identity.
    pub fn zero() -> (r: Amount)
        ensures
            r@ == 0,
    {
        Amount { scaled: 0 }
    }

    /// Whether the amount is strictly negative.
    pub fn less_than_zero(&self) -> (r: bool)
        ensures
            r == (self@ < 0),
    {
        self.scaled < 0
    }

    /// Sum of two amounts, saturating at the bounds of the representation.
    pub fn add(self, rhs: Amount) -> (r: Amount)
        ensures
            r@ == saturate(self@ + rhs@),
    {
        match self.scaled.checked_add(rhs.scaled) {
            Some(v) => Amount { scaled: v },
            None => if rhs.scaled >= 0 {
                Amount { scaled: i64::MAX }
            } else {
                Amount { scaled: i64::MIN }
            },
        }
    }

    /// Difference of two amounts, saturating at the bounds of the
    /// representation.
    pub fn sub(self, rhs: Amount) -> (r: Amount)
        ensures
            r@ == saturate(self@ - rhs@),
    {
        match self.scaled.checked_sub(rhs.scaled) {
            Some(v) => Amount { scaled: v },
            None => if rhs.scaled >= 0 {
                Amount { scaled: i64::MIN }
            } else {
                Amount { scaled: i64::MAX }
            },
        }
    }
}

impl Default for Amount {
    /// The default amount is zero.
    fn default() -> (r: Amount)
        ensures
            r@ == 0,
    {
        Amount::zero()
    }
}

/// Whether `c` is an ASCII decimal digit.
pub open spec fn is_digit(c: char) -> bool {
    48 <= c as int <= 57
}

/// Numeric value of an ASCII digit character.
pub open spec fn digit_val(c: char) -> int {
    c as int - 48
}

/// Whether every character of `s` is an ASCII decimal digit.
pub open spec fn all_digits(s: Seq<char>) -> bool {
    forall|i: int| 0 <= i < s.len() ==> is_digit(#[trigger] s[i])
}

/// The ASCII digit character for a value between 0 and 9.
pub open spec fn digit_char(d: int) -> char {
    if d == 0 {
        '0'
    } else if d == 1 {
        '1'
    } else if d == 2 {
        '2'
    } else if d == 3 {
        '3'
    } else if d == 4 {
        '4'
    } else if d == 5 {
        '5'
    } else if d == 6 {
        '6'
    } else if d == 7 {
        '7'
    } else if d == 8 {
        '8'
    } else {
        '9'
    }
}

/// The number a sequence of digit characters denotes, most significant
/// digit first.
pub open spec fn digits_val(s: Seq<char>) -> int
    decreases s.len(),
{
    if s.len() == 0 {
        0
    } else {
        digits_val(s.drop_last()) * 10 + digit_val(s.last())
    }
}

/// Decimal digit characters of a non-negative number, without leading
/// zeros (a lone zero for 0).
pub open spec fn dec_digits(n: int) -> Seq<char>
    recommends
        n >= 0,
    decreases n,
{
    if n < 10 {
        seq![digit_char(n)]
    } else {
        dec_digits(n / 10).push(digit_char(n % 10))
    }
}

/// The four fractional digit characters of a scaled value's remainder
/// (`0 <= n < 10000`), zero-padded on the left.
pub open spec fn frac_digits4(n: int) -> Seq<char> {
    seq![
        digit_char(n / 1000),
        digit_char(n / 100 % 10),
        digit_char(n / 10 % 10),
        digit_char(n % 10),
    ]
}

/// Canonical text of the amount with scaled value `v`: an optional minus
/// sign, the integer digits, a point, and exactly four fractional digits.
pub open spec fn amount_text(v: int) -> Seq<char> {
    let m = if v < 0 {
        -v
    } else {
        v
    };
    let digits = dec_digits(m / 10000) + seq!['.'] + frac_digits4(m % 10000);
    if v < 0 {
        seq!['-'] + digits
    } else {
        digits
    }
}

/// Length of the sign prefix of a decimal text: one for a leading `-` or
/// `+`, zero otherwise.
pub open spec fn sign_len(s: Seq<char>) -> int {
    if s.len() > 0 && (s[0] == '-' || s[0] == '+') {
        1
    } else {
        0
    }
}

/// Whether a decimal text denotes a negative number.
pub open spec fn is_negative_text(s: Seq<char>) -> bool {
    s.len() > 0 && s[0] == '-'
}

/// Index of the first `.` in `s`, or `s.len()` if there is none.
pub open spec fn dot_index(s: Seq<char>) -> int
    decreases s.len(),
{
    if s.len() == 0 {
        0
    } else if s[0] == '.' {
        0
    } else {
        1 + dot_index(s.drop_first())
    }
}

/// Whether `s` is a decimal number: an optional sign, at least one integer
/// digit, and optionally a point followed by zero or more fractional
/// digits.
pub open spec fn well_formed_decimal(s: Seq<char>) -> bool {
    let b = s.skip(sign_len(s));
    let d = dot_index(b);
    &&& 1 <= d
    &&& all_digits(b.take(d))
    &&& (d < b.len() ==> all_digits(b.skip(d + 1)))
}

/// `10^k` for small non-negative `k`.
pub open spec fn pow10(k: int) -> int
    decreases k,
{
    if k <= 0 {
        1
    } else {
        10 * pow10(k - 1)
    }
}

/// The scaled magnitude a well-formed decimal text denotes: the integer
/// digits scaled by `10^4` plus the first four fractional digits, right
/// padded with zeros; fractional digits beyond the fourth are truncated.
pub open spec fn decimal_magnitude(s: Seq<char>) -> int {
    let b = s.skip(sign_len(s));
    let d = dot_index(b);
    let frac = if d < b.len() {
        b.skip(d + 1)
    } else {
        Seq::<char>::empty()
    };
    let f4 = if frac.len() > 4 {
        frac.take(4)
    } else {
        frac
    };
    digits_val(b.take(d)) * 10000 + digits_val(f4) * pow10(4 - f4.len())
}

/// What parsing a decimal text yields: the scaled value it denotes, or
/// nothing when the text is not well formed or the value does not fit the
/// representation.
pub open spec fn parse_amount(s: Seq<char>) -> Option<int> {
    if !well_formed_decimal(s) {
        None
    } else {
        let m = decimal_magnitude(s);
        let v = if is_negative_text(s) {
            -m
        } else {
            m
        };
        if in_range(v) {
            Some(v)
        } else {
            None
        }
    }
}

/// The single-character string for a digit value.
fn digit_str(d: u64) -> (r: &'static str)
    requires
        d < 10,
    ensures
        r@ == seq![digit_char(d as int)],
{
    proof {
        reveal_strlit("0");
        reveal_strlit("1");
        reveal_strlit("2");
        reveal_strlit("3");
        reveal_strlit("4");
        reveal_strlit("5");
        reveal_strlit("6");
        reveal_strlit("7");
        reveal_strlit("8");
        reveal_strlit("9");
    }
    if d == 0 {
        "0"
    } else if d == 1 {
        "1"
    } else if d == 2 {
        "2"
    } else if d == 3 {
        "3"
    } else if d == 4 {
        "4"
    } else if d == 5 {
        "5"
    } else if d == 6 {
        "6"
    } else if d == 7 {
        "7"
    } else if d == 8 {
        "8"
    } else {
        "9"
    }
}

/// Appends the decimal digits of `n` to `out`, most significant first.
fn push_decimal_digits(n: u64, out: &mut String)
    ensures
        final(out)@ == old(out)@ + dec_digits(n as int),
    decreases n,
{
    if n < 10 {
        out.append(digit_str(n));
    } else {
        push_decimal_digits(n / 10, out);
        out.append(digit_str(n % 10));
        proof {
            assert(final(out)@ =~= old(out)@ + dec_digits(n as int));
        }
    }
}

impl Amount {
    /// Canonical text of the amount: an optional minus sign, the integer
    /// digits, a point, and exactly four fractional digits.
    pub fn to_text(&self) -> (r: String)
        ensures
            r@ == amount_text(self@),
    {
        let negative = self.scaled < 0;
        let mag: u64 = if self.scaled == i64::MIN {
            9223372036854775808u64
        } else if negative {
            (-self.scaled) as u64
        } else {
            self.scaled as u64
        };
        proof {
            assert(mag as int == if self@ < 0 { -self@ } else { self@ });
        }
        let int_part = mag / 10000;
        let frac_part = mag % 10000;
        let mut out = String::new();
        if negative {
            proof {
                reveal_strlit("-");
            }
            out.append("-");
        }
        push_decimal_digits(int_part, &mut out);
        proof {
            reveal_strlit(".");
        }
        out.append(".");
        out.append(digit_str(frac_part / 1000));
        out.append(digit_str(frac_part / 100 % 10));
        out.append(digit_str(frac_part / 10 % 10));
        out.append(digit_str(frac_part % 10));
        proof {
            assert(out@ =~= amount_text(self@));
        }
        out
    }
}

/// Digit characters denote their values and are digits.
pub proof fn lemma_digit_char_val(d: int)
    requires
        0 <= d <= 9,
    ensures
        is_digit(digit_char(d)),
        digit_val(digit_char(d)) == d,
{
}

/// The canonical digit text of a non-negative number is non-empty, all
/// digits, and denotes the number itself.
pub proof fn lemma_dec_digits(n: int)
    requires
        n >= 0,
    ensures
        all_digits(dec_digits(n)),
        dec_digits(n).len() >= 1,
        digits_val(dec_digits(n)) == n,
    decreases n,
{
    if n < 10 {
        lemma_digit_char_val(n);
        assert(dec_digits(n).drop_last() =~= Seq::<char>::empty());
        assert(dec_digits(n).last() == digit_char(n));
        assert(digits_val(dec_digits(n)) == digits_val(Seq::<char>::empty()) * 10 + digit_val(
            digit_char(n),
        ));
        assert(digits_val(Seq::<char>::empty()) == 0);
    } else {
        lemma_dec_digits(n / 10);
        lemma_digit_char_val(n % 10);
        let prefix = dec_digits(n / 10);
        let c = digit_char(n % 10);
        assert(prefix.push(c).drop_last() =~= prefix);
        assert(prefix.push(c).last() == c);
        assert(n == 10 * (n / 10) + n % 10) by {
            vstd::arithmetic::div_mod::lemma_fundamental_div_mod(n, 10);
        }
        assert forall|i: int| 0 <= i < dec_digits(n).len() implies is_digit(
            #[trigger] dec_digits(n)[i],
        ) by {
            if i < prefix.len() {
                assert(dec_digits(n)[i] == prefix[i]);
            } else {
                assert(dec_digits(n)[i] == c);
            }
        }
    }
}

/// A sequence of digit characters denotes a non-negative number.
pub proof fn lemma_digits_val_nonneg(s: Seq<char>)
    requires
        all_digits(s),
    ensures
        digits_val(s) >= 0,
    decreases s.len(),
{
    if s.len() > 0 {
        assert(all_digits(s.drop_last()));
        lemma_digits_val_nonneg(s.drop_last());
    }
}

/// Reading one more digit multiplies the prefix value by ten and adds the
/// digit.
pub proof fn lemma_digits_val_take_step(s: Seq<char>, k: int)
    requires
        0 <= k < s.len(),
    ensures
        digits_val(s.take(k + 1)) == digits_val(s.take(k)) * 10 + digit_val(s[k]),
{
    assert(s.take(k + 1).drop_last() =~= s.take(k));
    assert(s.take(k + 1).last() == s[k]);
}

/// The value of a digit string is at least the value of any of its
/// prefixes.
pub proof fn lemma_digits_val_take_le(s: Seq<char>, k: int)
    requires
        all_digits(s),
        0 <= k <= s.len(),
    ensures
        digits_val(s.take(k)) <= digits_val(s),
    decreases s.len() - k,
{
    if k < s.len() {
        lemma_digits_val_take_step(s, k);
        assert(all_digits(s.take(k)));
        lemma_digits_val_nonneg(s.take(k));
        lemma_digits_val_take_le(s, k + 1);
    } else {
        assert(s.take(k) =~= s);
    }
}

/// If no character before position `m` is a point, and position `m` either
/// holds one or is the end, then `m` is the dot index.
pub proof fn lemma_dot_index_at(s: Seq<char>, m: int)
    requires
        0 <= m <= s.len(),
        forall|k: int| 0 <= k < m ==> s[k] != '.',
        m < s.len() ==> s[m] == '.',
    ensures
        dot_index(s) == m,
    decreases m,
{
    if m > 0 {
        assert forall|k: int| 0 <= k < m - 1 implies s.drop_first()[k] != '.' by {
            assert(s.drop_first()[k] == s[k + 1]);
        }
        assert(m - 1 < s.drop_first().len() ==> s.drop_first()[m - 1] == '.');
        lemma_dot_index_at(s.drop_first(), m - 1);
    }
}

/// Why a text failed to parse as an amount.
#[derive(Copy, Clone, Debug, PartialEq, Eq)]
pub enum ParseAmountError {
    /// The text is not a well-formed decimal number.
    Invalid,
    /// The denoted value does not fit the fixed-point representation.
    OutOfRange,
}

/// `2^63`: the largest scaled magnitude a (negative) amount can carry.
const MAGNITUDE_LIMIT: u64 = 9223372036854775808;

/// Scales the value of the first `count` fractional digits (`count <= 4`,
/// value below `10^count`) up to the fixed four-digit denominator.
fn pad_to_four_digits(value: u64, count: u64) -> (r: u64)
    requires
        count <= 4,
        (value as int) < pow10(count as int),
    ensures
        r as int == value * pow10(4 - count as int),
        r < 10000,
{
    proof {
        reveal_with_fuel(pow10, 5);
    }
    if count == 0 {
        value * 10000
    } else if count == 1 {
        value * 1000
    } else if count == 2 {
        value * 100
    } else if count == 3 {
        value * 10
    } else {
        value
    }
}

impl Amount {
    /// Parses a decimal string into an `Amount`, rescaling to four
    /// fractional digits; extra fractional digits are truncated.  Fails
    /// with `Invalid` on text that is not a decimal number and with
    /// `OutOfRange` on values outside the representation.
    #[verifier::loop_isolation(false)]
    #[verifier::rlimit(50)]
    pub fn from_str(s: &str) -> (r: Result<Amount, ParseAmountError>)
        ensures
            match r {
                Ok(a) => parse_amount(s@) == Some(a@),
                Err(e) => parse_amount(s@) is None && (e == ParseAmountError::Invalid
                    <==> !well_formed_decimal(s@)),
            },
    {
        let n = s.unicode_len();
        let mut start: usize = 0;
        let mut negative = false;
        if n > 0 {
            let c0 = s.get_char(0);
            if c0 == '-' {
                negative = true;
                start = 1;
            } else if c0 == '+' {
                start = 1;
            }
        }
        assert(start as int == sign_len(s@));
        assert(negative == is_negative_text(s@));
        let ghost b = s@.skip(start as int);

        // position of the first point after the sign, if any
        let mut dot: usize = start;
        while dot < n && s.get_char(dot) != '.'
            invariant
                start <= dot <= n,
                forall|k: int| start <= k < dot ==> s@[k] != '.',
            decreases n - dot,
        {
            dot = dot + 1;
        }
        let ghost d = dot as int - start as int;
        proof {
            assert forall|k: int| 0 <= k < d implies b[k] != '.' by {
                assert(b[k] == s@[k + start]);
            }
            if d < b.len() {
                assert(b[d] == s@[dot as int]);
            }
            lemma_dot_index_at(b, d);
        }
        if dot == start {
            // no integer digits before the point (or an empty body)
            return Err(ParseAmountError::Invalid);
        }

        // every character before the point must be a digit
        let mut i = start;
        while i < dot
            invariant
                start <= i <= dot,
                forall|k: int| start <= k < i ==> is_digit(s@[k]),
            decreases dot - i,
        {
            let c = s.get_char(i);
            let u = c as u32;
            if u < 48 || 57 < u {
                proof {
                    assert(b.take(d)[i - start] == s@[i as int]);
                    assert(!all_digits(b.take(d)));
                }
                return Err(ParseAmountError::Invalid);
            }
            i = i + 1;
        }

        // every character after the point must be a digit
        if dot < n {
            let mut j = dot + 1;
            while j < n
                invariant
                    dot + 1 <= j <= n,
                    forall|k: int| dot + 1 <= k < j ==> is_digit(s@[k]),
                decreases n - j,
            {
                let c = s.get_char(j);
                let u = c as u32;
                if u < 48 || 57 < u {
                    proof {
                        assert(b.skip(d + 1)[j - dot - 1] == s@[j as int]);
                        assert(!all_digits(b.skip(d + 1)));
                    }
                    return Err(ParseAmountError::Invalid);
                }
                j = j + 1;
            }
        }
        proof {
            assert(all_digits(b.take(d))) by {
                assert forall|k: int| 0 <= k < d implies is_digit(#[trigger] b.take(d)[k]) by {
                    assert(b.take(d)[k] == s@[k + start]);
                }
            }
            if d < b.len() {
                assert(all_digits(b.skip(d + 1))) by {
                    assert forall|k: int| 0 <= k < b.skip(d + 1).len() implies is_digit(
                        #[trigger] b.skip(d + 1)[k],
                    ) by {
                        assert(b.skip(d + 1)[k] == s@[k + dot + 1]);
                    }
                }
            }
            assert(well_formed_decimal(s@));
        }

        // value of the first four fractional digits, right padded with zeros
        let ghost frac: Seq<char> = if d < b.len() {
            b.skip(d + 1)
        } else {
            Seq::<char>::empty()
        };
        let ghost f4: Seq<char> = if frac.len() > 4 {
            frac.take(4)
        } else {
            frac
        };
        let mut frac4: u64 = 0;
        let mut f4len: u64 = 0;
        if dot < n {
            let mut j = dot + 1;
            while j < n && f4len < 4
                invariant
                    dot + 1 <= j <= n,
                    f4len as int == j - dot - 1,
                    f4len <= 4,
                    frac4 as int == digits_val(frac.take(f4len as int)),
                    (frac4 as int) < pow10(f4len as int),
                decreases n - j,
            {
                let c = s.get_char(j);
                proof {
                    assert(frac[j - dot - 1] == s@[j as int]);
                    assert(is_digit(s@[j as int]));
                    reveal_with_fuel(pow10, 5);
                }
                let dval = (c as u32 - 48) as u64;
                proof {
                    lemma_digits_val_take_step(frac, j - dot - 1);
                }
                frac4 = frac4 * 10 + dval;
                f4len = f4len + 1;
                j = j + 1;
            }
            proof {
                if f4len == 4 {
                    assert(f4 =~= frac.take(4));
                } else {
                    assert(j == n);
                    assert(f4len as int == frac.len());
                    assert(f4 =~= frac.take(f4len as int));
                }
                assert(frac4 as int == digits_val(f4));
            }
        }
        proof {
            assert(f4.len() == f4len);
            assert(frac4 as int == digits_val(f4));
        }
        let frac_value = pad_to_four_digits(frac4, f4len);
        proof {
            assert(frac_value as int == digits_val(f4) * pow10(4 - f4.len()));
        }

        // value of the integer digits, rejecting magnitudes beyond 2^63
        let ghost intd = b.take(d);
        proof {
            assert(all_digits(intd));
        }
        let mut int_val: u64 = 0;
        let mut p = start;
        while p < dot
            invariant
                start <= p <= dot,
                int_val as int == digits_val(intd.take(p - start as int)),
                int_val <= MAGNITUDE_LIMIT,
            decreases dot - p,
        {
            let c = s.get_char(p);
            proof {
                assert(intd[p - start] == s@[p as int]);
                assert(is_digit(s@[p as int]));
            }
            let dval = (c as u32 - 48) as u64;
            proof {
                vstd::arithmetic::div_mod::lemma_fundamental_div_mod(
                    (MAGNITUDE_LIMIT - dval) as int,
                    10,
                );
                lemma_digits_val_take_step(intd, p - start as int);
            }
            if int_val > (MAGNITUDE_LIMIT - dval) / 10 {
                proof {
                    assert(digits_val(intd.take(p - start + 1)) > MAGNITUDE_LIMIT);
                    lemma_digits_val_take_le(intd, p - start + 1);
                    assert(digits_val(intd) > MAGNITUDE_LIMIT);
                    assert(decimal_magnitude(s@) == digits_val(intd) * 10000 + frac_value);
                    assert(digits_val(intd) * 10000 >= digits_val(intd));
                    assert(decimal_magnitude(s@) > MAGNITUDE_LIMIT);
                }
                return Err(ParseAmountError::OutOfRange);
            }
            int_val = int_val * 10 + dval;
            p = p + 1;
        }
        proof {
            assert(intd.take(d) =~= intd);
            assert(int_val as int == digits_val(intd));
        }

        // combine the two parts, rejecting magnitudes beyond 2^63
        proof {
            vstd::arithmetic::div_mod::lemma_fundamental_div_mod(
                (MAGNITUDE_LIMIT - frac_value) as int,
                10000,
            );
        }
        if int_val > (MAGNITUDE_LIMIT - frac_value) / 10000 {
            proof {
                assert(int_val * 10000 + frac_value > MAGNITUDE_LIMIT);
                assert(decimal_magnitude(s@) > MAGNITUDE_LIMIT);
            }
            return Err(ParseAmountError::OutOfRange);
        }
        let magnitude = int_val * 10000 + frac_value;
        proof {
            assert(magnitude as int == decimal_magnitude(s@));
        }
        if negative {
            if magnitude == MAGNITUDE_LIMIT {
                Ok(Amount { scaled: i64::MIN })
            } else {
                Ok(Amount { scaled: -(magnitude as i64) })
            }
        } else {
            if magnitude >= MAGNITUDE_LIMIT {
                return Err(ParseAmountError::OutOfRange);
            }
            Ok(Amount { scaled: magnitude as i64 })
        }
    }
}

proof fn lemma_digits_val4(c1: char, c2: char, c3: char, c4: char)
    ensures
        digits_val(seq![c1, c2, c3, c4]) == ((digit_val(c1) * 10 + digit_val(c2)) * 10 + digit_val(
            c3,
        )) * 10 + digit_val(c4),
{
    let s4 = seq![c1, c2, c3, c4];
    let s3 = seq![c1, c2, c3];
    let s2 = seq![c1, c2];
    let s1 = seq![c1];
    assert(s4.drop_last() =~= s3);
    assert(s3.drop_last() =~= s2);
    assert(s2.drop_last() =~= s1);
    assert(s1.drop_last() =~= Seq::<char>::empty());
    assert(s4.last() == c4 && s3.last() == c3 && s2.last() == c2 && s1.last() == c1);
    assert(digits_val(Seq::<char>::empty()) == 0);
    assert(digits_val(s1) == digit_val(c1));
    assert(digits_val(s2) == digits_val(s1) * 10 + digit_val(c2));
    assert(digits_val(s3) == digits_val(s2) * 10 + digit_val(c3));
    assert(digits_val(s4) == digits_val(s3) * 10 + digit_val(c4));
}

/// The four padded fractional digits of `n` denote `n` itself.
proof fn lemma_frac_digits4_val(n: int)
    requires
        0 <= n < 10000,
    ensures
        digits_val(frac_digits4(n)) == n,
        all_digits(frac_digits4(n)),
        frac_digits4(n).len() == 4,
{
    vstd::arithmetic::div_mod::lemma_fundamental_div_mod(n, 10);
    vstd::arithmetic::div_mod::lemma_fundamental_div_mod(n / 10, 10);
    vstd::arithmetic::div_mod::lemma_fundamental_div_mod(n / 100, 10);
    vstd::arithmetic::div_mod::lemma_div_denominator(n, 10, 10);
    vstd::arithmetic::div_mod::lemma_div_denominator(n, 100, 10);
    lemma_digit_char_val(n / 1000);
    lemma_digit_char_val(n / 100 % 10);
    lemma_digit_char_val(n / 10 % 10);
    lemma_digit_char_val(n % 10);
    lemma_digits_val4(
        digit_char(n / 1000),
        digit_char(n / 100 % 10),
        digit_char(n / 10 % 10),
        digit_char(n % 10),
    );
    let s = frac_digits4(n);
    assert forall|i: int| 0 <= i < s.len() implies is_digit(#[trigger] s[i]) by {
        if i == 0 {
            assert(s[i] == digit_char(n / 1000));
        } else if i == 1 {
            assert(s[i] == digit_char(n / 100 % 10));
        } else if i == 2 {
            assert(s[i] == digit_char(n / 10 % 10));
        } else {
            assert(s[i] == digit_char(n % 10));
        }
    }
}

/// Printing any representable scaled value and parsing the text back
/// returns exactly that value: the canonical text is lossless.
pub proof fn lemma_text_round_trip(v: int)
    requires
        in_range(v),
    ensures
        parse_amount(amount_text(v)) == Some(v),
{
    let m = if v < 0 {
        -v
    } else {
        v
    };
    let ip = m / 10000;
    let fp = m % 10000;
    vstd::arithmetic::div_mod::lemma_fundamental_div_mod(m, 10000);
    lemma_dec_digits(ip);
    lemma_frac_digits4_val(fp);
    let intd = dec_digits(ip);
    let fr4 = frac_digits4(fp);
    let t = amount_text(v);
    let body = intd + seq!['.'] + fr4;
    if v < 0 {
        assert(t[0] == '-');
        assert(sign_len(t) == 1);
        assert(t.skip(1) =~= body);
    } else {
        assert(t[0] == intd[0]);
        assert(is_digit(intd[0]));
        assert(sign_len(t) == 0);
        assert(t.skip(0) =~= body);
    }
    let b = t.skip(sign_len(t));
    assert(b =~= body);
    let d = intd.len() as int;
    assert forall|k: int| 0 <= k < d implies b[k] != '.' by {
        assert(b[k] == intd[k]);
        assert(is_digit(intd[k]));
    }
    assert(b[d] == '.');
    lemma_dot_index_at(b, d);
    assert(b.take(d) =~= intd);
    assert(b.skip(d + 1) =~= fr4);
    assert(well_formed_decimal(t));
    assert(decimal_magnitude(t) == digits_val(intd) * 10000 + digits_val(fr4) * pow10(0));
    assert(pow10(0) == 1);
    assert(decimal_magnitude(t) == m);
    assert(is_negative_text(t) == (v < 0));
}

/// Every amount is `Amount::spec_new` of its own view; in particular two
/// amounts with equal views are equal.
pub proof fn lemma_amount_from_view(a: Amount)
    ensures
        Amount::spec_new(a@) == a,
{
}

} // verus!
