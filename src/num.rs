//! Numerals of the feed: prices and integer identifiers.

use vstd::prelude::*;

verus! {

pub open spec fn is_digit(c: char) -> bool {
    '0' <= c && c <= '9'
}

pub open spec fn digit_value(c: char) -> int {
    c as int - '0' as int
}

/// The value of a sequence of decimal digits.
pub open spec fn digits_value(s: Seq<char>) -> int
    decreases s.len(),
{
    if s.len() == 0 {
        0
    } else {
        digits_value(s.drop_last()) * 10 + digit_value(s.last())
    }
}

pub open spec fn all_digits(s: Seq<char>) -> bool {
    forall|i: int| 0 <= i < s.len() ==> is_digit(#[trigger] s[i])
}

pub open spec fn pow10(n: nat) -> int
    decreases n,
{
    if n == 0 {
        1
    } else {
        10 * pow10((n - 1) as nat)
    }
}

/// Reads `s` as digits with at most one decimal point among them.
/// Gives the digits' value with the point ignored, the number of digits
/// after the point, and whether a point was seen.
pub open spec fn read_numeral(s: Seq<char>) -> Option<(int, nat, bool)>
    decreases s.len(),
{
    if s.len() == 0 {
        Some((0, 0, false))
    } else {
        match read_numeral(s.drop_last()) {
            None => None,
            Some((v, f, dot)) => {
                let c = s.last();
                if is_digit(c) {
                    Some((v * 10 + digit_value(c), if dot { f + 1 } else { f }, dot))
                } else if c == '.' && !dot {
                    Some((v, f, true))
                } else {
                    None
                }
            },
        }
    }
}

/// `s` is a decimal numeral: digits with at most one point and at least one digit.
pub open spec fn is_decimal(s: Seq<char>) -> bool {
    match read_numeral(s) {
        Some((_, _, dot)) => s.len() > (if dot { 1int } else { 0int }),
        None => false,
    }
}

/// A non-negative decimal amount, `units / 10^scale`, kept in lowest terms
/// so that two equal amounts are equal field by field.
#[derive(Clone, Copy, Debug, PartialEq, Eq, Structural)]
pub struct Price {
    pub units: u64,
    pub scale: u64,
}

impl Price {
    /// In lowest terms: no trailing zero digit after the point.
    pub open spec fn wf(self) -> bool {
        self.scale == 0 || self.units % 10 != 0
    }

    /// This amount is `mantissa / 10^frac`.
    pub open spec fn denotes(self, mantissa: int, frac: nat) -> bool {
        self.scale <= frac && self.units * pow10((frac - self.scale) as nat) == mantissa
    }
}

/// The numeral of a price text: the text without a leading `+`.
pub open spec fn price_numeral(s: Seq<char>) -> Seq<char> {
    if s.len() > 0 && s[0] == '+' {
        s.skip(1)
    } else {
        s
    }
}

/// What `parse_price` gives for `s`: the amount that its numeral denotes.
pub open spec fn price_spec(s: Seq<char>, p: Option<Price>) -> bool {
    numeral_price_spec(price_numeral(s), p)
}

/// The amount that the numeral `s` denotes, in lowest terms, where its
/// digits fit in 64 bits.
pub open spec fn numeral_price_spec(s: Seq<char>, p: Option<Price>) -> bool {
    match p {
        Some(p) => is_decimal(s) && read_numeral(s).unwrap().0 <= u64::MAX && p.wf() && p.denotes(
            read_numeral(s).unwrap().0,
            read_numeral(s).unwrap().1,
        ),
        None => !is_decimal(s) || read_numeral(s).unwrap().0 > u64::MAX,
    }
}

proof fn lemma_read_numeral_chars(s: Seq<char>, i: int)
    requires
        read_numeral(s) is Some,
        0 <= i < s.len(),
    ensures
        is_digit(s[i]) || s[i] == '.',
    decreases s.len(),
{
    if i < s.len() - 1 {
        lemma_read_numeral_chars(s.drop_last(), i);
    }
}

/// Reading a longer prefix never fails where the whole succeeds, and the
/// value only grows.
proof fn lemma_read_numeral_prefix(s: Seq<char>, j: int)
    requires
        read_numeral(s) is Some,
        0 <= j <= s.len(),
    ensures
        read_numeral(s.take(j)) is Some,
        read_numeral(s.take(j)).unwrap().0 <= read_numeral(s).unwrap().0,
        0 <= read_numeral(s.take(j)).unwrap().0,
    decreases s.len(),
{
    if j == s.len() {
        assert(s.take(j) =~= s);
        lemma_read_numeral_nonneg(s);
    } else {
        assert(s.drop_last().take(j) =~= s.take(j));
        lemma_read_numeral_prefix(s.drop_last(), j);
        lemma_read_numeral_nonneg(s.drop_last());
    }
}

proof fn lemma_read_numeral_nonneg(s: Seq<char>)
    requires
        read_numeral(s) is Some,
    ensures
        read_numeral(s).unwrap().0 >= 0,
    decreases s.len(),
{
    if s.len() > 0 {
        lemma_read_numeral_nonneg(s.drop_last());
    }
}

/// Parses a price: an optional `+`, then digits with at most one decimal
/// point and at least one digit (`"10"`, `"+10.50"`, `".5"`). Prices are
/// never negative, and the feed writes them without exponent, so neither a
/// `-`, an exponent (`"1e3"`), `inf`, `NaN` nor a blank is accepted; nor a
/// numeral whose digits, point aside, exceed 64 bits.
pub fn parse_price(s: &str) -> (r: Option<Price>)
    ensures
        price_spec(s@, r),
{
    if !s.is_ascii() {
        proof {
            let k = choose|k: int| 0 <= k < s@.len() && !('\0' <= #[trigger] s@[k] <= '\u{7f}');
            let t = price_numeral(s@);
            let k2 = if s@.len() > 0 && s@[0] == '+' { k - 1 } else { k };
            assert(t[k2] == s@[k]);
            if read_numeral(t) is Some {
                lemma_read_numeral_chars(t, k2);
            }
        }
        return None;
    }
    let n = s.unicode_len();
    if n > 0 && s.get_ascii(0) == 43 {
        let t = s.substring_ascii(1, n);
        proof {
            assert(t@ =~= s@.skip(1));
        }
        return parse_numeral_price(t);
    }
    parse_numeral_price(s)
}

fn parse_numeral_price(s: &str) -> (r: Option<Price>)
    ensures
        numeral_price_spec(s@, r),
{
    if !s.is_ascii() {
        proof {
            let k = choose|k: int| 0 <= k < s@.len() && !('\0' <= #[trigger] s@[k] <= '\u{7f}');
            if read_numeral(s@) is Some {
                lemma_read_numeral_chars(s@, k);
            }
        }
        return None;
    }
    let n = s.unicode_len();
    let mut units: u64 = 0;
    let mut frac: u64 = 0;
    let mut dot = false;
    let mut i: usize = 0;
    while i < n
        invariant
            n == s@.len(),
            s.is_ascii(),
            0 <= i <= n,
            read_numeral(s@.take(i as int)) == Some((units as int, frac as nat, dot)),
            frac <= i,
        decreases n - i,
    {
        let b = s.get_ascii(i);
        let ghost t = s@.take(i as int + 1);
        proof {
            assert(t.drop_last() =~= s@.take(i as int));
            assert(t.last() == s@[i as int]);
        }
        if b >= 48 && b <= 57 {
            let d = (b - 48) as u64;
            let next = match units.checked_mul(10) {
                Some(m) => m.checked_add(d),
                None => None,
            };
            match next {
                Some(v) => {
                    units = v;
                    if dot {
                        frac = frac + 1;
                    }
                },
                None => {
                    proof {
                        assert(read_numeral(t).unwrap().0 > u64::MAX);
                        if read_numeral(s@) is Some {
                            lemma_read_numeral_prefix(s@, i as int + 1);
                        }
                    }
                    return None;
                },
            }
        } else if b == 46 && !dot {
            dot = true;
        } else {
            proof {
                assert(read_numeral(t) is None);
                if read_numeral(s@) is Some {
                    lemma_read_numeral_prefix(s@, i as int + 1);
                }
            }
            return None;
        }
        i = i + 1;
    }
    proof {
        assert(s@.take(n as int) =~= s@);
    }
    if n == 0 || (dot && n == 1) {
        return None;
    }
    let mut scale = frac;
    while scale > 0 && units % 10 == 0
        invariant
            scale <= frac,
            units * pow10((frac - scale) as nat) == read_numeral(s@).unwrap().0,
        decreases scale,
    {
        proof {
            let e = (frac - scale) as nat;
            assert(pow10(e + 1) == 10 * pow10(e));
            assert((units / 10) * pow10(e + 1) == units * pow10(e)) by (nonlinear_arith)
                requires
                    units % 10 == 0,
                    pow10(e + 1) == 10 * pow10(e),
            ;
        }
        units = units / 10;
        scale = scale - 1;
    }
    Some(Price { units, scale })
}

/// Reads `s` as an integer: an optional `+` or `-`, then one digit or more.
pub open spec fn integer_value(s: Seq<char>) -> Option<int> {
    if s.len() > 0 && (s[0] == '+' || s[0] == '-') {
        let d = s.skip(1);
        if d.len() > 0 && all_digits(d) {
            Some(if s[0] == '-' { -digits_value(d) } else { digits_value(d) })
        } else {
            None
        }
    } else if s.len() > 0 && all_digits(s) {
        Some(digits_value(s))
    } else {
        None
    }
}

/// What `parse_category_id` gives for `s`: its integer value where that fits in `i32`.
pub open spec fn category_id_spec(s: Seq<char>) -> Option<i32> {
    match integer_value(s) {
        Some(v) => if i32::MIN <= v <= i32::MAX {
            Some(v as i32)
        } else {
            None
        },
        None => None,
    }
}

proof fn lemma_digits_value_prefix(s: Seq<char>, j: int)
    requires
        all_digits(s),
        0 <= j <= s.len(),
    ensures
        0 <= digits_value(s.take(j)) <= digits_value(s),
    decreases s.len(),
{
    if j == s.len() {
        assert(s.take(j) =~= s);
        lemma_digits_value_nonneg(s);
    } else {
        assert(s.drop_last().take(j) =~= s.take(j));
        lemma_digits_value_prefix(s.drop_last(), j);
        lemma_digits_value_nonneg(s.drop_last());
    }
}

proof fn lemma_digits_value_nonneg(s: Seq<char>)
    requires
        all_digits(s),
    ensures
        digits_value(s) >= 0,
    decreases s.len(),
{
    if s.len() > 0 {
        lemma_digits_value_nonneg(s.drop_last());
    }
}

/// Parses a category identifier: an optional sign and decimal digits, no
/// blank, within the range of `i32`.
pub fn parse_category_id(s: &str) -> (r: Option<i32>)
    ensures
        r == category_id_spec(s@),
{
    let ghost sv = s@;
    if !s.is_ascii() {
        proof {
            let k = choose|k: int| 0 <= k < sv.len() && !('\0' <= #[trigger] sv[k] <= '\u{7f}');
            if integer_value(sv) is Some && k > 0 {
                assert(sv.skip(1)[k - 1] == sv[k]);
            }
        }
        return None;
    }
    let n = s.unicode_len();
    if n == 0 {
        return None;
    }
    let first = s.get_ascii(0);
    let negative = first == 45;
    let start: usize = if first == 43 || first == 45 { 1 } else { 0 };
    let ghost d = sv.skip(start as int);
    proof {
        assert(first == 45 <==> sv[0] == '-');
        assert(first == 43 <==> sv[0] == '+');
        if start == 0 {
            assert(d =~= sv);
        }
    }
    if start == n {
        return None;
    }
    let mut value: u64 = 0;
    let mut i: usize = start;
    while i < n
        invariant
            n == sv.len(),
            sv == s@,
            s.is_ascii(),
            start <= i <= n,
            start < n,
            start == 1 <==> (sv[0] == '+' || sv[0] == '-'),
            start == 0 || start == 1,
            d == sv.skip(start as int),
            all_digits(d.take(i - start)),
            value == digits_value(d.take(i - start)),
            value <= 2147483648,
        decreases n - i,
    {
        let b = s.get_ascii(i);
        let ghost t = d.take(i - start + 1);
        proof {
            assert(t.drop_last() =~= d.take(i - start));
            assert(t.last() == sv[i as int]);
        }
        if b < 48 || b > 57 {
            proof {
                assert(!is_digit(d[i - start]));
                assert(!all_digits(d));
            }
            return None;
        }
        value = value * 10 + (b - 48) as u64;
        proof {
            assert(d[i - start] == sv[i as int]);
            assert(digit_value(t.last()) == (b - 48) as int);
            assert(digits_value(t) == value);
            assert(all_digits(t));
        }
        if value > 2147483648 {
            proof {
                if start == 0 {
                    assert(d =~= sv);
                }
                if all_digits(d) {
                    lemma_digits_value_prefix(d, i - start + 1);
                }
                assert(digits_value(t) == value);
            }
            return None;
        }
        i = i + 1;
    }
    proof {
        assert(d.take(n - start) =~= d);
    }
    if negative {
        Some((0 - value as i64) as i32)
    } else if value > 2147483647 {
        None
    } else {
        Some(value as i32)
    }
}

} // verus!
