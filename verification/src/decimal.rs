//! Fixed-point decimal values.
//!
//! Catalog prices, volumes and percentages are decimal numbers. The library
//! holds such a number as an integer count of ten-thousandths (four decimal
//! places), which keeps every catalog value of interest exact and lets every
//! derivation be stated and proved over the integers.
//!
//! Rounding is "round half away from zero", applied when a value is reduced
//! to two decimal places: after each multiplicative or divisive derivation
//! step, and when a value is rendered as two-decimal text.

use vstd::prelude::*;
use vstd::arithmetic::div_mod::{
    lemma_div_decreases, lemma_div_is_ordered, lemma_div_pos_is_pos,
    lemma_fundamental_div_mod_converse,
};
use vstd::arithmetic::mul::lemma_mul_inequality;
use vstd::string::*;

verus! {

/// Number of units per 1.0: four decimal places.
pub const DEC_SCALE: i128 = 10_000;

/// Largest magnitude, in units, that a parsed decimal may have
/// (nine integer digits and four fraction digits).
pub const PARSE_MAX: i128 = 10_000_000_000_000;

/// Largest magnitude, in units, accepted by the derivation operations.
pub const DERIVE_MAX: i128 = 10_000_000_000_000_000;

/// Largest magnitude accepted by the raw rounding-division helper.
pub const RHA_MAX: i128 = 1_000_000_000_000_000_000_000_000_000_000_000_000;

/// The rational n / d (with d > 0) rounded to the nearest integer,
/// halves away from zero.
pub open spec fn rha_div(n: int, d: int) -> int
    recommends
        0 < d,
{
    if n >= 0 {
        (2 * n + d) / (2 * d)
    } else {
        -((2 * (-n) + d) / (2 * d))
    }
}

/// A value of `u` units rounded to two decimal places, in units.
pub open spec fn round2_units(u: int) -> int {
    rha_div(u, 100) * 100
}

/// Units of round2(A * B * 100), where A and B are the values of `a` and
/// `b` units: A * B * 100 in hundredths is a * b / DEC_SCALE.
pub open spec fn mul100_units(a: int, b: int) -> int {
    rha_div(a * b, 10_000) * 100
}

/// Units of round2(P / C * 100), where P and C are the values of `p` and
/// `c` units: P / C * 100 in hundredths is p * DEC_SCALE / c.
pub open spec fn div100_units(p: int, c: int) -> int
    recommends
        c != 0,
{
    if c > 0 {
        rha_div(10_000 * p, c) * 100
    } else {
        rha_div(-(10_000 * p), -c) * 100
    }
}

/// The character for one decimal digit.
pub open spec fn digit_char(d: int) -> char {
    if d == 0 {
        '0'
    } else if d == 1 {
        '1'
    } else if d == 2 {
        '2'
    } else if d == 3 {
        '3'
    } else if d == 4 {
        '4'
    } else if d == 5 {
        '5'
    } else if d == 6 {
        '6'
    } else if d == 7 {
        '7'
    } else if d == 8 {
        '8'
    } else {
        '9'
    }
}

/// The decimal digits of `n`, most significant first; empty for `n <= 0`.
pub open spec fn digit_seq(n: int) -> Seq<char>
    decreases n,
{
    if n <= 0 {
        Seq::empty()
    } else {
        digit_seq(n / 10).push(digit_char(n % 10))
    }
}

/// The decimal text of a nonnegative integer (`"0"` for zero).
pub open spec fn number_str(n: int) -> Seq<char> {
    if n <= 0 {
        seq!['0']
    } else {
        digit_seq(n)
    }
}

/// The two-decimal text of a value of `u` units: the value rounded half
/// away from zero to hundredths, written with a sign for negative results,
/// the whole part, a point, and exactly two fraction digits.
pub open spec fn two_dec_str(u: int) -> Seq<char> {
    let q = rha_div(u, 100);
    let c = if q >= 0 {
        q
    } else {
        -q
    };
    let sign: Seq<char> = if q < 0 {
        seq!['-']
    } else {
        Seq::empty()
    };
    sign + number_str(c / 100) + seq!['.', digit_char((c / 10) % 10), digit_char(c % 10)]
}

/// A decimal number, held as `units` ten-thousandths of one.
#[derive(Clone, Copy, Debug, PartialEq, Eq, Structural)]
pub struct Decimal {
    pub units: i128,
}

impl View for Decimal {
    type V = int;

    open spec fn view(&self) -> int {
        self.units as int
    }
}

/// Law: rounding to two decimal places is idempotent.
/// For every value, `round2(round2(x)) == round2(x)`.
pub proof fn lemma_round2_idempotent(u: int)
    ensures
        round2_units(round2_units(u)) == round2_units(u),
{
    let q = rha_div(u, 100);
    if q * 100 >= 0 {
        lemma_fundamental_div_mod_converse(2 * (q * 100) + 100, 200, q, 100);
    } else {
        lemma_fundamental_div_mod_converse(2 * (-(q * 100)) + 100, 200, -q, 100);
    }
}

/// n / d (d > 0) rounded to the nearest integer, halves away from zero.
pub(crate) fn rha_div_exec(n: i128, d: i128) -> (r: i128)
    requires
        0 < d <= RHA_MAX,
        -RHA_MAX <= n <= RHA_MAX,
    ensures
        r == rha_div(n as int, d as int),
        0 <= n ==> 0 <= r <= n,
        n < 0 ==> n <= r <= 0,
{
    let du = d as u128;
    if n >= 0 {
        let m = n as u128;
        let q = (2 * m + du) / (2 * du);
        proof {
            let mi = m as int;
            let di = du as int;
            lemma_div_pos_is_pos(2 * mi + di, 2 * di);
            lemma_mul_inequality(2, 2 * di, mi);
            lemma_div_is_ordered(2 * mi + di, 2 * di * mi + di, 2 * di);
            lemma_fundamental_div_mod_converse(2 * di * mi + di, 2 * di, mi, di);
        }
        q as i128
    } else {
        let m = (-n) as u128;
        let q = (2 * m + du) / (2 * du);
        proof {
            let mi = m as int;
            let di = du as int;
            lemma_div_pos_is_pos(2 * mi + di, 2 * di);
            lemma_mul_inequality(2, 2 * di, mi);
            lemma_div_is_ordered(2 * mi + di, 2 * di * mi + di, 2 * di);
            lemma_fundamental_div_mod_converse(2 * di * mi + di, 2 * di, mi, di);
        }
        -(q as i128)
    }
}

impl Decimal {
    /// The decimal zero.
    pub fn zero() -> (r: Decimal)
        ensures
            r@ == 0,
    {
        Decimal { units: 0 }
    }

    /// A decimal from a raw unit count.
    pub fn from_units(u: i128) -> (r: Decimal)
        ensures
            r@ == u as int,
    {
        Decimal { units: u }
    }

    /// Whether the value is exactly zero.
    pub fn is_zero(&self) -> (r: bool)
        ensures
            r <==> self@ == 0,
    {
        self.units == 0
    }

    /// The value rounded to two decimal places, halves away from zero.
    pub fn round2(&self) -> (r: Decimal)
        requires
            -DERIVE_MAX <= self@ <= DERIVE_MAX,
        ensures
            r@ == round2_units(self@),
    {
        let q = rha_div_exec(self.units, 100);
        Decimal { units: q * 100 }
    }

    /// round2(self * other * 100): the derived absolute quantity when
    /// `self` is a fraction and `other` a volume.
    pub fn mul100_round2(&self, other: &Decimal) -> (r: Decimal)
        requires
            -DERIVE_MAX <= self@ <= DERIVE_MAX,
            -DERIVE_MAX <= other@ <= DERIVE_MAX,
        ensures
            r@ == mul100_units(self@, other@),
            -RHA_MAX <= r@ <= RHA_MAX,
    {
        proof {
            assert(-RHA_MAX <= self@ * other@ <= RHA_MAX) by (nonlinear_arith)
                requires
                    -DERIVE_MAX <= self@ <= DERIVE_MAX,
                    -DERIVE_MAX <= other@ <= DERIVE_MAX,
            ;
        }
        let p = self.units * other.units;
        let q = rha_div_exec(p, 10_000);
        Decimal { units: q * 100 }
    }

    /// round2(self / c * 100): the derived unit price when `self` is a
    /// price and `c` a nonzero quantity.
    pub fn div100_round2(&self, c: &Decimal) -> (r: Decimal)
        requires
            c@ != 0,
            -DERIVE_MAX <= self@ <= DERIVE_MAX,
            -RHA_MAX <= c@ <= RHA_MAX,
        ensures
            r@ == div100_units(self@, c@),
            -RHA_MAX <= r@ <= RHA_MAX,
    {
        let n = if c.units > 0 {
            self.units * 10_000
        } else {
            -(self.units * 10_000)
        };
        let d = if c.units > 0 {
            c.units
        } else {
            -c.units
        };
        let q = rha_div_exec(n, d);
        Decimal { units: q * 100 }
    }

    /// The two-decimal text of the value.
    pub fn to_2dp_string(&self) -> (r: String)
        requires
            -RHA_MAX <= self@ <= RHA_MAX,
        ensures
            r@ == two_dec_str(self@),
    {
        let q = rha_div_exec(self.units, 100);
        let c: u128 = if q < 0 {
            (-q) as u128
        } else {
            q as u128
        };
        let mut s = if q < 0 {
            proof {
                reveal_strlit("-");
            }
            String::from_str("-")
        } else {
            String::new()
        };
        let whole = number_string(c / 100);
        s.append(whole.as_str());
        proof {
            reveal_strlit(".");
        }
        s.append(".");
        s.append(digit_str((c / 10) % 10));
        s.append(digit_str(c % 10));
        proof {
            assert(s@ =~= two_dec_str(self@));
        }
        s
    }
}

/// The one-character string for a digit value.
fn digit_str(d: u128) -> (r: &'static str)
    requires
        d <= 9,
    ensures
        r@ == seq![digit_char(d as int)],
{
    proof {
        reveal_strlit("0");
        reveal_strlit("1");
        reveal_strlit("2");
        reveal_strlit("3");
        reveal_strlit("4");
        reveal_strlit("5");
        reveal_strlit("6");
        reveal_strlit("7");
        reveal_strlit("8");
        reveal_strlit("9");
    }
    let r: &'static str = if d == 0 {
        "0"
    } else if d == 1 {
        "1"
    } else if d == 2 {
        "2"
    } else if d == 3 {
        "3"
    } else if d == 4 {
        "4"
    } else if d == 5 {
        "5"
    } else if d == 6 {
        "6"
    } else if d == 7 {
        "7"
    } else if d == 8 {
        "8"
    } else {
        "9"
    };
    proof {
        assert(r@ =~= seq![digit_char(d as int)]);
    }
    r
}

/// The digits of a positive integer, most significant first.
fn pos_digits_string(n: u128) -> (r: String)
    requires
        0 < n,
    ensures
        r@ == digit_seq(n as int),
    decreases n,
{
    let q = n / 10;
    let d = n % 10;
    let mut s = if q > 0 {
        proof {
            lemma_div_decreases(n as int, 10);
        }
        pos_digits_string(q)
    } else {
        String::new()
    };
    s.append(digit_str(d));
    proof {
        assert(digit_seq(0) =~= Seq::<char>::empty());
        assert(s@ =~= digit_seq(n as int));
    }
    s
}

/// The decimal text of a nonnegative integer.
pub(crate) fn number_string(n: u128) -> (r: String)
    ensures
        r@ == number_str(n as int),
{
    if n == 0 {
        proof {
            reveal_strlit("0");
        }
        let r = String::from_str("0");
        proof {
            assert(r@ =~= seq!['0']);
        }
        r
    } else {
        pos_digits_string(n)
    }
}

} // verus!
