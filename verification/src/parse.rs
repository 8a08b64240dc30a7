//! Parsing decimal text into fixed-point values.
//!
//! Catalog prices and volumes arrive as decimal text (`"249.9"`), and the
//! percentage rule reads text such as `"12,5"`. A parsed number has an
//! optional leading minus, one to nine integer digits, and optionally a
//! point followed by one to four fraction digits — the granularity the
//! fixed-point representation holds exactly. Anything else is rejected,
//! and callers substitute their defensive default.

use vstd::prelude::*;
use vstd::string::*;
use crate::decimal::{Decimal, PARSE_MAX};

verus! {

/// Ten to the power `k` (one for `k <= 0`).
pub open spec fn pow10(k: int) -> int
    decreases k,
{
    if k <= 0 {
        1
    } else {
        10 * pow10(k - 1)
    }
}

/// Whether `c` is a decimal digit.
pub open spec fn is_digit(c: char) -> bool {
    '0' <= c && c <= '9'
}

/// The value of a digit character.
pub open spec fn digit_val(c: char) -> int {
    c as int - '0' as int
}

/// Whether every character of `s` is a decimal digit.
pub open spec fn all_digits(s: Seq<char>) -> bool {
    forall|j: int| 0 <= j < s.len() ==> is_digit(s[j])
}

/// The number denoted by a digit string, most significant digit first.
pub open spec fn digits_val(s: Seq<char>) -> int
    decreases s.len(),
{
    if s.len() == 0 {
        0
    } else {
        digits_val(s.drop_last()) * 10 + digit_val(s.last())
    }
}

/// The index of the first `'.'` in `s`, or `s.len()` if there is none.
pub open spec fn first_dot(s: Seq<char>) -> int
    decreases s.len(),
{
    if s.len() == 0 {
        0
    } else if s[0] == '.' {
        0
    } else {
        1 + first_dot(s.skip(1))
    }
}

/// `','` replaced by `'.'`; every other character unchanged.
pub open spec fn comma_to_dot(c: char) -> char {
    if c == ',' {
        '.'
    } else {
        c
    }
}

/// `s` with every decimal comma normalized to a decimal point.
pub open spec fn normalize_commas(s: Seq<char>) -> Seq<char> {
    s.map_values(|c: char| comma_to_dot(c))
}

/// The units denoted by unsigned decimal text: one to nine integer digits,
/// optionally a point and one to four fraction digits.
pub open spec fn parse_unsigned_units(s: Seq<char>) -> Option<int> {
    let dp = first_dot(s);
    if dp == s.len() {
        if 1 <= s.len() <= 9 && all_digits(s) {
            Some(digits_val(s) * 10_000)
        } else {
            None
        }
    } else {
        let ip = s.take(dp);
        let fp = s.skip(dp + 1);
        if 1 <= ip.len() <= 9 && all_digits(ip) && 1 <= fp.len() <= 4 && all_digits(fp) {
            Some(digits_val(ip) * 10_000 + digits_val(fp) * pow10(4 - fp.len()))
        } else {
            None
        }
    }
}

/// The units denoted by decimal text with an optional leading minus.
pub open spec fn parse_decimal_units(s: Seq<char>) -> Option<int> {
    if s.len() > 0 && s[0] == '-' {
        match parse_unsigned_units(s.skip(1)) {
            Some(u) => Some(-u),
            None => None,
        }
    } else {
        parse_unsigned_units(s)
    }
}

/// What `parse_decimal_text` accepts: the text itself, or the text with
/// decimal commas read as decimal points.
pub open spec fn parsed_text(s: Seq<char>, commas: bool) -> Option<int> {
    if commas {
        parse_decimal_units(normalize_commas(s))
    } else {
        parse_decimal_units(s)
    }
}

proof fn lemma_first_dot_le(s: Seq<char>)
    ensures
        0 <= first_dot(s) <= s.len(),
    decreases s.len(),
{
    if s.len() != 0 && s[0] != '.' {
        lemma_first_dot_le(s.skip(1));
    }
}

proof fn lemma_first_dot_at(s: Seq<char>, k: int)
    requires
        0 <= k <= s.len(),
        forall|j: int| 0 <= j < k ==> s[j] != '.',
        k < s.len() ==> s[k] == '.',
    ensures
        first_dot(s) == k,
    decreases s.len(),
{
    if k == 0 {
    } else {
        assert(s[0] != '.');
        lemma_first_dot_at(s.skip(1), k - 1);
    }
}

proof fn lemma_first_dot_min(s: Seq<char>, k: int)
    requires
        0 <= k <= s.len(),
        forall|j: int| 0 <= j < k ==> s[j] != '.',
    ensures
        first_dot(s) >= k,
    decreases s.len(),
{
    lemma_first_dot_le(s);
    if k > 0 {
        assert(s[0] != '.');
        lemma_first_dot_min(s.skip(1), k - 1);
    }
}

proof fn lemma_first_dot_is_dot(s: Seq<char>)
    requires
        first_dot(s) < s.len(),
    ensures
        s[first_dot(s)] == '.',
    decreases s.len(),
{
    if s.len() == 0 {
    } else if s[0] == '.' {
    } else {
        assert(first_dot(s) == 1 + first_dot(s.skip(1)));
        lemma_first_dot_le(s.skip(1));
        lemma_first_dot_is_dot(s.skip(1));
        assert(s.skip(1)[first_dot(s.skip(1))] == s[1 + first_dot(s.skip(1))]);
    }
}

proof fn lemma_frac_scaled_bound(fpv: int, fpd: int)
    requires
        1 <= fpd <= 4,
        0 <= fpv < pow10(fpd),
    ensures
        0 <= fpv * pow10(4 - fpd) < 10000,
{
    lemma_pow10_vals();
    if fpd == 1 {
        assert(fpv * pow10(3) == fpv * 1000);
        assert(fpv * 1000 <= 9 * 1000);
    } else if fpd == 2 {
        assert(fpv * pow10(2) == fpv * 100);
        assert(fpv * 100 <= 99 * 100);
    } else if fpd == 3 {
        assert(fpv * pow10(1) == fpv * 10);
        assert(fpv * 10 <= 999 * 10);
    } else {
        assert(fpv * pow10(0) == fpv * 1);
    }
}

proof fn lemma_digits_val_bound(s: Seq<char>)
    requires
        all_digits(s),
    ensures
        0 <= digits_val(s) < pow10(s.len() as int),
    decreases s.len(),
{
    if s.len() == 0 {
    } else {
        assert(all_digits(s.drop_last()));
        lemma_digits_val_bound(s.drop_last());
        assert(is_digit(s.last()));
        assert(pow10(s.len() as int) == 10 * pow10(s.len() as int - 1));
    }
}

proof fn lemma_pow10_vals()
    ensures
        pow10(0) == 1,
        pow10(1) == 10,
        pow10(2) == 100,
        pow10(3) == 1000,
        pow10(4) == 10000,
        pow10(8) == 100000000,
        pow10(9) == 1000000000,
{
    reveal_with_fuel(pow10, 11);
}

proof fn lemma_pow10_pos(k: int)
    ensures
        pow10(k) >= 1,
    decreases k,
{
    if k > 0 {
        lemma_pow10_pos(k - 1);
    }
}

proof fn lemma_pow10_mono(a: int, c: int)
    requires
        a <= c,
    ensures
        pow10(a) <= pow10(c),
    decreases c,
{
    if a < c && c > 0 {
        lemma_pow10_mono(a, c - 1);
        assert(pow10(c) == 10 * pow10(c - 1));
        lemma_pow10_pos(c - 1);
    }
}

/// The character of `s` at `i`, with a comma read as a point when asked.
fn norm_char_at(s: &str, i: usize, commas: bool) -> (c: char)
    requires
        i < s@.len(),
    ensures
        c == (if commas {
            comma_to_dot(s@[i as int])
        } else {
            s@[i as int]
        }),
{
    let c0 = s.get_char(i);
    if commas && c0 == ',' {
        '.'
    } else {
        c0
    }
}

/// Whether `c` is a decimal digit.
fn is_digit_char(c: char) -> (r: bool)
    ensures
        r == is_digit(c),
{
    c >= '0' && c <= '9'
}

/// Ten to a small power.
fn pow10_small(k: u64) -> (r: u64)
    requires
        k <= 4,
    ensures
        r as int == pow10(k as int),
{
    proof {
        lemma_pow10_vals();
    }
    if k == 0 {
        1
    } else if k == 1 {
        10
    } else if k == 2 {
        100
    } else if k == 3 {
        1000
    } else {
        10000
    }
}

/// Parse decimal text into a fixed-point value; with `commas`, a decimal
/// comma is accepted in place of the decimal point. The accepted grammar
/// is exactly what the representation holds: an optional minus, one to
/// nine integer digits, and optionally a point with one to four fraction
/// digits — no exponent form, no wider precision. Returns `None` on
/// anything else, and a value within the parse bound otherwise.
#[verifier::loop_isolation(false)]
#[verifier::rlimit(100)]
#[verifier::spinoff_prover]
pub fn parse_decimal_text(s: &str, commas: bool) -> (r: Option<Decimal>)
    ensures
        (r is Some) <==> (parsed_text(s@, commas) is Some),
        r matches Some(d) ==> parsed_text(s@, commas) == Some(d@) && -PARSE_MAX <= d@ <= PARSE_MAX,
{
    let ghost t: Seq<char> = if commas {
        normalize_commas(s@)
    } else {
        s@
    };
    proof {
        assert(t.len() == s@.len());
        lemma_pow10_vals();
    }
    let n = s.unicode_len();
    let mut i: usize = 0;
    let mut neg = false;
    if n > 0 && norm_char_at(s, 0, commas) == '-' {
        neg = true;
        i = 1;
    }
    let start = i;
    let ghost b: Seq<char> = if neg {
        t.skip(1)
    } else {
        t
    };
    proof {
        assert(b.len() == n - start);
        assert(neg <==> (t.len() > 0 && t[0] == '-'));
    }
    // Integer digits: at most nine.
    let mut ipv: u64 = 0;
    while i < n && i - start < 9 && is_digit_char(norm_char_at(s, i, commas))
        invariant
            start <= i <= n,
            i - start <= 9,
            forall|j: int| start <= j < i ==> is_digit(t[j]),
            ipv == digits_val(t.subrange(start as int, i as int)),
            ipv < pow10(i - start),
        decreases n - i,
    {
        let c = norm_char_at(s, i, commas);
        let d = (c as u32 - '0' as u32) as u64;
        proof {
            lemma_pow10_vals();
            lemma_pow10_mono(i - start, 8);
            let pre = t.subrange(start as int, i as int);
            let post = t.subrange(start as int, i as int + 1);
            assert(post.drop_last() =~= pre);
            assert(post.last() == t[i as int]);
            assert(digit_val(t[i as int]) == d);
            assert(pow10(i - start + 1) == 10 * pow10(i - start));
        }
        ipv = ipv * 10 + d;
        i += 1;
    }
    let ipd = i - start;
    proof {
        assert(forall|j: int| 0 <= j < ipd ==> is_digit(b[j]) && b[j] != '.');
    }
    if ipd == 0 {
        // No integer digit: the text cannot denote a number.
        proof {
            lemma_no_parse_empty_or_nondigit(b);
        }
        return None;
    }
    let mut fpv: u64 = 0;
    let mut fpd: u64 = 0;
    let mut saw_dot = false;
    if i < n && norm_char_at(s, i, commas) == '.' {
        saw_dot = true;
        i += 1;
        let fstart = i;
        proof {
            assert(b[ipd as int] == '.');
        }
        while i < n && i - fstart < 4 && is_digit_char(norm_char_at(s, i, commas))
            invariant
                fstart <= i <= n,
                i - fstart <= 4,
                forall|j: int| fstart <= j < i ==> is_digit(t[j]),
                fpv == digits_val(t.subrange(fstart as int, i as int)),
                fpv < pow10(i - fstart),
            decreases n - i,
        {
            let c = norm_char_at(s, i, commas);
            let d = (c as u32 - '0' as u32) as u64;
            proof {
                lemma_pow10_vals();
                lemma_pow10_mono(i - fstart, 3);
                let pre = t.subrange(fstart as int, i as int);
                let post = t.subrange(fstart as int, i as int + 1);
                assert(post.drop_last() =~= pre);
                assert(post.last() == t[i as int]);
                assert(digit_val(t[i as int]) == d);
                assert(pow10(i - fstart + 1) == 10 * pow10(i - fstart));
            }
            fpv = fpv * 10 + d;
            i += 1;
        }
        fpd = (i - fstart) as u64;
        if fpd == 0 {
            // A point with no fraction digit after it.
            proof {
                lemma_dot_no_frac(b, ipd as int);
            }
            return None;
        }
    }
    if i < n {
        // Trailing characters the grammar does not accept.
        proof {
            if !saw_dot {
                lemma_reject_after_int(b, ipd as int);
            } else {
                lemma_reject_after_frac(b, ipd as int, (i - start) as int);
            }
        }
        return None;
    }
    proof {
        lemma_parse_accepts(
            t,
            neg,
            start as int,
            n as int,
            ipd as int,
            saw_dot,
            ipv as int,
            fpv as int,
            fpd as int,
        );
        lemma_pow10_vals();
    }
    // Success: assemble the units.
    let units64: u64 = if saw_dot {
        ipv * 10_000 + fpv * pow10_small(4 - fpd)
    } else {
        ipv * 10_000
    };
    let units: i128 = if neg {
        -(units64 as i128)
    } else {
        units64 as i128
    };
    proof {
        assert(parsed_text(s@, commas) == Some(units as int));
        assert(-PARSE_MAX <= units as int <= PARSE_MAX);
    }
    Some(Decimal { units })
}

/// Text that scanned as sign, integer digits and optional fraction digits
/// denotes exactly the assembled fixed-point value.
proof fn lemma_parse_accepts(
    t: Seq<char>,
    neg: bool,
    start: int,
    n: int,
    ipd: int,
    saw_dot: bool,
    ipv: int,
    fpv: int,
    fpd: int,
)
    requires
        n == t.len(),
        start == (if neg {
            1int
        } else {
            0int
        }),
        neg <==> (n > 0 && t[0] == '-'),
        1 <= ipd <= 9,
        start + ipd <= n,
        forall|j: int| start <= j < start + ipd ==> is_digit(t[j]),
        ipv == digits_val(t.subrange(start, start + ipd)),
        saw_dot ==> start + ipd < n && t[start + ipd] == '.' && 1 <= fpd <= 4 && start + ipd + 1
            + fpd == n && (forall|j: int| start + ipd + 1 <= j < n ==> is_digit(t[j])) && fpv
            == digits_val(t.subrange(start + ipd + 1, n)),
        !saw_dot ==> start + ipd == n && fpv == 0 && fpd == 0,
    ensures
        0 <= ipv < 1000000000,
        0 <= fpv * pow10(4 - fpd) < 10000,
        parse_decimal_units(t) == Some(
            if neg {
                -(ipv * 10_000 + fpv * pow10(4 - fpd))
            } else {
                ipv * 10_000 + fpv * pow10(4 - fpd)
            },
        ),
{
    let b: Seq<char> = if neg {
        t.skip(1)
    } else {
        t
    };
    lemma_pow10_vals();
    lemma_pow10_mono(ipd, 9);
    assert(b.len() == n - start);
    let ip = b.take(ipd);
    assert(ip =~= t.subrange(start, start + ipd));
    assert(all_digits(ip));
    lemma_digits_val_bound(ip);
    assert(forall|j: int| 0 <= j < ipd ==> b[j] != '.');
    if !saw_dot {
        assert(ip =~= b);
        lemma_first_dot_at(b, ipd);
        assert(parse_unsigned_units(b) == Some(digits_val(ip) * 10_000));
        assert(fpv * pow10(4 - fpd) == 0);
    } else {
        lemma_first_dot_at(b, ipd);
        let fp = b.skip(ipd + 1);
        assert(fp =~= t.subrange(start + ipd + 1, n));
        assert(all_digits(fp));
        assert(fp.len() == fpd);
        lemma_digits_val_bound(fp);
        lemma_frac_scaled_bound(fpv, fpd);
        assert(parse_unsigned_units(b) == Some(
            digits_val(ip) * 10_000 + digits_val(fp) * pow10(4 - fp.len()),
        ));
    }
}

/// No number is denoted by empty text or text starting with a non-digit.
proof fn lemma_no_parse_empty_or_nondigit(b: Seq<char>)
    requires
        b.len() > 0 ==> !is_digit(b[0]),
    ensures
        parse_unsigned_units(b) is None,
{
    lemma_first_dot_le(b);
    if b.len() == 0 {
    } else if b[0] == '.' {
        lemma_first_dot_at(b, 0);
        assert(b.take(0).len() == 0);
    } else {
        let dp = first_dot(b);
        if dp == b.len() {
            assert(!all_digits(b));
        } else {
            if dp == 0 {
                assert(b.take(0).len() == 0);
            } else {
                assert(b.take(dp)[0] == b[0]);
                assert(!all_digits(b.take(dp)));
            }
        }
    }
}

/// A point followed by no digit cannot be part of a number: the fraction
/// part is empty or starts with a non-digit.
proof fn lemma_dot_no_frac(b: Seq<char>, ipd: int)
    requires
        1 <= ipd <= 9,
        ipd < b.len(),
        forall|j: int| 0 <= j < ipd ==> b[j] != '.',
        b[ipd] == '.',
        ipd + 1 < b.len() ==> !is_digit(b[ipd + 1]),
    ensures
        parse_unsigned_units(b) is None,
{
    lemma_first_dot_at(b, ipd);
    let fp = b.skip(ipd + 1);
    if fp.len() == 0 {
    } else {
        assert(fp[0] == b[ipd + 1]);
        assert(!all_digits(fp));
    }
}

/// After the integer digits, a character that is neither a point nor a
/// tenth digit of a nine-digit-at-most run rejects the text.
proof fn lemma_reject_after_int(b: Seq<char>, ipd: int)
    requires
        1 <= ipd <= 9,
        ipd < b.len(),
        forall|j: int| 0 <= j < ipd ==> is_digit(b[j]) && b[j] != '.',
        b[ipd] != '.',
        is_digit(b[ipd]) ==> ipd == 9,
    ensures
        parse_unsigned_units(b) is None,
{
    lemma_first_dot_le(b);
    let dp = first_dot(b);
    if is_digit(b[ipd]) {
        // Ten or more digits before any point.
        lemma_first_dot_min(b, ipd + 1);
        if dp == b.len() {
            assert(b.len() >= 10);
        } else {
            assert(b.take(dp).len() >= 10);
        }
    } else {
        lemma_first_dot_min(b, ipd);
        if dp < b.len() {
            lemma_first_dot_is_dot(b);
        }
        assert(dp != ipd);
        if dp == b.len() {
            assert(!all_digits(b));
        } else {
            assert(b.take(dp)[ipd] == b[ipd]);
            assert(!all_digits(b.take(dp)));
        }
    }
}

/// After the point and its fraction digits, any further character rejects
/// the text: the fraction part is too long or holds a non-digit.
proof fn lemma_reject_after_frac(b: Seq<char>, ipd: int, k: int)
    requires
        1 <= ipd <= 9,
        ipd < k,
        k < b.len(),
        k - ipd - 1 <= 4,
        forall|j: int| 0 <= j < ipd ==> b[j] != '.',
        b[ipd] == '.',
        forall|j: int| ipd + 1 <= j < k ==> is_digit(b[j]),
        is_digit(b[k]) ==> k - ipd - 1 == 4,
    ensures
        parse_unsigned_units(b) is None,
{
    lemma_first_dot_at(b, ipd);
    let fp = b.skip(ipd + 1);
    if is_digit(b[k]) {
        assert(fp.len() >= 5);
    } else {
        assert(fp[k - ipd - 1] == b[k]);
        assert(!all_digits(fp));
    }
}

} // verus!
