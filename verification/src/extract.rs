//! The extraction rule: a detail document to a percentage fraction.
//!
//! The rule locates the first match of a fixed structural selector in the
//! document, reads its inner text, strips a trailing percent sign,
//! normalizes a decimal comma, parses the decimal and divides it by one
//! hundred. Every failure along the way — no match, invalid text — falls
//! back to zero rather than failing the invocation.

use vstd::prelude::*;
use vstd::string::*;
use crate::decimal::{rha_div, rha_div_exec, Decimal};
use crate::parse::{normalize_commas, parse_decimal_text, parse_decimal_units};

verus! {

/// The structural selector whose first match carries the percentage text.
pub open spec fn percent_selector() -> Seq<char> {
    ".content-item-wLPXgMvT span"@
}

/// The inner markup of the first element of `html` matching `selector`,
/// if the selector is valid and some element matches. Document parsing is
/// deterministic, so this is a function of the two texts alone.
pub uninterp spec fn selected_inner_html(html: Seq<char>, selector: Seq<char>) -> Option<
    Seq<char>,
>;

/// Relies on scraper's Html::parse_document, Selector::parse, Html::select
/// and ElementRef::inner_html: the inner markup of the first match of a
/// selector, a deterministic function of document and selector text.
#[verifier::external_body]
fn select_first_inner_html(html: &str, selector: &str) -> (r: Option<String>)
    ensures
        r matches Some(x) ==> selected_inner_html(html@, selector@) == Some(x@),
        r is None ==> selected_inner_html(html@, selector@) is None,
{
    let document = scraper::Html::parse_document(html);
    let sel = match scraper::Selector::parse(selector) {
        Ok(s) => s,
        Err(_) => {
            return None;
        },
    };
    document.select(&sel).next().map(|el| el.inner_html())
}

/// The fraction units denoted by percentage text: a trailing percent sign
/// stripped, a decimal comma read as a point, the decimal parsed and
/// divided by one hundred (half away from zero at the representable
/// granularity). The extracted percentage is a fraction in [0, 1]: text
/// that is unparseable, or denotes a value outside that range, yields
/// zero — the rule's defensive fallback.
pub open spec fn percent_units(s: Seq<char>) -> int {
    let body = if s.len() > 0 && s.last() == '%' {
        s.drop_last()
    } else {
        s
    };
    match parse_decimal_units(normalize_commas(body)) {
        Some(u) => {
            let f = rha_div(u, 100);
            if 0 <= f <= 10_000 {
                f
            } else {
                0
            }
        },
        None => 0,
    }
}

/// The fraction extracted from a whole detail document: the percentage of
/// the first selector match, or zero when nothing matches.
pub open spec fn extracted_units(html: Seq<char>) -> int {
    match selected_inner_html(html, percent_selector()) {
        Some(txt) => percent_units(txt),
        None => 0,
    }
}

/// Parse percentage text such as `"12,5%"` into a fraction in [0, 1].
pub fn parse_percent_text(s: &str) -> (r: Decimal)
    ensures
        r@ == percent_units(s@),
        0 <= r@ <= 10_000,
{
    let n = s.unicode_len();
    let has_pct = n > 0 && s.get_char(n - 1) == '%';
    let body: &str = if has_pct {
        s.substring_char(0, n - 1)
    } else {
        s
    };
    proof {
        if has_pct {
            assert(body@ =~= s@.drop_last());
        }
    }
    match parse_decimal_text(body, true) {
        Some(d) => {
            let u = rha_div_exec(d.units, 100);
            if 0 <= u && u <= 10_000 {
                Decimal::from_units(u)
            } else {
                Decimal::zero()
            }
        },
        None => Decimal::zero(),
    }
}

/// Extract the percentage fraction from a detail document: the first
/// selector match read as percentage text, zero when nothing matches.
pub fn extract_percentage(html: &str) -> (r: Decimal)
    ensures
        r@ == extracted_units(html@),
        0 <= r@ <= 10_000,
{
    match select_first_inner_html(html, ".content-item-wLPXgMvT span") {
        Some(txt) => parse_percent_text(txt.as_str()),
        None => Decimal::zero(),
    }
}

} // verus!
