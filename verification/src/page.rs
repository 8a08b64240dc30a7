//! Catalog pages: decoding a page response and driving the page loop.
//!
//! A page response is JSON holding a total page count and a list of
//! entries. Decoding is defensive: a body that is not JSON at all yields
//! no entries and a total of one page, and within a document every
//! missing or malformed part falls back to its default — an empty string
//! for the code and name, zero for the price and volume, one for the
//! total. The page loop fetches page zero, one, two, … and stops as soon
//! as the current page count reaches the total most recently observed.

use vstd::prelude::*;
use vstd::string::*;
use crate::decimal::{number_string, number_str, Decimal, PARSE_MAX};
use crate::parse::{parse_decimal_text, parse_decimal_units};

verus! {

/// Whether text parses as a JSON document.
pub uninterp spec fn json_doc_ok(s: Seq<char>) -> bool;

/// The body's `productSearchResult.pagination.totalPages` member as an
/// unsigned integer; None where the body is not a JSON document or any
/// step of that path is missing or of another type.
pub uninterp spec fn page_total_of(body: Seq<char>) -> Option<u64>;

/// How many elements the body's `productSearchResult.products` array
/// holds; zero where the body is not a JSON document or that path is
/// missing or no array.
pub uninterp spec fn page_entry_count(body: Seq<char>) -> int;

/// The `code` member of the body's i-th product; None where it is
/// missing or not a string.
pub uninterp spec fn page_entry_code(body: Seq<char>, i: int) -> Option<Seq<char>>;

/// The `name` member of the body's i-th product; None where it is
/// missing or not a string.
pub uninterp spec fn page_entry_name(body: Seq<char>, i: int) -> Option<Seq<char>>;

/// The JSON text of the body's i-th product's `price.value` member;
/// None where it is missing.
pub uninterp spec fn page_entry_price_text(body: Seq<char>, i: int) -> Option<Seq<char>>;

/// The JSON text of the body's i-th product's `volume.value` member;
/// None where it is missing.
pub uninterp spec fn page_entry_volume_text(body: Seq<char>, i: int) -> Option<Seq<char>>;

/// Relies on serde_json: `from_str::<Value>` parses the body; `Value`'s
/// index and `get` walk `productSearchResult.pagination.totalPages` and
/// `productSearchResult.products`; `as_u64`, `as_str` and `as_array`
/// read the members; `Display` renders each `price.value` and
/// `volume.value` as its JSON text. Parsing and serialization are
/// deterministic, so every part is a function of the body text alone.
#[verifier::external_body]
fn read_page_parts(body: &str) -> (r: (
    Option<u64>,
    Vec<(Option<String>, Option<String>, Option<String>, Option<String>)>,
))
    ensures
        r.0 == page_total_of(body@),
        r.1@.len() == page_entry_count(body@),
        forall|i: int|
            0 <= i < r.1@.len() ==> (#[trigger] r.1@[i]).0.deep_view() == page_entry_code(
                body@,
                i,
            ),
        forall|i: int|
            0 <= i < r.1@.len() ==> (#[trigger] r.1@[i]).1.deep_view() == page_entry_name(
                body@,
                i,
            ),
        forall|i: int|
            0 <= i < r.1@.len() ==> (#[trigger] r.1@[i]).2.deep_view() == page_entry_price_text(
                body@,
                i,
            ),
        forall|i: int|
            0 <= i < r.1@.len() ==> (#[trigger] r.1@[i]).3.deep_view() == page_entry_volume_text(
                body@,
                i,
            ),
        !json_doc_ok(body@) ==> r.0 is None && r.1@.len() == 0,
{
    let v: serde_json::Value = match serde_json::from_str(body) {
        Ok(v) => v,
        Err(_) => return (None, Vec::new()),
    };
    let total = v["productSearchResult"]["pagination"]["totalPages"].as_u64();
    let mut parts = Vec::new();
    for p in v["productSearchResult"]["products"].as_array().unwrap_or(&Vec::new()) {
        parts.push((
            p["code"].as_str().map(|s| s.to_owned()),
            p["name"].as_str().map(|s| s.to_owned()),
            p["price"].get("value").map(|x| x.to_string()),
            p["volume"].get("value").map(|x| x.to_string()),
        ));
    }
    (total, parts)
}

/// One catalog entry, decoded into plain values.
pub struct CatalogEntry {
    pub code: String,
    pub name: String,
    pub price: Decimal,
    pub volume_cl: Decimal,
}

impl CatalogEntry {
    /// Decoded entries carry numbers within the parse bound.
    pub open spec fn wf(&self) -> bool {
        &&& -PARSE_MAX <= self.price@ <= PARSE_MAX
        &&& -PARSE_MAX <= self.volume_cl@ <= PARSE_MAX
    }
}

/// The text a raw string member yields after defaulting: the string, or
/// empty where it was missing or of another type.
pub open spec fn defaulted_text(t: Option<Seq<char>>) -> Seq<char> {
    match t {
        Some(s) => s,
        None => Seq::empty(),
    }
}

/// The units a raw number member yields after defaulting: its JSON text
/// parsed as a decimal, or zero where it was missing or unparseable.
pub open spec fn defaulted_units(t: Option<Seq<char>>) -> int {
    match t {
        Some(s) => match parse_decimal_units(s) {
            Some(u) => u,
            None => 0,
        },
        None => 0,
    }
}

/// What decoding the body's i-th raw entry must produce: every field is
/// the decoded member, or its default — empty text, zero number.
pub open spec fn entry_decoded(e: CatalogEntry, body: Seq<char>, i: int) -> bool {
    &&& e.code@ == defaulted_text(page_entry_code(body, i))
    &&& e.name@ == defaulted_text(page_entry_name(body, i))
    &&& e.price@ == defaulted_units(page_entry_price_text(body, i))
    &&& e.volume_cl@ == defaulted_units(page_entry_volume_text(body, i))
}

/// A string member or its empty default.
fn decode_text_part(t: &Option<String>) -> (r: String)
    ensures
        r@ == defaulted_text(t.deep_view()),
{
    match t {
        Some(s) => s.clone(),
        None => String::new(),
    }
}

/// A number member's JSON text parsed as a decimal, or its zero default.
fn decode_number_part(t: &Option<String>) -> (d: Decimal)
    ensures
        d@ == defaulted_units(t.deep_view()),
        -PARSE_MAX <= d@ <= PARSE_MAX,
{
    match t {
        Some(s) => match parse_decimal_text(s.as_str(), false) {
            Some(d) => d,
            None => Decimal::zero(),
        },
        None => Decimal::zero(),
    }
}

/// Decode one entry from its raw member parts, defaulting every missing
/// or malformed field: empty text for code and name, zero for price and
/// volume.
fn decode_entry(parts: &(Option<String>, Option<String>, Option<String>, Option<String>)) -> (e:
    CatalogEntry)
    ensures
        e.code@ == defaulted_text(parts.0.deep_view()),
        e.name@ == defaulted_text(parts.1.deep_view()),
        e.price@ == defaulted_units(parts.2.deep_view()),
        e.volume_cl@ == defaulted_units(parts.3.deep_view()),
        e.wf(),
{
    CatalogEntry {
        code: decode_text_part(&parts.0),
        name: decode_text_part(&parts.1),
        price: decode_number_part(&parts.2),
        volume_cl: decode_number_part(&parts.3),
    }
}

/// Decode one catalog page response into its entry list and total page
/// count, exactly as the body text determines them: the total is the
/// `productSearchResult.pagination.totalPages` member, defaulting to one
/// where it is missing or malformed; every listed product becomes one
/// entry, in order, each field decoded or defaulted. A body that is not
/// a JSON document yields no entries and a total of one.
#[verifier::loop_isolation(false)]
pub fn decode_page(body: &str) -> (r: (Vec<CatalogEntry>, u64))
    ensures
        r.1 == (match page_total_of(body@) {
            Some(t) => t,
            None => 1u64,
        }),
        r.0@.len() == page_entry_count(body@),
        forall|i: int| 0 <= i < r.0@.len() ==> entry_decoded(#[trigger] r.0@[i], body@, i),
        forall|i: int| 0 <= i < r.0@.len() ==> (#[trigger] r.0@[i]).wf(),
        !json_doc_ok(body@) ==> r.0@.len() == 0 && r.1 == 1,
{
    let (total_opt, parts) = read_page_parts(body);
    let total: u64 = match total_opt {
        Some(t) => t,
        None => 1,
    };
    let mut entries: Vec<CatalogEntry> = Vec::new();
    let mut i: usize = 0;
    while i < parts.len()
        invariant
            i <= parts@.len(),
            entries@.len() == i,
            forall|k: int| 0 <= k < i ==> entry_decoded(#[trigger] entries@[k], body@, k),
            forall|k: int| 0 <= k < i ==> (#[trigger] entries@[k]).wf(),
        decreases parts@.len() - i,
    {
        let e = decode_entry(&parts[i]);
        entries.push(e);
        i += 1;
    }
    (entries, total)
}

/// The catalog search URL for a zero-based page index.
pub open spec fn catalog_page_url_spec(page: int) -> Seq<char> {
    "https://www.vinmonopolet.no/vmpws/v2/vmp/search?q=:name-asc&currentPage="@ + number_str(page)
}

/// Build the catalog search URL for a page index.
pub fn catalog_page_url(page: u64) -> (r: String)
    ensures
        r@ == catalog_page_url_spec(page as int),
{
    let mut s = String::from_str(
        "https://www.vinmonopolet.no/vmpws/v2/vmp/search?q=:name-asc&currentPage=",
    );
    let digits = number_string(page as u128);
    s.append(digits.as_str());
    s
}

/// The page loop's two counters: the next page to fetch and the total
/// most recently observed. The total starts at one, so the loop always
/// fetches page zero first.
pub struct PaginationState {
    pub current_page: u64,
    pub total_pages: u64,
}

impl PaginationState {
    /// The loop's starting state: page zero next, one page assumed.
    pub fn new() -> (s: Self)
        ensures
            s.current_page == 0,
            s.total_pages == 1,
    {
        PaginationState { current_page: 0, total_pages: 1 }
    }

    /// Whether another page must be fetched: the count has not reached
    /// the most recently observed total.
    pub fn should_fetch(&self) -> (r: bool)
        ensures
            r <==> self.current_page < self.total_pages,
    {
        self.current_page < self.total_pages
    }

    /// Record the total a page response reported, overwriting the old.
    pub fn observe_total(&mut self, total: u64)
        ensures
            final(self).current_page == old(self).current_page,
            final(self).total_pages == total,
    {
        self.total_pages = total;
    }

    /// Advance past the page just processed.
    pub fn advance(&mut self)
        requires
            old(self).current_page < u64::MAX,
        ensures
            final(self).current_page == old(self).current_page + 1,
            final(self).total_pages == old(self).total_pages,
    {
        self.current_page = self.current_page + 1;
    }
}

/// The total reported by the fetch of page `i`: the scripted value, or
/// the defensive default of one past the script's end.
pub open spec fn reported_total(totals: Seq<u64>, i: int) -> u64 {
    if 0 <= i < totals.len() {
        totals[i]
    } else {
        1u64
    }
}

/// Law: the page count rises by exactly one per iteration, and the loop
/// stops at the first count that reaches the *most recently observed*
/// total — even when responses keep changing it. Given the totals each
/// page's response reports, the loop performs exactly `r` fetches: the
/// count reached the total reported by the last fetch, and after every
/// earlier fetch it had not yet reached the total that fetch reported.
#[verifier::loop_isolation(false)]
pub fn count_page_iterations(totals: &Vec<u64>) -> (r: u64)
    requires
        totals@.len() + 2 < u64::MAX,
        totals@.len() + 2 < usize::MAX,
    ensures
        1 <= r,
        r >= reported_total(totals@, r - 1),
        forall|k: int| 1 <= k < r ==> k < #[trigger] reported_total(totals@, k - 1),
{
    let mut st = PaginationState::new();
    let mut i: usize = 0;
    while st.current_page < st.total_pages
        invariant
            i as int == st.current_page as int,
            st.current_page <= totals@.len() + 1,
            st.current_page == 0 ==> st.total_pages == 1,
            st.current_page >= 1 ==> st.total_pages == reported_total(
                totals@,
                st.current_page - 1,
            ),
            forall|k: int| 1 <= k < st.current_page ==> k < #[trigger] reported_total(totals@, k - 1),
        decreases totals@.len() + 1 - st.current_page,
    {
        let t: u64 = if i < totals.len() {
            totals[i]
        } else {
            1
        };
        st.observe_total(t);
        st.advance();
        i += 1;
    }
    st.current_page
}

} // verus!
