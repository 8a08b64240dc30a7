//! Per-entry enrichment: from a catalog entry and its detail document to
//! an output row, and from a page's batch to the aggregator.
//!
//! A successful invocation always produces a row: malformed fields were
//! already defaulted at decode time, an unextractable percentage becomes
//! zero, and a zero percentage or quantity makes the dependent derived
//! metric zero rather than suppressing the row. Only a failed detail
//! fetch produces no row — and leaves every sibling invocation untouched.

use vstd::prelude::*;
use vstd::string::*;
use crate::aggregator::ResultAggregator;
use crate::decimal::{div100_units, mul100_units, two_dec_str, Decimal, PARSE_MAX};
use crate::extract::{extract_percentage, extracted_units};
use crate::page::CatalogEntry;

verus! {

/// The detail URL for an entry code.
pub open spec fn detail_url_spec(code: Seq<char>) -> Seq<char> {
    "https://www.vinmonopolet.no/p/"@ + code
}

/// Build the detail URL for an entry code.
pub fn detail_url(code: &str) -> (r: String)
    ensures
        r@ == detail_url_spec(code@),
{
    let mut s = String::from_str("https://www.vinmonopolet.no/p/");
    s.append(code);
    s
}

/// Units of the derived absolute alcohol quantity: round2(fraction ×
/// volume × 100), and zero when the fraction is zero.
pub open spec fn alcohol_cl_units(pct: int, vol: int) -> int {
    if pct == 0 {
        0
    } else {
        mul100_units(pct, vol)
    }
}

/// Units of the derived unit price: round2(price ÷ quantity × 100), and
/// zero when the quantity is zero.
pub open spec fn unit_price_units(price: int, alc: int) -> int {
    if alc == 0 {
        0
    } else {
        div100_units(price, alc)
    }
}

/// One output row: seven text fields, immutable once constructed.
pub struct OutputRow {
    pub detail_url: String,
    pub name: String,
    pub price_text: String,
    pub volume_text: String,
    pub percent_text: String,
    pub alcohol_text: String,
    pub unit_price_text: String,
}

impl View for OutputRow {
    type V = Seq<Seq<char>>;

    open spec fn view(&self) -> Seq<Seq<char>> {
        seq![
            self.detail_url@,
            self.name@,
            self.price_text@,
            self.volume_text@,
            self.percent_text@,
            self.alcohol_text@,
            self.unit_price_text@,
        ]
    }
}

/// The seven fields derived from an entry and its extracted fraction:
/// detail URL, name, and the two-decimal texts of price, volume, the
/// percentage (the fraction times one hundred, in percent points),
/// derived quantity and derived unit price.
pub open spec fn row_fields(
    code: Seq<char>,
    name: Seq<char>,
    price: int,
    vol: int,
    pct: int,
) -> Seq<Seq<char>> {
    let alc = alcohol_cl_units(pct, vol);
    seq![
        detail_url_spec(code),
        name,
        two_dec_str(price),
        two_dec_str(vol),
        two_dec_str(pct * 100),
        two_dec_str(alc),
        two_dec_str(unit_price_units(price, alc)),
    ]
}

/// Derive the output row for an entry whose detail document yielded the
/// fraction `pct`: each derived metric is rounded to two decimals at its
/// own step, and each is zero when its source is zero.
pub fn compute_row(entry: &CatalogEntry, pct: &Decimal) -> (row: OutputRow)
    requires
        entry.wf(),
        -PARSE_MAX <= pct@ <= PARSE_MAX,
    ensures
        row@ == row_fields(entry.code@, entry.name@, entry.price@, entry.volume_cl@, pct@),
{
    let alcohol = if pct.is_zero() {
        Decimal::zero()
    } else {
        pct.mul100_round2(&entry.volume_cl)
    };
    let unit_price = if alcohol.is_zero() {
        Decimal::zero()
    } else {
        entry.price.div100_round2(&alcohol)
    };
    let pct_points = Decimal::from_units(pct.units * 100);
    let row = OutputRow {
        detail_url: detail_url(entry.code.as_str()),
        name: entry.name.clone(),
        price_text: entry.price.to_2dp_string(),
        volume_text: entry.volume_cl.to_2dp_string(),
        percent_text: pct_points.to_2dp_string(),
        alcohol_text: alcohol.to_2dp_string(),
        unit_price_text: unit_price.to_2dp_string(),
    };
    proof {
        assert(row@ =~= row_fields(
            entry.code@,
            entry.name@,
            entry.price@,
            entry.volume_cl@,
            pct@,
        ));
    }
    row
}

/// Enrich one entry: the fetched detail document (`None` for a failed
/// fetch) becomes exactly one derived row, or no row at all. Only the
/// transport failure suppresses the row; unextractable content still
/// yields one, with zero derived metrics.
pub fn harvest_entry(entry: &CatalogEntry, body: Option<&str>) -> (r: Option<OutputRow>)
    requires
        entry.wf(),
    ensures
        (r is Some) <==> (body is Some),
        body matches Some(doc) ==> (r matches Some(row) && row@ == row_fields(
            entry.code@,
            entry.name@,
            entry.price@,
            entry.volume_cl@,
            extracted_units(doc@),
        )),
{
    match body {
        Some(doc) => {
            let pct = extract_percentage(doc);
            Some(compute_row(entry, &pct))
        },
        None => None,
    }
}

/// The row views a page batch adds: one per entry whose detail fetch
/// succeeded, in entry order, each derived from the entry and its
/// document; a failed fetch contributes nothing.
pub open spec fn batch_row_views(
    entries: Seq<CatalogEntry>,
    bodies: Seq<Option<Seq<char>>>,
) -> Seq<Seq<Seq<char>>>
    recommends
        entries.len() == bodies.len(),
    decreases entries.len(),
{
    if entries.len() == 0 {
        Seq::empty()
    } else {
        let rest = batch_row_views(entries.drop_last(), bodies.drop_last());
        let e = entries.last();
        match bodies[entries.len() - 1] {
            Some(doc) => rest.push(
                row_fields(e.code@, e.name@, e.price@, e.volume_cl@, extracted_units(doc)),
            ),
            None => rest,
        }
    }
}

/// How many of a batch's detail fetches succeeded.
pub open spec fn fetched_count(bodies: Seq<Option<Seq<char>>>) -> int
    decreases bodies.len(),
{
    if bodies.len() == 0 {
        0
    } else {
        fetched_count(bodies.drop_last()) + (if bodies.last() is Some {
            1int
        } else {
            0int
        })
    }
}

/// Law: a batch contributes exactly one row per successful detail fetch —
/// a failing fetch never suppresses its siblings' rows.
pub proof fn lemma_batch_row_count(entries: Seq<CatalogEntry>, bodies: Seq<Option<Seq<char>>>)
    requires
        entries.len() == bodies.len(),
    ensures
        batch_row_views(entries, bodies).len() == fetched_count(bodies),
    decreases entries.len(),
{
    if entries.len() > 0 {
        lemma_batch_row_count(entries.drop_last(), bodies.drop_last());
    }
}

/// Process one page's dispatched batch against the aggregator. `bodies`
/// holds, entry by entry, the fetched detail document or `None` for a
/// failed fetch. Each entry with a document appends exactly one derived
/// row; a failed fetch appends nothing and leaves every other entry's
/// row untouched.
#[verifier::loop_isolation(false)]
pub fn process_batch(
    entries: &Vec<CatalogEntry>,
    bodies: &Vec<Option<String>>,
    agg: &mut ResultAggregator,
)
    requires
        entries@.len() == bodies@.len(),
        forall|i: int| 0 <= i < entries@.len() ==> (#[trigger] entries@[i]).wf(),
    ensures
        final(agg)@.len() == old(agg)@.len() + fetched_count(bodies.deep_view()),
        final(agg)@.map_values(|r: OutputRow| r@) == old(agg)@.map_values(|r: OutputRow| r@)
            + batch_row_views(entries@, bodies.deep_view()),
{
    let ghost evs = entries@;
    let ghost bvs = bodies.deep_view();
    proof {
        assert(bvs.len() == bodies@.len());
        assert(forall|k: int|
            0 <= k < bvs.len() ==> #[trigger] bvs[k] == bodies@[k].deep_view());
    }
    let mut i: usize = 0;
    while i < entries.len()
        invariant
            i <= evs.len(),
            agg@.len() == old(agg)@.len() + fetched_count(bvs.take(i as int)),
            agg@.map_values(|r: OutputRow| r@) =~= old(agg)@.map_values(|r: OutputRow| r@)
                + batch_row_views(evs.take(i as int), bvs.take(i as int)),
        decreases evs.len() - i,
    {
        proof {
            assert(evs.take(i + 1).drop_last() =~= evs.take(i as int));
            assert(bvs.take(i + 1).drop_last() =~= bvs.take(i as int));
            assert(evs.take(i + 1).last() == evs[i as int]);
            assert(bvs.take(i + 1)[evs.take(i + 1).len() - 1] == bvs[i as int]);
        }
        match &bodies[i] {
            Some(doc) => {
                let pct = extract_percentage(doc.as_str());
                let row = compute_row(&entries[i], &pct);
                let ghost pre = agg@;
                agg.append(row);
                proof {
                    assert(bvs[i as int] == Some(doc@));
                    assert(row@ == row_fields(
                        evs[i as int].code@,
                        evs[i as int].name@,
                        evs[i as int].price@,
                        evs[i as int].volume_cl@,
                        extracted_units(doc@),
                    ));
                    assert(batch_row_views(evs.take(i + 1), bvs.take(i + 1)) =~= batch_row_views(
                        evs.take(i as int),
                        bvs.take(i as int),
                    ).push(row@));
                    assert(agg@ == pre.push(row));
                    assert(agg@.map_values(|r: OutputRow| r@) =~= pre.map_values(
                        |r: OutputRow| r@,
                    ).push(row@));
                    assert(agg@.map_values(|r: OutputRow| r@) =~= old(agg)@.map_values(
                        |r: OutputRow| r@,
                    ) + batch_row_views(evs.take(i + 1), bvs.take(i + 1)));
                }
            },
            None => {
                proof {
                    assert(bvs[i as int] is None);
                    assert(agg@.map_values(|r: OutputRow| r@) =~= old(agg)@.map_values(
                        |r: OutputRow| r@,
                    ) + batch_row_views(evs.take(i + 1), bvs.take(i + 1)));
                }
            },
        }
        i += 1;
    }
    proof {
        assert(evs.take(evs.len() as int) =~= evs);
        assert(bvs.take(bvs.len() as int) =~= bvs);
    }
}

} // verus!
