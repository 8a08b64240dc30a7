use catalog_harvest::aggregator::ResultAggregator;
use catalog_harvest::decimal::Decimal;
use catalog_harvest::harvest::{harvest_entry, process_batch};
use catalog_harvest::page::CatalogEntry;

fn entry(code: &str, name: &str, price_units: i128, volume_units: i128) -> CatalogEntry {
    CatalogEntry {
        code: code.to_string(),
        name: name.to_string(),
        price: Decimal::from_units(price_units),
        volume_cl: Decimal::from_units(volume_units),
    }
}

fn detail_doc(pct: &str) -> String {
    format!("<div class=\"content-item-wLPXgMvT\"><span>{}</span></div>", pct)
}

#[test]
fn one_failed_fetch_does_not_suppress_the_other_rows() {
    let mut entries = Vec::new();
    let mut bodies: Vec<Option<String>> = Vec::new();
    for i in 0..10 {
        entries.push(entry(&format!("{}", i), "Wine", 1_000_000, 750_000));
        if i == 3 {
            // one failing detail fetch among ten entries
            bodies.push(None);
        } else {
            bodies.push(Some(detail_doc("12%")));
        }
    }
    let mut agg = ResultAggregator::new();
    process_batch(&entries, &bodies, &mut agg);
    assert_eq!(agg.len(), 9);
    // the failed entry's code appears in no exported row
    for row in agg.rows() {
        assert_ne!(row.detail_url, "https://www.vinmonopolet.no/p/3");
    }
}

#[test]
fn failed_fetch_yields_no_row_for_a_single_entry() {
    let e = entry("9", "Wine", 1_000_000, 750_000);
    assert!(harvest_entry(&e, None).is_none());
    let doc = detail_doc("12%");
    let row = harvest_entry(&e, Some(doc.as_str())).unwrap();
    assert_eq!(row.detail_url, "https://www.vinmonopolet.no/p/9");
    assert_eq!(row.alcohol_text, "900.00");
}

#[test]
fn unextractable_content_still_yields_a_row() {
    let e = entry("7", "Cider", 500_000, 330_000);
    let row = harvest_entry(&e, Some("<html>nothing here</html>")).unwrap();
    assert_eq!(row.percent_text, "0.00");
    assert_eq!(row.alcohol_text, "0.00");
    assert_eq!(row.unit_price_text, "0.00");
}

#[test]
fn appends_accumulate_across_batches() {
    let mut agg = ResultAggregator::new();
    let entries = vec![entry("1", "Wine", 1_000_000, 750_000)];
    let bodies = vec![Some(detail_doc("12%"))];
    process_batch(&entries, &bodies, &mut agg);
    process_batch(&entries, &bodies, &mut agg);
    assert_eq!(agg.len(), 2);
}
