use catalog_harvest::aggregator::ResultAggregator;
use catalog_harvest::export::export_rows;
use catalog_harvest::harvest::{process_batch, OutputRow};
use catalog_harvest::page::{decode_page, PaginationState};

#[test]
fn one_page_two_entries_end_to_end() {
    // One page reporting itself as the only page, with two entries:
    // entry A whose detail document yields 12%, and entry B whose
    // detail content is unparseable.
    let body = "{\"productSearchResult\":{\"pagination\":{\"totalPages\":1},\
        \"products\":[\
        {\"code\":\"1\",\"name\":\"Wine\",\"price\":{\"value\":100.0},\"volume\":{\"value\":75.0}},\
        {\"code\":\"2\",\"name\":\"Beer\",\"price\":{\"value\":50.0},\"volume\":{\"value\":33.0}}\
        ]}}";

    let mut st = PaginationState::new();
    let mut agg = ResultAggregator::new();
    let mut fetches = 0;
    while st.should_fetch() {
        fetches += 1;
        let (entries, total) = decode_page(body);
        st.observe_total(total);
        let bodies = vec![
            Some("<div class=\"content-item-wLPXgMvT\"><span>12%</span></div>".to_string()),
            Some("<html>no percentage anywhere</html>".to_string()),
        ];
        process_batch(&entries, &bodies, &mut agg);
        st.advance();
    }
    // totalPages = 1: exactly one fetch
    assert_eq!(fetches, 1);
    assert_eq!(agg.len(), 2);

    // A: percentage 12.00, alcohol = round2(0.12 * 75 * 100) = 900.00,
    //    unit price = round2(100 / 900 * 100) = 11.11.
    // B: nothing extracted, so both derived metrics are zero —
    //    the row is still present.
    let out = export_rows(&agg);
    assert_eq!(
        out,
        "https://www.vinmonopolet.no/p/1;Wine;100.00;75.00;12.00;900.00;11.11\n\
         https://www.vinmonopolet.no/p/2;Beer;50.00;33.00;0.00;0.00;0.00\n"
    );
}

#[test]
fn fields_holding_the_delimiter_are_quoted() {
    let mut agg = ResultAggregator::new();
    agg.append(OutputRow {
        detail_url: "https://www.vinmonopolet.no/p/9".to_string(),
        name: "Dry; \"extra\" red".to_string(),
        price_text: "100.00".to_string(),
        volume_text: "75.00".to_string(),
        percent_text: "12.00".to_string(),
        alcohol_text: "900.00".to_string(),
        unit_price_text: "11.11".to_string(),
    });
    assert_eq!(
        export_rows(&agg),
        "https://www.vinmonopolet.no/p/9;\"Dry; \"\"extra\"\" red\";100.00;75.00;12.00;900.00;11.11\n"
    );
}

#[test]
fn export_of_nothing_is_empty() {
    let agg = ResultAggregator::new();
    assert_eq!(export_rows(&agg), "");
}
