use catalog_harvest::decimal::Decimal;
use catalog_harvest::page::{catalog_page_url, count_page_iterations, decode_page, PaginationState};

#[test]
fn decodes_a_full_page() {
    let body = "{\"productSearchResult\":{\"pagination\":{\"totalPages\":3},\
        \"products\":[{\"code\":\"1\",\"name\":\"Wine\",\
        \"price\":{\"value\":100.0},\"volume\":{\"value\":75.0}}]}}";
    let (entries, total) = decode_page(body);
    assert_eq!(total, 3);
    assert_eq!(entries.len(), 1);
    assert_eq!(entries[0].code, "1");
    assert_eq!(entries[0].name, "Wine");
    assert_eq!(entries[0].price, Decimal::from_units(1_000_000));
    assert_eq!(entries[0].volume_cl, Decimal::from_units(750_000));
}

#[test]
fn non_json_body_defaults_to_one_empty_page() {
    let (entries, total) = decode_page("not json at all");
    assert_eq!(total, 1);
    assert_eq!(entries.len(), 0);
}

#[test]
fn empty_document_defaults() {
    let (entries, total) = decode_page("{}");
    assert_eq!(total, 1);
    assert_eq!(entries.len(), 0);
}

#[test]
fn malformed_entry_fields_default() {
    let body = "{\"productSearchResult\":{\"products\":[{\"price\":\"cheap\",\"volume\":{}}]}}";
    let (entries, total) = decode_page(body);
    assert_eq!(total, 1);
    assert_eq!(entries.len(), 1);
    assert_eq!(entries[0].code, "");
    assert_eq!(entries[0].name, "");
    assert_eq!(entries[0].price, Decimal::from_units(0));
    assert_eq!(entries[0].volume_cl, Decimal::from_units(0));
}

#[test]
fn page_url_is_templated_with_the_index() {
    assert_eq!(
        catalog_page_url(0),
        "https://www.vinmonopolet.no/vmpws/v2/vmp/search?q=:name-asc&currentPage=0"
    );
    assert_eq!(
        catalog_page_url(17),
        "https://www.vinmonopolet.no/vmpws/v2/vmp/search?q=:name-asc&currentPage=17"
    );
}

#[test]
fn pagination_state_steps() {
    let mut st = PaginationState::new();
    assert_eq!(st.current_page, 0);
    assert_eq!(st.total_pages, 1);
    assert!(st.should_fetch());
    st.observe_total(3);
    st.advance();
    assert_eq!(st.current_page, 1);
    assert_eq!(st.total_pages, 3);
    assert!(st.should_fetch());
}

#[test]
fn loop_count_uses_latest_observed_total() {
    // the second response lowers the total: the loop obeys the latest value
    assert_eq!(count_page_iterations(&vec![5, 2]), 2);
    // the second response raises it: the loop keeps going past the
    // script, and the off-script default of one ends it
    assert_eq!(count_page_iterations(&vec![2, 5]), 3);
    // a constant total is fetched exactly that many times
    assert_eq!(count_page_iterations(&vec![3, 3, 3]), 3);
}

#[test]
fn loop_count_edge_cases() {
    // no scripted totals: the default of one ends the loop after one fetch
    assert_eq!(count_page_iterations(&Vec::new()), 1);
    // a reported total of zero still means the first fetch was made
    assert_eq!(count_page_iterations(&vec![0]), 1);
    assert_eq!(count_page_iterations(&vec![1]), 1);
}
