use catalog_harvest::decimal::Decimal;
use catalog_harvest::extract::extract_percentage;

#[test]
fn extracts_percentage_from_selector_match() {
    let html = "<html><body>\
        <div class=\"content-item-wLPXgMvT\"><span>12,5%</span></div>\
        </body></html>";
    assert_eq!(extract_percentage(html), Decimal::from_units(1250));
}

#[test]
fn extracts_dot_percentage() {
    let html = "<div class=\"content-item-wLPXgMvT\"><span>12.5%</span></div>";
    assert_eq!(extract_percentage(html), Decimal::from_units(1250));
}

#[test]
fn first_match_wins() {
    let html = "<div class=\"content-item-wLPXgMvT\"><span>4%</span><span>9%</span></div>";
    assert_eq!(extract_percentage(html), Decimal::from_units(400));
}

#[test]
fn document_without_match_yields_zero() {
    assert_eq!(extract_percentage("abc"), Decimal::from_units(0));
    assert_eq!(extract_percentage("<html><body><span>12%</span></body></html>"), Decimal::from_units(0));
}

#[test]
fn unparseable_match_yields_zero() {
    let html = "<div class=\"content-item-wLPXgMvT\"><span>unknown</span></div>";
    assert_eq!(extract_percentage(html), Decimal::from_units(0));
}
