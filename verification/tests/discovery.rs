use kline_ingest::error::PipelineError;
use kline_ingest::symbols::{
    derive_symbol, fetch, filter_symbols, full_match_outcome, matches_fully, page_symbols,
    pattern_is_valid,
    retain_symbols,
};
use kline_ingest::types::{CommonPrefixes, SymbolResult};

fn page(prefixes: &[&str], next_marker: Option<&str>) -> SymbolResult {
    SymbolResult {
        name: "data.binance.vision".to_string(),
        next_marker: next_marker.map(|marker| marker.to_string()),
        common_prefixes: prefixes
            .iter()
            .map(|prefix| CommonPrefixes { prefix: prefix.to_string() })
            .collect(),
    }
}

fn strings(items: &[&str]) -> Vec<String> {
    items.iter().map(|item| item.to_string()).collect()
}

#[test]
fn symbol_is_the_last_segment_of_the_prefix() {
    assert_eq!(derive_symbol("data/spot/daily/klines/BTCUSDT/"), Ok("BTCUSDT".to_string()));
    assert_eq!(derive_symbol("BTCUSDT/"), Ok("BTCUSDT".to_string()));
    assert_eq!(derive_symbol("/"), Ok(String::new()));
    assert_eq!(derive_symbol("a//"), Ok(String::new()));
}

#[test]
fn symbol_of_a_prefix_without_trailing_slash_stands_before_the_last_slash() {
    assert_eq!(derive_symbol("data/klines/BTCUSDT"), Ok("klines".to_string()));
    assert_eq!(derive_symbol("a/b"), Ok("a".to_string()));
}

#[test]
fn prefix_without_slash_is_malformed() {
    assert_eq!(derive_symbol("BTCUSDT"), Err(PipelineError::MalformedPrefix));
    assert_eq!(derive_symbol(""), Err(PipelineError::MalformedPrefix));
}

#[test]
fn page_symbols_come_in_the_order_of_the_page() {
    let listed = page(&["k/BBB/", "k/AAA/", "k/BBB/"], None);
    assert_eq!(page_symbols(&listed), Ok(strings(&["BBB", "AAA", "BBB"])));
    assert_eq!(page_symbols(&page(&[], None)), Ok(Vec::new()));
}

#[test]
fn page_with_a_malformed_prefix_is_refused() {
    let listed = page(&["k/AAA/", "BBB"], None);
    assert_eq!(page_symbols(&listed), Err(PipelineError::MalformedPrefix));
}

#[test]
fn pattern_has_to_match_the_whole_symbol() {
    assert_eq!(matches_fully("BTCUSDT", "BTCUSDT"), Ok(true));
    assert_eq!(matches_fully("BTC", "BTCUSDT"), Ok(false));
    assert_eq!(matches_fully("USDT", "BTCUSDT"), Ok(false));
    assert_eq!(matches_fully("BTC.*", "BTCUSDT"), Ok(true));
    assert_eq!(matches_fully(".*USDT", "BTCUSDT"), Ok(true));
    assert_eq!(matches_fully(".*", "BTCUSDT"), Ok(true));
    assert_eq!(matches_fully(".*", ""), Ok(true));
    assert_eq!(matches_fully("", "BTCUSDT"), Ok(false));
    assert_eq!(matches_fully("", ""), Ok(true));
}

#[test]
fn alternatives_are_anchored_as_a_whole() {
    assert_eq!(matches_fully("BTC|ETHUSDT", "BTCUSDT"), Ok(false));
    assert_eq!(matches_fully("BTC|ETHUSDT", "ETHUSDT"), Ok(true));
    assert_eq!(matches_fully("BTC|ETHUSDT", "BTC"), Ok(true));
    assert_eq!(matches_fully("a|ab", "ab"), Ok(true));
}

#[test]
fn anchors_in_the_pattern_do_no_harm() {
    assert_eq!(matches_fully("^BTC.*$", "BTCUSDT"), Ok(true));
    assert_eq!(matches_fully("^BTC$", "BTCUSDT"), Ok(false));
}

#[test]
fn flags_in_the_pattern_stay_inside_it() {
    assert_eq!(matches_fully("(?i)btcusdt", "BTCUSDT"), Ok(true));
    assert_eq!(matches_fully("(?m)BTC$", "BTC\nUSDT"), Ok(false));
}

#[test]
fn pattern_that_is_no_expression_is_invalid() {
    assert_eq!(matches_fully("(", "BTCUSDT"), Err(PipelineError::InvalidPattern));
    assert_eq!(matches_fully("[", "BTCUSDT"), Err(PipelineError::InvalidPattern));
    assert_eq!(matches_fully("*", "BTCUSDT"), Err(PipelineError::InvalidPattern));
}

#[test]
fn pattern_that_does_not_compile_inside_the_anchors_is_invalid() {
    assert_eq!(matches_fully("(?x)BTC # all of it", "BTC"), Err(PipelineError::InvalidPattern));
    assert_eq!(matches_fully("(?x) B T C", "BTC"), Ok(true));
}

#[test]
fn pattern_that_only_compiles_inside_the_anchors_is_invalid() {
    assert_eq!(matches_fully("a)|(b", "a"), Err(PipelineError::InvalidPattern));
}

#[test]
fn full_match_outcome_needs_both_searches() {
    assert_eq!(full_match_outcome(Some(true), Some(true)), Ok(true));
    assert_eq!(full_match_outcome(Some(true), Some(false)), Ok(false));
    assert_eq!(full_match_outcome(Some(false), Some(false)), Ok(false));
    assert_eq!(full_match_outcome(Some(false), Some(true)), Ok(true));
    assert_eq!(full_match_outcome(None, Some(true)), Err(PipelineError::InvalidPattern));
    assert_eq!(full_match_outcome(Some(true), None), Err(PipelineError::InvalidPattern));
    assert_eq!(full_match_outcome(None, None), Err(PipelineError::InvalidPattern));
}

#[test]
fn retain_keeps_the_symbols_with_a_true_verdict() {
    let symbols = strings(&["A", "B", "C", "D"]);
    assert_eq!(retain_symbols(&symbols, &vec![true, false, false, true]), strings(&["A", "D"]));
    assert_eq!(retain_symbols(&symbols, &vec![false; 4]), Vec::<String>::new());
    assert_eq!(retain_symbols(&symbols, &vec![true; 4]), symbols);
    assert_eq!(retain_symbols(&Vec::new(), &Vec::new()), Vec::<String>::new());
    assert_eq!(retain_symbols(&symbols, &vec![false, true]), strings(&["B"]));
    assert_eq!(retain_symbols(&symbols, &vec![true, false, false, false, true]), strings(&["A"]));
}

#[test]
fn filter_keeps_full_matches_in_order() {
    let symbols = strings(&["BTCUSDT", "ETHUSDT", "BTCEUR", "XBTCUSDT", "BTC"]);
    assert_eq!(filter_symbols(&symbols, "BTC.*"), Ok(strings(&["BTCUSDT", "BTCEUR", "BTC"])));
    assert_eq!(filter_symbols(&symbols, "BTC"), Ok(strings(&["BTC"])));
    assert_eq!(filter_symbols(&symbols, "NONE"), Ok(Vec::new()));
    assert_eq!(filter_symbols(&symbols, ".*"), Ok(symbols.clone()));
}

#[test]
fn filter_keeps_repeated_symbols() {
    let symbols = strings(&["A", "B", "A"]);
    assert_eq!(filter_symbols(&symbols, "A"), Ok(strings(&["A", "A"])));
}

#[test]
fn filter_reports_an_invalid_pattern() {
    assert_eq!(filter_symbols(&strings(&["A"]), "("), Err(PipelineError::InvalidPattern));
}

#[test]
fn filter_reports_an_invalid_pattern_without_symbols_too() {
    assert_eq!(filter_symbols(&Vec::new(), "("), Err(PipelineError::InvalidPattern));
    assert_eq!(filter_symbols(&Vec::new(), ".*"), Ok(Vec::new()));
}

#[test]
fn patterns_are_valid_when_they_compile_alone_and_anchored() {
    assert!(pattern_is_valid(".*"));
    assert!(pattern_is_valid("BTC|ETH"));
    assert!(pattern_is_valid(""));
    assert!(!pattern_is_valid("("));
    assert!(!pattern_is_valid("a)|(b"));
    assert!(!pattern_is_valid("(?x)BTC # all of it"));
}

#[test]
fn discovery_walks_the_pages_and_filters() {
    let pages = vec![
        page(&["k/BTCUSDT/", "k/ETHUSDT/"], Some("k/ETHUSDT/")),
        page(&["k/BTCEUR/"], None),
        page(&["k/BTCGBP/"], None),
    ];
    let crawl = fetch(&pages, "BTC.*").unwrap();
    assert_eq!(crawl.symbols, strings(&["BTCUSDT", "BTCEUR"]));
    assert_eq!(
        crawl.requests,
        vec![
            "https://s3-ap-northeast-1.amazonaws.com/data.binance.vision?delimiter=/&prefix=data/spot/daily/klines/&marker=".to_string(),
            "https://s3-ap-northeast-1.amazonaws.com/data.binance.vision?delimiter=/&prefix=data/spot/daily/klines/&marker=k/ETHUSDT/".to_string(),
        ]
    );
}

#[test]
fn discovery_lets_no_partial_match_pass() {
    let pages = vec![page(&["k/BTCUSDT/", "k/BTC/", "k/WBTC/"], None)];
    assert_eq!(fetch(&pages, "BTC").unwrap().symbols, strings(&["BTC"]));
}

#[test]
fn discovery_reports_a_malformed_prefix_on_a_page_it_reads() {
    let pages = vec![page(&["k/BTCUSDT/"], Some("m")), page(&["nothing"], None)];
    assert!(matches!(fetch(&pages, ".*"), Err(PipelineError::MalformedPrefix)));
    let behind = vec![page(&["k/BTCUSDT/"], None), page(&["nothing"], None)];
    assert_eq!(fetch(&behind, ".*").unwrap().symbols, strings(&["BTCUSDT"]));
}

#[test]
fn discovery_reports_an_invalid_pattern() {
    let pages = vec![page(&["k/BTCUSDT/"], None)];
    assert!(matches!(fetch(&pages, "("), Err(PipelineError::InvalidPattern)));
}

#[test]
fn discovery_of_an_empty_listing_finds_nothing() {
    let crawl = fetch(&vec![page(&[], None)], ".*").unwrap();
    assert!(crawl.symbols.is_empty());
    assert_eq!(crawl.requests.len(), 1);
    assert!(matches!(fetch(&vec![page(&[], None)], "("), Err(PipelineError::InvalidPattern)));
    let nothing = fetch(&Vec::new(), ".*").unwrap();
    assert!(nothing.symbols.is_empty());
    assert!(nothing.requests.is_empty());
}
