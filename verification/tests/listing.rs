use kline_ingest::paginator::{
    build_archive_prefix, build_listing_url, push_encoded_marker, ListingPaginator,
};

const ENDPOINT: &str = "https://s3-ap-northeast-1.amazonaws.com/data.binance.vision";

fn marker(text: &str) -> Option<String> {
    Some(text.to_string())
}

fn encoded(text: &str) -> String {
    let mut out = String::new();
    push_encoded_marker(&mut out, text);
    out
}

#[test]
fn first_page_follows_the_empty_marker() {
    assert_eq!(
        build_listing_url("data/spot/daily/klines/", ""),
        format!("{ENDPOINT}?delimiter=/&prefix=data/spot/daily/klines/&marker=")
    );
}

#[test]
fn plain_markers_stand_as_they_are() {
    assert_eq!(
        build_listing_url("data/spot/daily/klines/", "data/spot/daily/klines/BTCUSDT/"),
        format!(
            "{ENDPOINT}?delimiter=/&prefix=data/spot/daily/klines/&marker=data/spot/daily/klines/BTCUSDT/"
        )
    );
    assert_eq!(encoded("AZaz09-._~/"), "AZaz09-._~/");
}

#[test]
fn other_bytes_are_percent_encoded() {
    assert_eq!(encoded("a b"), "a%20b");
    assert_eq!(encoded("a&b=c"), "a%26b%3Dc");
    assert_eq!(encoded("50%"), "50%25");
    assert_eq!(encoded("x+y?z#"), "x%2By%3Fz%23");
    assert_eq!(encoded("\u{0}\u{7f}"), "%00%7F");
    assert_eq!(encoded("@[`{"), "%40%5B%60%7B");
}

#[test]
fn characters_beyond_ascii_are_encoded_byte_by_byte() {
    assert_eq!(encoded("é"), "%C3%A9");
    assert_eq!(encoded("€"), "%E2%82%AC");
    assert_eq!(encoded("𝄞"), "%F0%9D%84%9E");
}

#[test]
fn encoding_appends_to_the_address() {
    let mut url = String::from("x?marker=");
    push_encoded_marker(&mut url, "a/b c");
    assert_eq!(url, "x?marker=a/b%20c");
}

#[test]
fn archive_prefix_names_symbol_and_interval() {
    assert_eq!(build_archive_prefix("BTCUSDT", "1m"), "data/spot/daily/klines/BTCUSDT/1m/");
}

#[test]
fn paginator_asks_until_a_page_has_no_cursor() {
    let mut paginator = ListingPaginator::new("p/");
    assert!(!paginator.is_exhausted());
    assert_eq!(paginator.next_request(), Some(format!("{ENDPOINT}?delimiter=/&prefix=p/&marker=")));
    paginator.advance(&marker("p/a/"));
    assert!(!paginator.is_exhausted());
    assert_eq!(
        paginator.next_request(),
        Some(format!("{ENDPOINT}?delimiter=/&prefix=p/&marker=p/a/"))
    );
    paginator.advance(&marker("p/b c/"));
    assert_eq!(
        paginator.next_request(),
        Some(format!("{ENDPOINT}?delimiter=/&prefix=p/&marker=p/b%20c/"))
    );
    paginator.advance(&None);
    assert!(paginator.is_exhausted());
    assert_eq!(paginator.next_request(), None);
}

#[test]
fn exhausted_paginator_stays_exhausted() {
    let mut paginator = ListingPaginator::new("p/");
    paginator.advance(&None);
    paginator.advance(&marker("late"));
    assert!(paginator.is_exhausted());
    assert_eq!(paginator.next_request(), None);
}

#[test]
fn same_request_until_the_page_is_noted() {
    let paginator = ListingPaginator::new("p/");
    assert_eq!(paginator.next_request(), paginator.next_request());
}

#[test]
fn crawl_makes_one_request_per_page() {
    let cursors = vec![marker("m1"), marker("m2"), None];
    let requests = ListingPaginator::crawl("p/", &cursors);
    assert_eq!(
        requests,
        vec![
            format!("{ENDPOINT}?delimiter=/&prefix=p/&marker="),
            format!("{ENDPOINT}?delimiter=/&prefix=p/&marker=m1"),
            format!("{ENDPOINT}?delimiter=/&prefix=p/&marker=m2"),
        ]
    );
}

#[test]
fn crawl_stops_behind_the_first_page_without_a_cursor() {
    let cursors = vec![marker("m1"), None, marker("m3"), None];
    assert_eq!(ListingPaginator::crawl("p/", &cursors).len(), 2);
    assert_eq!(ListingPaginator::crawl("p/", &vec![None]).len(), 1);
    assert_eq!(ListingPaginator::crawl("p/", &vec![None, None]).len(), 1);
}

#[test]
fn crawl_of_pages_that_all_have_cursors_reads_them_all() {
    let cursors = vec![marker("m1"), marker("m2")];
    assert_eq!(ListingPaginator::crawl("p/", &cursors).len(), 2);
    assert!(ListingPaginator::crawl("p/", &Vec::new()).is_empty());
}
