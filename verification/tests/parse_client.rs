use experiments::clock::get_now;
use experiments::parse::{NeatNetworks, Parse, ParseResult, QueryOptions, Results};

fn server() -> Parse {
    Parse::new(
        "https://parse.example.com".to_string(),
        "app-id".to_string(),
        "SECRET-REDACTED".to_string(),
    )
}

#[test]
fn parse_keeps_settings() {
    let parse = server();
    assert_eq!(parse.remote_url(), "https://parse.example.com");
    assert_eq!(parse.app_id(), "app-id");
    assert_eq!(parse.rest_key(), "SECRET-REDACTED");
}

#[test]
fn parse_urls() {
    let parse = server();
    assert_eq!(
        parse.class_url("NeatNetworks"),
        "https://parse.example.com/classes/NeatNetworks"
    );
    assert_eq!(
        parse.object_url("NeatNetworkResults", "abc123"),
        "https://parse.example.com/classes/NeatNetworkResults/abc123"
    );
}

#[test]
fn query_defaults() {
    let options = QueryOptions::resolve(None, None, None);
    assert_eq!(options.limit, 1000);
    assert_eq!(options.skip, 0);
    assert_eq!(options.order, "createdAt");
}

#[test]
fn query_given_options() {
    let options = QueryOptions::resolve(Some(10), Some(30), Some("from,days".to_string()));
    assert_eq!(options.limit, 10);
    assert_eq!(options.skip, 30);
    assert_eq!(options.order, "from,days");
}

#[test]
fn results_new_has_no_count() {
    let results = Results::new(vec![1u64, 2, 3], None);
    assert_eq!(results.count, None);
    assert_eq!(results.results, vec![1, 2, 3]);
    assert_eq!(results.error, None);
}

#[test]
fn results_accessors() {
    let mut results = Results::new(vec!["a".to_string(), "b".to_string()], Some("oops".to_string()));
    assert_eq!(results.get_first(), Some("a".to_string()));
    assert_eq!(results.get_results(), vec!["a".to_string(), "b".to_string()]);
    assert_eq!(results.get_errors(), Some("oops".to_string()));
    assert_eq!(results.get_count(), None);
    results.count = Some(42);
    assert_eq!(results.get_count(), Some(42));
}

#[test]
fn results_empty_page() {
    let results: Results<NeatNetworks> = Results::new(vec![], None);
    assert!(results.get_first().is_none());
    assert!(results.get_results().is_empty());
    assert_eq!(results.get_errors(), None);
}

#[test]
fn parse_result_object_id() {
    let created = ParseResult::new(Some("xyz".to_string()));
    assert_eq!(created.object_id(), Some("xyz".to_string()));
    assert_eq!(ParseResult::new(None).object_id(), None);
}

#[test]
fn clock_reads_after_2020() {
    let now = get_now().unwrap();
    assert!(now > 1_577_836_800_000);
}
