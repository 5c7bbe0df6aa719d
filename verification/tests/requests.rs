use scholar_rss::config::{config_path, mailto, Config, ConfigFile, FeedConfig, Settings};
use scholar_rss::params::{collect_param, first_param, query_params};
use scholar_rss::request::{
    plan_feed_request, resolve_feed_request, resolve_since, FeedRequest, Lookups, Resolved,
};

fn some(text: &str) -> Option<String> {
    Some(text.to_string())
}

fn texts(list: &[&str]) -> Vec<String> {
    list.iter().map(|t| t.to_string()).collect()
}

fn pairs(list: &[(&str, &str)]) -> Vec<(String, String)> {
    list.iter().map(|(k, v)| (k.to_string(), v.to_string())).collect()
}

fn synbio() -> FeedConfig {
    FeedConfig {
        title: some("Synthetic Biology"),
        author_ids: texts(&["A5135542215", "https://openalex.org/A5005023517"]),
        topics: texts(&["T1"]),
        from: some("2024-05-01"),
        ..FeedConfig::default()
    }
}

fn config() -> Config {
    let mut config = Config::default();
    config.default_feed = some("synbio");
    config.feeds.insert("synbio".to_string(), synbio());
    config
}

fn feed(resolved: Resolved) -> FeedRequest {
    match resolved {
        Resolved::Feed(request) => request,
        other => panic!("{:?}", other),
    }
}

#[test]
fn queries_are_decoded() {
    assert_eq!(
        query_params(Some("author_id=A1&author_id=A2&author=Jeff%20Nivala&feed=a+b&flag")),
        pairs(&[
            ("author_id", "A1"),
            ("author_id", "A2"),
            ("author", "Jeff Nivala"),
            ("feed", "a b"),
            ("flag", "")
        ])
    );
    assert_eq!(query_params(None), pairs(&[]));
    assert_eq!(query_params(Some("")), pairs(&[]));
}

#[test]
fn repeated_values_are_collected_without_the_blank_ones() {
    let params = pairs(&[("a", "1"), ("b", "2"), ("a", " "), ("a", " 3 "), ("a", "1")]);
    assert_eq!(collect_param(&params, "a"), texts(&["1", " 3 ", "1"]));
    assert_eq!(collect_param(&params, "c"), texts(&[]));
}

#[test]
fn the_first_value_counts_even_if_it_is_blank() {
    let params = pairs(&[("a", ""), ("a", "1"), ("b", "2"), ("b", "3")]);
    assert_eq!(first_param(&params, "a"), None);
    assert_eq!(first_param(&params, "b"), some("2"));
    assert_eq!(first_param(&params, "c"), None);
}

#[test]
fn an_unknown_feed_is_an_error() {
    let params = pairs(&[("feed", "nope"), ("author_id", "A1")]);
    assert_eq!(
        plan_feed_request(&params, &config()),
        Err("Unknown feed \"nope\".".to_string())
    );
}

#[test]
fn a_default_feed_that_is_not_there_is_an_error() {
    let mut config = Config::default();
    config.default_feed = some("gone");
    assert_eq!(
        plan_feed_request(&pairs(&[]), &config),
        Err("Configured default_feed \"gone\" not found.".to_string())
    );
}

#[test]
fn a_bare_request_is_for_the_default_feed_or_nothing() {
    assert_eq!(plan_feed_request(&pairs(&[]), &config()), Ok(Some(synbio())));
    assert_eq!(plan_feed_request(&pairs(&[]), &Config::default()), Ok(None));
    assert_eq!(plan_feed_request(&pairs(&[("topic", "T1")]), &Config::default()), Ok(None));
}

#[test]
fn a_blank_feed_name_is_no_feed_name() {
    let params = pairs(&[("feed", " "), ("author_id", "A1")]);
    let plan = plan_feed_request(&params, &config()).unwrap().unwrap();
    assert_eq!(plan, FeedConfig { author_ids: texts(&["A1"]), ..FeedConfig::default() });
}

#[test]
fn parameters_are_merged_with_the_named_feed() {
    let params = pairs(&[
        ("feed", "synbio"),
        ("author_id", "A1"),
        ("orcid", "0000"),
        ("author", "Ada"),
        ("source_id", "S1"),
        ("issn", "1234"),
        ("journal", "Nature"),
        ("concept", "T3"),
        ("topic", "T2"),
        ("from", "2025-01-01"),
    ]);
    let plan = plan_feed_request(&params, &config()).unwrap().unwrap();
    assert_eq!(
        plan,
        FeedConfig {
            title: some("Synthetic Biology"),
            author_ids: texts(&["A5135542215", "https://openalex.org/A5005023517", "A1"]),
            orcids: texts(&["0000"]),
            authors: texts(&["Ada"]),
            source_ids: texts(&["S1"]),
            issns: texts(&["1234"]),
            journals: texts(&["Nature"]),
            topics: texts(&["T1", "T2", "T3"]),
            from: some("2025-01-01"),
        }
    );
}

#[test]
fn parameters_alone_leave_the_default_feed_out() {
    for key in ["author_id", "orcid", "author", "source_id", "issn", "journal"] {
        let plan = plan_feed_request(&pairs(&[(key, "x")]), &config()).unwrap().unwrap();
        assert_eq!(plan.title, None);
    }
}

#[test]
fn ids_are_normalized_deduplicated_and_sorted() {
    let plan = FeedConfig {
        author_ids: texts(&["A2", "https://openalex.org/A1"]),
        source_ids: texts(&["S2"]),
        topics: texts(&["https://openalex.org/T9", "T1", "T9"]),
        title: some("Mine"),
        ..FeedConfig::default()
    };
    let found = Lookups {
        orcids: vec![some("A1"), None, some("A0")],
        authors: vec![None, Some(("A3".to_string(), "Ada".to_string()))],
        issns: vec![some("S1")],
        journals: vec![Some(("S2".to_string(), "Nature".to_string()))],
    };
    assert_eq!(
        feed(resolve_since(plan, &found, some("2025-01-01"))),
        FeedRequest {
            author_ids: texts(&["A0", "A1", "A2", "A3"]),
            source_ids: texts(&["S1", "S2"]),
            from: "2025-01-01".to_string(),
            topics: texts(&["T1", "T9"]),
            title: some("Mine"),
        }
    );
}

#[test]
fn a_plan_that_resolves_to_no_one_is_nothing() {
    let plan = FeedConfig { authors: texts(&["Ada"]), ..FeedConfig::default() };
    let found = Lookups { authors: vec![None], ..Lookups::default() };
    assert_eq!(resolve_since(plan, &found, some("2025-01-01")), Resolved::Nothing);
    assert_eq!(resolve_since(FeedConfig::default(), &Lookups::default(), None), Resolved::Nothing);
}

#[test]
fn a_journal_alone_makes_a_feed() {
    let plan = FeedConfig { source_ids: texts(&["S1"]), ..FeedConfig::default() };
    let request = feed(resolve_since(plan, &Lookups::default(), some("2025-01-01")));
    assert_eq!(request.author_ids, texts(&[]));
    assert_eq!(request.source_ids, texts(&["S1"]));
}

#[test]
fn the_earliest_date_of_the_plan_comes_before_the_window() {
    let plan = FeedConfig { from: some("2020-01-01"), ..synbio() };
    let request = feed(resolve_since(plan, &Lookups::default(), some("2025-01-01")));
    assert_eq!(request.from, "2020-01-01");
    let request = feed(resolve_feed_request(synbio(), &Lookups::default(), &config()));
    assert_eq!(request.from, "2024-05-01");
}

#[test]
fn the_configured_window_is_used_without_a_date() {
    let plan = FeedConfig { from: None, ..synbio() };
    let request = feed(resolve_feed_request(plan, &Lookups::default(), &config()));
    assert_eq!(Some(request.from), scholar_rss::dates::default_from_date(None));
}

#[test]
fn a_window_out_of_range_is_told() {
    let mut config = config();
    config.settings.from_days = Some(4294967295);
    let plan = FeedConfig { from: None, ..synbio() };
    assert_eq!(
        resolve_feed_request(plan, &Lookups::default(), &config),
        Resolved::WindowOutOfRange
    );
}

#[test]
fn the_cache_key_leaves_the_title_out() {
    let one = feed(resolve_since(synbio(), &Lookups::default(), None));
    let other = FeedRequest { title: None, ..one.clone() };
    assert!(one != other);
    assert_eq!(one.cache_key(), other.cache_key());
    assert_eq!(
        one.cache_key(),
        (
            texts(&["A5005023517", "A5135542215"]),
            texts(&[]),
            "2024-05-01".to_string(),
            texts(&["T1"])
        )
    );
}

#[test]
fn the_cache_key_does_not_depend_on_the_order_of_ids() {
    let one = FeedConfig { author_ids: texts(&["A1", "A2"]), ..FeedConfig::default() };
    let other = FeedConfig { author_ids: texts(&["A2", "A1", "A2"]), ..FeedConfig::default() };
    assert_eq!(
        feed(resolve_since(one, &Lookups::default(), some("d"))).cache_key(),
        feed(resolve_since(other, &Lookups::default(), some("d"))).cache_key()
    );
}

#[test]
fn a_missing_or_malformed_file_is_an_empty_configuration() {
    for file in [ConfigFile::Missing, ConfigFile::Malformed] {
        let config = Config::load(file);
        assert_eq!(config.default_feed, None);
        assert_eq!(config.settings, Settings::default());
        assert!(config.feeds.is_empty());
    }
    assert_eq!(Config::load(ConfigFile::Parsed(config())).default_feed, some("synbio"));
}

#[test]
fn the_contact_and_the_path_are_as_configured() {
    let mut config = config();
    assert_eq!(mailto(&config), None);
    config.settings.mailto = some("you@example.com");
    assert_eq!(mailto(&config), some("you@example.com"));
    let path = "feeds.toml".to_string();
    assert_eq!(config_path(Some(&path)), "feeds.toml");
}

#[test]
fn a_copy_of_a_feed_is_the_same_feed() {
    assert_eq!(synbio().clone(), synbio());
}
