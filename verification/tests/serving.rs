use scholar_rss::cache::ChannelCache;
use scholar_rss::config::{Config, FeedConfig};
use scholar_rss::openalex::Work;
use scholar_rss::reply::{send_rss, Outcome, USAGE};
use scholar_rss::request::{FeedRequest, Lookups};
use scholar_rss::serve::{
    begin_request, begin_with_params, continue_request, continue_since, Begun, Continued,
};

fn some(text: &str) -> Option<String> {
    Some(text.to_string())
}

fn texts(list: &[&str]) -> Vec<String> {
    list.iter().map(|t| t.to_string()).collect()
}

fn config() -> Config {
    let mut config = Config::default();
    config.feeds.insert(
        "myfield".to_string(),
        FeedConfig { author_ids: texts(&["A1"]), ..FeedConfig::default() },
    );
    config
}

#[test]
fn a_request_for_an_unknown_feed_is_refused() {
    let begun = begin_request(Some("feed=no%20such&author_id=A1"), &config());
    assert_eq!(
        begun,
        Begun::Answered(send_rss(Outcome::Failed("Unknown feed \"no such\".".to_string())))
    );
    match begun {
        Begun::Answered(reply) => assert_eq!(reply.status, 400),
        other => panic!("{:?}", other),
    }
}

#[test]
fn a_request_for_nothing_is_told_what_to_ask_for() {
    for query in [None, Some(""), Some("topic=T1"), Some("author_id=+")] {
        match begin_request(query, &config()) {
            Begun::Answered(reply) => {
                assert_eq!(reply.status, 200);
                assert_eq!(reply.body, USAGE);
            }
            other => panic!("{:?}", other),
        }
    }
}

#[test]
fn a_missing_default_feed_is_a_bad_request() {
    let mut config = config();
    config.default_feed = some("gone");
    let message = "Configured default_feed \"gone\" not found.".to_string();
    assert_eq!(begin_request(None, &config), Begun::Answered(send_rss(Outcome::Failed(message))));
}

#[test]
fn a_request_for_a_feed_is_planned() {
    let plan = FeedConfig {
        author_ids: texts(&["A1"]),
        orcids: texts(&["0000-0002"]),
        ..FeedConfig::default()
    };
    assert_eq!(begin_request(Some("feed=myfield&orcid=0000-0002"), &config()), Begun::LookUp(plan));
    let params = vec![("journal".to_string(), "Nature".to_string())];
    let plan = FeedConfig { journals: texts(&["Nature"]), ..FeedConfig::default() };
    assert_eq!(begin_with_params(&params, &Config::default()), Begun::LookUp(plan));
}

#[test]
fn what_cannot_be_resolved_leaves_nothing_to_serve() {
    let plan = FeedConfig { authors: texts(&["Nobody"]), ..FeedConfig::default() };
    let found = Lookups { authors: vec![None], ..Lookups::default() };
    assert_eq!(
        continue_since(plan, &found, None),
        Continued::Answered(send_rss(Outcome::NoFeed))
    );
}

#[test]
fn what_is_resolved_is_served() {
    let plan = FeedConfig {
        issns: texts(&["0028-0836"]),
        from: some("2025-01-01"),
        ..FeedConfig::default()
    };
    let found = Lookups { issns: vec![some("S1")], ..Lookups::default() };
    let request = FeedRequest {
        author_ids: texts(&[]),
        source_ids: texts(&["S1"]),
        from: "2025-01-01".to_string(),
        topics: texts(&[]),
        title: None,
    };
    assert_eq!(
        continue_since(plan.clone(), &found, some("1999-01-01")),
        Continued::Serve(request.clone())
    );
    assert_eq!(continue_request(plan, &found, &config()), Continued::Serve(request));
}

#[test]
fn a_window_before_all_dates_cannot_be_served() {
    let mut config = config();
    config.settings.from_days = Some(4294967295);
    let plan = FeedConfig { author_ids: texts(&["A1"]), ..FeedConfig::default() };
    assert_eq!(continue_request(plan, &Lookups::default(), &config), Continued::WindowOutOfRange);
}

#[test]
fn a_built_channel_is_served_again() {
    let request = FeedRequest {
        author_ids: texts(&["A1"]),
        source_ids: texts(&[]),
        from: "2025-01-01".to_string(),
        topics: texts(&[]),
        title: some("Mine"),
    };
    let works = vec![Work { best_title: "T".to_string(), ..Work::default() }];
    let mut cache = ChannelCache::new();
    let built = cache.build_and_cache(request.clone(), &works).unwrap();
    assert_eq!(built.info.title, "Mine");
    assert_eq!(built.items.len(), 1);
    assert_eq!(cache.channel_if_cached(&request), Some(built));
}

#[test]
fn a_channel_that_cannot_be_built_is_not_cached() {
    let request = FeedRequest {
        author_ids: texts(&["A1"]),
        source_ids: texts(&[]),
        from: "2025-01-01".to_string(),
        topics: texts(&[]),
        title: None,
    };
    let works = vec![Work { publication_date: some("+12345-01-01"), ..Work::default() }];
    let mut cache = ChannelCache::new();
    assert!(cache.build_and_cache(request.clone(), &works).is_none());
    assert!(cache.channel_if_cached(&request).is_none());
}
