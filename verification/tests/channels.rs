use scholar_rss::cache::{is_stale, ChannelCache};
use scholar_rss::channel::{
    build_channel, build_channel_at, channel_metadata, has_stampable_date, render_channel,
    work_to_item, works_to_items, Channel, Enclosure, Guid, Source,
};
use scholar_rss::cli::parse_cli_args;
use scholar_rss::openalex::Work;
use scholar_rss::reply::{send_rss, Outcome};
use scholar_rss::request::FeedRequest;

fn some(text: &str) -> Option<String> {
    Some(text.to_string())
}

fn texts(list: &[&str]) -> Vec<String> {
    list.iter().map(|t| t.to_string()).collect()
}

fn request(authors: &[&str], sources: &[&str], title: Option<&str>) -> FeedRequest {
    FeedRequest {
        author_ids: texts(authors),
        source_ids: texts(sources),
        from: "2025-01-01".to_string(),
        topics: texts(&[]),
        title: title.map(|t| t.to_string()),
    }
}

fn paper() -> Work {
    Work {
        id: some("https://openalex.org/W1"),
        publication_date: some("2003-07-01"),
        cited_by_count: Some(12),
        best_link: some("https://doi.org/10.1/x"),
        venue: some("Nature"),
        best_title: "Genes & Codes".to_string(),
        authors_joined: some("Ada, Bob"),
        oa_pdf_url: some("https://example.org/x.pdf"),
        abstract_text: some("We show."),
    }
}

fn channel(title: &str) -> Channel {
    build_channel_at(&request(&["A1"], &[], Some(title)), &vec![paper()], "now".to_string()).unwrap()
}

#[test]
fn titles_and_descriptions() {
    let metadata = |a: &[&str], j: &[&str], t: Option<&str>| channel_metadata(&request(a, j, t));
    assert_eq!(
        metadata(&["A1"], &[], Some("Mine")),
        ("Mine".to_string(), "Mine. Recent publications parsed from OpenAlex.".to_string())
    );
    assert_eq!(
        metadata(&["A1", "A2"], &[], None),
        (
            "Recent publications (2 author(s))".to_string(),
            "An RSS feed of recent publications for 2 author(s), parsed from OpenAlex.".to_string()
        )
    );
    assert_eq!(metadata(&[], &["S1"], None).0, "Recent publications (1 journal(s))");
    assert_eq!(
        metadata(&["A1"], &["S1", "S2", "S3"], None).0,
        "Recent publications (1 author(s) and 3 journal(s))"
    );
    assert_eq!(metadata(&[], &[], None).0, "Recent publications (0 author(s))");
}

#[test]
fn a_work_becomes_an_item() {
    let item = work_to_item(&paper());
    assert_eq!(item.title, some("Genes & Codes"));
    assert_eq!(item.author, some("Ada, Bob"));
    assert_eq!(item.description, some("Nature \u{2014} cited 12 times"));
    assert_eq!(item.link, some("https://doi.org/10.1/x"));
    assert_eq!(
        item.guid,
        Some(Guid { value: "https://doi.org/10.1/x".to_string(), permalink: true })
    );
    assert_eq!(
        item.source,
        Some(Source { url: "https://doi.org/10.1/x".to_string(), title: some("Nature") })
    );
    assert_eq!(item.pub_date, some("Tue, 1 Jul 2003 00:00:00 +0000"));
    assert_eq!(
        item.enclosure,
        Some(Enclosure {
            url: "https://example.org/x.pdf".to_string(),
            length: "".to_string(),
            mime_type: "application/pdf".to_string()
        })
    );
    assert_eq!(item.content, some("We show."));
}

#[test]
fn an_item_says_no_more_than_is_known() {
    let item = work_to_item(&Work { best_title: "T".to_string(), ..Work::default() });
    assert_eq!(item.title, some("T"));
    assert_eq!(item.author, None);
    assert_eq!(item.description, None);
    assert_eq!(item.link, None);
    assert_eq!(item.guid, None);
    assert_eq!(item.source, None);
    assert_eq!(item.pub_date, None);
    assert_eq!(item.enclosure, None);
    assert_eq!(item.content, None);
}

#[test]
fn descriptions_of_works() {
    let described = |venue: Option<&str>, cites: Option<u64>| {
        work_to_item(&Work {
            venue: venue.map(|t| t.to_string()),
            cited_by_count: cites,
            ..Work::default()
        })
        .description
    };
    assert_eq!(described(Some("Nature"), Some(0)), some("Nature"));
    assert_eq!(described(Some("Nature"), None), some("Nature"));
    assert_eq!(described(None, Some(3)), some("Cited 3 times"));
    assert_eq!(described(None, Some(0)), None);
}

#[test]
fn a_source_without_a_link_points_to_openalex() {
    let item = work_to_item(&Work { venue: some("Nature"), ..Work::default() });
    assert_eq!(
        item.source,
        Some(Source { url: "https://openalex.org".to_string(), title: some("Nature") })
    );
}

#[test]
fn a_date_that_is_none_is_left_out() {
    let item = work_to_item(&Work { publication_date: some("soon"), ..Work::default() });
    assert_eq!(item.pub_date, None);
}

#[test]
fn works_with_unwritable_dates_give_no_channel() {
    let far = Work { publication_date: some("+12345-01-01"), ..Work::default() };
    assert!(!has_stampable_date(&far));
    assert!(has_stampable_date(&paper()));
    assert!(works_to_items(&vec![paper(), far]).is_none());
    let far = Work { publication_date: some("+12345-01-01"), ..Work::default() };
    assert!(build_channel(&request(&["A1"], &[], None), &vec![far]).is_none());
}

#[test]
fn channels_hold_an_item_for_each_work() {
    let other = Work { best_title: "Other".to_string(), ..Work::default() };
    let channel = build_channel_at(&request(&["A1"], &[], None), &vec![paper(), other], "now".to_string())
        .unwrap();
    assert_eq!(channel.items.len(), 2);
    assert_eq!(channel.items[0], work_to_item(&paper()));
    assert_eq!(channel.items[1].title, some("Other"));
    assert_eq!(channel.info.title, "Recent publications (1 author(s))");
    assert_eq!(channel.info.language, "en-US");
    assert_eq!(channel.info.generator, "google-scholar-rss-feed");
    assert_eq!(channel.info.ttl, "60");
    assert_eq!(channel.info.docs, "https://cyber.harvard.edu/rss/rss.html");
    assert_eq!(channel.info.text_input.title, "OpenAlex");
    assert_eq!(channel.info.text_input.description, "Search OpenAlex");
    assert_eq!(channel.info.text_input.name, "q");
    assert_eq!(channel.info.text_input.link, "https://openalex.org/works");
    assert_eq!(channel.info.category, "Scientific Research");
    assert_eq!(channel.info.pub_date, "now");
    assert_eq!(channel.info.last_build_date, "now");
}

#[test]
fn a_channel_built_now_is_dated_now() {
    let channel = build_channel(&request(&["A1"], &[], None), &vec![paper()]).unwrap();
    assert!(channel.info.pub_date.ends_with(" +0000"));
    assert_eq!(channel.info.pub_date, channel.info.last_build_date);
}

#[test]
fn channels_are_written_as_rss() {
    let text = render_channel(channel("Mine"));
    let read = rss::Channel::read_from(text.as_bytes()).unwrap();
    assert_eq!(read.title(), "Mine");
    assert_eq!(read.description(), "Mine. Recent publications parsed from OpenAlex.");
    assert_eq!(read.language(), Some("en-US"));
    assert_eq!(read.generator(), Some("google-scholar-rss-feed"));
    assert_eq!(read.ttl(), Some("60"));
    assert_eq!(read.docs(), Some("https://cyber.harvard.edu/rss/rss.html"));
    assert_eq!(read.pub_date(), Some("now"));
    assert_eq!(read.last_build_date(), Some("now"));
    assert_eq!(read.categories()[0].name(), "Scientific Research");
    let input = read.text_input().unwrap();
    assert_eq!(input.title(), "OpenAlex");
    assert_eq!(input.description(), "Search OpenAlex");
    assert_eq!(input.name(), "q");
    assert_eq!(input.link(), "https://openalex.org/works");
    assert_eq!(read.items().len(), 1);
    let item = &read.items()[0];
    assert_eq!(item.title(), Some("Genes & Codes"));
    assert_eq!(item.author(), Some("Ada, Bob"));
    assert_eq!(item.description(), Some("Nature \u{2014} cited 12 times"));
    assert_eq!(item.link(), Some("https://doi.org/10.1/x"));
    assert_eq!(item.guid().unwrap().value(), "https://doi.org/10.1/x");
    assert!(item.guid().unwrap().is_permalink());
    assert_eq!(item.source().unwrap().url(), "https://doi.org/10.1/x");
    assert_eq!(item.source().unwrap().title(), Some("Nature"));
    assert_eq!(item.pub_date(), Some("Tue, 1 Jul 2003 00:00:00 +0000"));
    assert_eq!(item.enclosure().unwrap().url(), "https://example.org/x.pdf");
    assert_eq!(item.enclosure().unwrap().length(), "");
    assert_eq!(item.enclosure().unwrap().mime_type(), "application/pdf");
    assert_eq!(item.content(), Some("We show."));
}

#[test]
fn cached_channels_are_found_by_their_key() {
    let mut cache = ChannelCache::new();
    assert!(cache.channel_if_cached(&request(&["A1"], &[], None)).is_none());
    cache.insert(request(&["A1"], &[], Some("Mine")), channel("Mine"));
    assert_eq!(cache.find_cached(&request(&["A1"], &[], None).cache_key()), Some(channel("Mine")));
    // The title is no part of the key.
    assert_eq!(
        cache.channel_if_cached(&request(&["A1"], &[], Some("Yours"))),
        Some(channel("Mine"))
    );
    assert!(cache.channel_if_cached(&request(&["A2"], &[], Some("Mine"))).is_none());
    assert!(cache.channel_if_cached(&request(&["A1"], &["S1"], Some("Mine"))).is_none());
}

#[test]
fn caching_a_request_again_replaces_its_channel() {
    let mut cache = ChannelCache::new();
    cache.insert(request(&["A1"], &[], None), channel("Old"));
    cache.insert(request(&["A2"], &[], None), channel("Other"));
    cache.insert(request(&["A1"], &[], None), channel("New"));
    assert_eq!(cache.channel_if_cached(&request(&["A1"], &[], None)), Some(channel("New")));
    assert_eq!(cache.channel_if_cached(&request(&["A2"], &[], None)), Some(channel("Other")));
}

#[test]
fn a_cleared_cache_is_empty() {
    let mut cache = ChannelCache::new();
    cache.insert(request(&["A1"], &[], None), channel("Mine"));
    cache.clear();
    assert!(cache.channel_if_cached(&request(&["A1"], &[], None)).is_none());
}

#[test]
fn the_cache_is_cleared_every_hour() {
    assert!(!is_stale(0));
    assert!(!is_stale(3599));
    assert!(is_stale(3600));
    assert!(is_stale(7200));
}

#[test]
fn replies_to_requests() {
    let origin = ("Access-Control-Allow-Origin".to_string(), "*".to_string());
    let reply = send_rss(Outcome::NoFeed);
    assert_eq!(reply.status, 200);
    assert_eq!(reply.headers, vec![origin.clone()]);
    assert_eq!(
        reply.body,
        "No authors or journals specified. Provide ?author_id=, ?orcid=, \
         ?author=, ?source_id=, ?issn=, or ?journal=, or configure feeds in \
         the config file and use ?feed=<name>."
    );
    let reply = send_rss(Outcome::Failed("Unknown feed \"x\".".to_string()));
    assert_eq!(reply.status, 400);
    assert_eq!(reply.headers, vec![origin.clone()]);
    assert_eq!(reply.body, "Unknown feed \"x\".");
    let reply = send_rss(Outcome::Feed(channel("Mine")));
    assert_eq!(reply.status, 200);
    assert_eq!(
        reply.headers,
        vec![("Content-Type".to_string(), "text/xml; charset=utf-8".to_string()), origin]
    );
    assert_eq!(reply.body, render_channel(channel("Mine")));
}

#[test]
fn the_command_line_names_address_and_configuration() {
    let parsed = |args: &[&str], env: Option<&str>| {
        parse_cli_args(&texts(args), env.map(|t| t.to_string()))
    };
    let pair = |a: &str, c: &str| (a.to_string(), c.to_string());
    assert_eq!(parsed(&[], None), pair("127.0.0.1:3005", "feeds.toml"));
    assert_eq!(parsed(&["0.0.0.0:3005", "--config", "my.toml"], None), pair("0.0.0.0:3005", "my.toml"));
    assert_eq!(parsed(&["--config", "my.toml", "a", "b"], Some("env.toml")), pair("a", "my.toml"));
    assert_eq!(parsed(&["a"], Some("env.toml")), pair("a", "env.toml"));
    assert_eq!(parsed(&["--config", "x", "--config", "y"], None).1, "y");
    assert_eq!(parsed(&["--config", "x", "--config"], Some("env.toml")).1, "env.toml");
    assert_eq!(parsed(&["--config", "--config", "a"], None), pair("a", "--config"));
}

#[test]
fn flags_are_no_address() {
    let parsed = |args: &[&str], env: Option<&str>| {
        parse_cli_args(&texts(args), env.map(|t| t.to_string()))
    };
    let pair = |a: &str, c: &str| (a.to_string(), c.to_string());
    assert_eq!(parsed(&["--verbose", "0.0.0.0:3005"], None), pair("0.0.0.0:3005", "feeds.toml"));
    assert_eq!(parsed(&["-v", "--config", "my.toml", "-q", "a", "b"], Some("env.toml")), pair("a", "my.toml"));
    assert_eq!(parsed(&["--verbose"], Some("env.toml")), pair("127.0.0.1:3005", "env.toml"));
    assert_eq!(parsed(&["--config", "-x", "a"], None), pair("a", "-x"));
    assert_eq!(parsed(&["a", "--verbose"], None).0, "a");
    assert_eq!(parsed(&["", "a"], None).0, "");
}

#[test]
fn a_channel_built_now_bears_a_timestamp() {
    let channel = build_channel(&request(&["A1"], &[], None), &vec![paper()]).unwrap();
    assert!(chrono::DateTime::parse_from_rfc2822(&channel.info.pub_date).is_ok());
}
