use scholar_rss::abstracts::abstract_text;
use scholar_rss::config::Config;
use scholar_rss::dates::{default_from_date, from_date_on, is_stampable, to_rfc2822};
use scholar_rss::encoding::size_up_to;
use scholar_rss::openalex::{
    authors_joined, best_link, best_title, resolve_author_name, resolve_issn, resolve_journal_name, resolve_orcid, Author,
    AuthorsResponse, SourceRecord, SourcesResponse,
};
use scholar_rss::queries::{
    author_filter, author_search_url, contact_has_room, issn_url, journal_filter,
    journal_search_url, orcid_url, works_url,
};
use scholar_rss::request::FeedRequest;

fn some(text: &str) -> Option<String> {
    Some(text.to_string())
}

fn with_contact() -> Config {
    let mut config = Config::default();
    config.settings.mailto = some("you@example.com");
    config
}

fn request(authors: &[&str], sources: &[&str], topics: &[&str]) -> FeedRequest {
    FeedRequest {
        author_ids: authors.iter().map(|t| t.to_string()).collect(),
        source_ids: sources.iter().map(|t| t.to_string()).collect(),
        from: "2025-01-01".to_string(),
        topics: topics.iter().map(|t| t.to_string()).collect(),
        title: None,
    }
}

#[test]
fn dates_become_timestamps() {
    assert_eq!(to_rfc2822("2003-07-01"), some("Tue, 1 Jul 2003 00:00:00 +0000"));
    assert_eq!(to_rfc2822("2025-12-31"), some("Wed, 31 Dec 2025 00:00:00 +0000"));
    assert_eq!(to_rfc2822("0000-01-01"), some("Sat, 1 Jan 0000 00:00:00 +0000"));
    assert_eq!(to_rfc2822("9999-12-31"), some("Fri, 31 Dec 9999 00:00:00 +0000"));
}

#[test]
fn what_is_no_date_has_no_timestamp() {
    for text in ["", "2025", "2025-13-01", "2025-02-30", "yesterday", "2025-01-01T00:00"] {
        assert!(is_stampable(text));
        assert_eq!(to_rfc2822(text), None);
    }
}

#[test]
fn years_beyond_four_digits_cannot_be_stamped() {
    assert!(is_stampable("9999-12-31"));
    assert!(!is_stampable("+10000-01-01"));
    assert!(!is_stampable("-0001-12-31"));
    assert!(is_stampable("0000-01-01"));
}

#[test]
fn the_window_starts_so_many_days_ago() {
    // Day 719163 is January 1, 1970.
    assert_eq!(from_date_on(Some(0), 719163), some("1970-01-01"));
    assert_eq!(from_date_on(Some(1), 719163), some("1969-12-31"));
    assert_eq!(from_date_on(None, 719163), some("1969-01-01"));
    assert_eq!(from_date_on(Some(365), 719163), from_date_on(None, 719163));
}

#[test]
fn a_window_before_all_dates_has_no_start() {
    assert_eq!(from_date_on(Some(4294967295), 719163), None);
    assert_eq!(from_date_on(Some(100000000), 719163), None);
}

#[test]
fn the_default_window_ends_today() {
    let today = default_from_date(Some(0)).unwrap();
    let yesterday = default_from_date(Some(1)).unwrap();
    assert!(today.as_str() >= "2024-01-01");
    assert!(yesterday < today);
    assert_eq!(today.len(), 10);
}

#[test]
fn orcids_are_looked_up_by_their_last_segment() {
    let expected = some("https://api.openalex.org/authors/https://orcid.org/0000-0002-1825-0097");
    let config = Config::default();
    assert_eq!(orcid_url("0000-0002-1825-0097", &config), expected);
    assert_eq!(orcid_url(" https://orcid.org/0000-0002-1825-0097\n", &config), expected);
}

#[test]
fn the_contact_is_added_to_a_lookup() {
    assert_eq!(
        orcid_url("0000-0002-1825-0097", &with_contact()),
        some("https://api.openalex.org/authors/https://orcid.org/0000-0002-1825-0097?mailto=you%40example.com")
    );
    assert_eq!(
        issn_url(" 0028-0836 ", &with_contact()),
        some("https://api.openalex.org/sources/issn:0028-0836?mailto=you%40example.com")
    );
}

#[test]
fn issns_are_looked_up_trimmed() {
    assert_eq!(
        issn_url(" 0028-0836 ", &Config::default()),
        some("https://api.openalex.org/sources/issn:0028-0836")
    );
}

#[test]
fn lookups_are_normalized_by_the_url_parser() {
    assert_eq!(
        issn_url("00 28\u{e9}", &Config::default()),
        some("https://api.openalex.org/sources/issn:00%2028%C3%A9")
    );
}

#[test]
fn searches_ask_for_the_best_match() {
    assert_eq!(
        author_search_url("Jeff Nivala", &Config::default()),
        some("https://api.openalex.org/authors?search=Jeff+Nivala&per_page=1")
    );
    assert_eq!(
        journal_search_url("Nature Communications", &with_contact()),
        some("https://api.openalex.org/sources?search=Nature+Communications&per_page=1&mailto=you%40example.com")
    );
}

#[test]
fn works_are_asked_for_newest_first() {
    assert_eq!(
        works_url(some("author.id:A1"), &with_contact()),
        some("https://api.openalex.org/works?filter=author.id%3AA1&sort=publication_date%3Adesc&per_page=50&mailto=you%40example.com")
    );
    assert_eq!(works_url(None, &with_contact()), None);
}

#[test]
fn filters_name_ids_date_and_topics() {
    let both = request(&["A1", "A2"], &["S1"], &["T1", "T2"]);
    assert_eq!(
        author_filter(&both),
        some("author.id:A1|A2,from_publication_date:2025-01-01,topics.id:T1|T2")
    );
    assert_eq!(
        journal_filter(&both),
        some("primary_location.source.id:S1,from_publication_date:2025-01-01,topics.id:T1|T2")
    );
}

#[test]
fn filters_without_ids_or_topics() {
    let authors = request(&["A1"], &[], &[]);
    assert_eq!(author_filter(&authors), some("author.id:A1,from_publication_date:2025-01-01"));
    assert_eq!(journal_filter(&authors), None);
    assert_eq!(author_filter(&request(&[], &["S1"], &[])), None);
}

#[test]
fn records_resolve_to_bare_ids() {
    let author = Author { id: some("https://openalex.org/A1"), display_name: None };
    assert_eq!(resolve_orcid(Some(author)), some("A1"));
    assert_eq!(resolve_orcid(Some(Author::default())), None);
    assert_eq!(resolve_orcid(None), None);
    let source = SourceRecord { id: some("https://openalex.org/S1"), display_name: some("Nature") };
    assert_eq!(resolve_issn(Some(source)), some("S1"));
    assert_eq!(resolve_issn(Some(SourceRecord::default())), None);
    assert_eq!(resolve_issn(None), None);
}

#[test]
fn names_resolve_to_the_first_match() {
    let first = Author { id: some("https://openalex.org/A1"), display_name: some("Ada") };
    let second = Author { id: some("https://openalex.org/A2"), display_name: some("Bob") };
    let found = AuthorsResponse { results: vec![first, second] };
    assert_eq!(resolve_author_name(Some(found)), Some(("A1".to_string(), "Ada".to_string())));
    assert_eq!(resolve_author_name(Some(AuthorsResponse::default())), None);
    assert_eq!(resolve_author_name(None), None);
    let nameless = AuthorsResponse { results: vec![Author { id: some("A3"), display_name: None }] };
    assert_eq!(resolve_author_name(Some(nameless)), Some(("A3".to_string(), "A3".to_string())));
    let idless = AuthorsResponse {
        results: vec![Author::default(), Author { id: some("A4"), display_name: None }],
    };
    assert_eq!(resolve_author_name(Some(idless)), None);
}

#[test]
fn journal_names_resolve_to_the_first_match() {
    let source = SourceRecord { id: some("https://openalex.org/S1"), display_name: some("Nature") };
    let found = SourcesResponse { results: vec![source] };
    assert_eq!(resolve_journal_name(Some(found)), Some(("S1".to_string(), "Nature".to_string())));
    assert_eq!(resolve_journal_name(Some(SourcesResponse::default())), None);
    assert_eq!(resolve_journal_name(None), None);
}

#[test]
fn days_are_written_as_their_dates() {
    assert_eq!(from_date_on(Some(0), -365), some("0000-01-01"));
    assert_eq!(from_date_on(Some(0), 0), some("0000-12-31"));
    assert_eq!(from_date_on(Some(0), 1), some("0001-01-01"));
    assert_eq!(from_date_on(Some(0), 730000), some("1999-09-03"));
    assert_eq!(from_date_on(Some(0), 730179), some("2000-02-29"));
    assert_eq!(from_date_on(Some(0), 730180), some("2000-03-01"));
    assert_eq!(from_date_on(Some(0), 693654), some("1900-02-28"));
    assert_eq!(from_date_on(Some(0), 693655), some("1900-03-01"));
    assert_eq!(from_date_on(Some(0), 3652059), some("9999-12-31"));
    assert_eq!(from_date_on(Some(0), 3652060), some("+10000-01-01"));
}

#[test]
fn longer_windows_have_earlier_texts() {
    // Day 739252 is January 1, 2025.
    let today = 739252;
    let mut days: u32 = 0;
    let mut later = from_date_on(Some(days), today).unwrap();
    assert_eq!(later, "2025-01-01");
    while days < 700000 {
        days += 997;
        let earlier = from_date_on(Some(days), today).unwrap();
        assert_eq!(earlier.len(), 10);
        assert!(earlier < later);
        later = earlier;
    }
    assert_eq!(from_date_on(None, today), from_date_on(Some(365), today));
}

#[test]
fn an_ordinary_contact_has_room() {
    assert!(contact_has_room("0000-0002-1825-0097", &with_contact()));
    assert!(contact_has_room("0028-0836", &Config::default()));
}

#[test]
fn every_window_up_to_the_longest_has_a_start() {
    // Day 719163 is January 1, 1970, and -95746129 the earliest that can be written.
    let longest: u32 = 719163 + 95746129;
    assert_eq!(from_date_on(Some(longest), 719163), some("-262143-01-01"));
    assert_eq!(from_date_on(Some(longest + 1), 719163), None);
    assert_eq!(from_date_on(Some(0), 95745399), some("+262142-12-31"));
    assert_eq!(from_date_on(Some(0), 95745400), None);
    assert!(default_from_date(Some(longest)).is_some());
    assert!(default_from_date(None).is_some());
}

#[test]
fn timestamps_name_weekday_and_month() {
    let days = [
        ("2025-01-05", "Sun, 5 Jan 2025 00:00:00 +0000"),
        ("2025-02-10", "Mon, 10 Feb 2025 00:00:00 +0000"),
        ("2025-03-11", "Tue, 11 Mar 2025 00:00:00 +0000"),
        ("2025-04-09", "Wed, 9 Apr 2025 00:00:00 +0000"),
        ("2025-05-01", "Thu, 1 May 2025 00:00:00 +0000"),
        ("2025-06-06", "Fri, 6 Jun 2025 00:00:00 +0000"),
        ("2025-07-05", "Sat, 5 Jul 2025 00:00:00 +0000"),
        ("2025-08-31", "Sun, 31 Aug 2025 00:00:00 +0000"),
        ("2025-09-01", "Mon, 1 Sep 2025 00:00:00 +0000"),
        ("2025-10-14", "Tue, 14 Oct 2025 00:00:00 +0000"),
        ("2025-11-12", "Wed, 12 Nov 2025 00:00:00 +0000"),
        ("2025-12-25", "Thu, 25 Dec 2025 00:00:00 +0000"),
        ("1970-01-01", "Thu, 1 Jan 1970 00:00:00 +0000"),
        ("0001-01-01", "Mon, 1 Jan 0001 00:00:00 +0000"),
    ];
    for (date, expected) in days {
        assert_eq!(to_rfc2822(date), some(expected));
    }
}

#[test]
fn texts_of_the_shape_of_a_date_are_read_as_dates() {
    for date in ["2024-02-29", "2000-02-29", "2025-04-30", "9999-12-31", "0000-02-29"] {
        assert!(is_stampable(date));
        assert!(to_rfc2822(date).is_some());
    }
    for text in ["2025-02-29", "1900-02-29", "2025-04-31", "2025-00-10", "2025-13-10", "2025-01-00", "2025-01-32"] {
        assert!(is_stampable(text));
        assert_eq!(to_rfc2822(text), None);
    }
}

#[test]
fn texts_are_measured_as_they_are_encoded() {
    assert_eq!(size_up_to("aZ09-._", 7), Some(7));
    assert_eq!(size_up_to("aZ09-._", 6), None);
    assert_eq!(size_up_to("@ /", 100), Some(9));
    assert_eq!(size_up_to("\u{e9}", 100), Some(6));
    assert_eq!(size_up_to("\u{20ac}", 100), Some(9));
    assert_eq!(size_up_to("\u{1f600}", 12), Some(12));
    assert_eq!(size_up_to("", 0), Some(0));
}

#[test]
fn abstracts_are_read_in_the_order_of_their_places() {
    let index = vec![
        ("show".to_string(), vec![1, 4]),
        ("that".to_string(), vec![2]),
        ("We".to_string(), vec![0]),
        ("results".to_string(), vec![3]),
    ];
    assert_eq!(abstract_text(&index), some("We show that results show"));
    let reversed: Vec<(String, Vec<u64>)> = index.into_iter().rev().collect();
    assert_eq!(abstract_text(&reversed), some("We show that results show"));
    assert_eq!(abstract_text(&vec![]), None);
    assert_eq!(abstract_text(&vec![("x".to_string(), vec![])]), None);
    let crowded = vec![("b".to_string(), vec![7]), ("a".to_string(), vec![7])];
    assert_eq!(abstract_text(&crowded), some("a b"));
}

#[test]
fn works_are_linked_titled_and_attributed() {
    assert_eq!(best_link(some("d"), some("l"), &some("i")), some("d"));
    assert_eq!(best_link(None, some("l"), &some("i")), some("l"));
    assert_eq!(best_link(None, None, &some("i")), some("i"));
    assert_eq!(best_link(None, None, &None), None);
    assert_eq!(best_title(some("T")), "T");
    assert_eq!(best_title(None), "Untitled");
    assert_eq!(authors_joined(&vec!["Ada".to_string(), "Bob".to_string()]), some("Ada, Bob"));
    assert_eq!(authors_joined(&vec![]), None);
}
