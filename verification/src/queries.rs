//! The URLs of the questions put to OpenAlex.

use crate::config::{mailto, Config, ConfigView, FeedConfigView};
use crate::encoding::{
    encoded_size, lemma_encoded_size_add, lemma_encoded_size_bound,
    lemma_last_segment_encoded_size, lemma_trimmed_encoded_size, size_up_to,
};
use crate::openalex::{bare_id, normalize_id, API_BASE};
use crate::request::{
    all_author_ids, all_source_ids, resolves_to, FeedRequest, FeedRequestView, LookupsView,
    Resolved,
};
use crate::text::{
    join, joined, joined_texts_hold_each_part, last_segment, lemma_canonical_empty, trim, trimmed,
};
use vstd::prelude::*;

verus! {

/// How many bytes a `url::Url` can hold.
pub const URL_BYTES_MAX: u32 = 4294967295;

/// How many bytes are set aside for what surrounds the identifier and the contact in a URL.
pub const ADDRESS_ROOM: u32 = 1000;

/// The normalized form of a URL as `url::Url::parse` gives it; none where the text is no URL.
pub uninterp spec fn parsed_url(text: Seq<char>) -> Option<Seq<char>>;

/// The normalized form of a URL to which `append_pair` of `url::Url::query_pairs_mut` has
/// added a pair; none where the text is no URL.
pub uninterp spec fn url_with_pair(text: Seq<char>, name: Seq<char>, value: Seq<char>) -> Option<
    Seq<char>,
>;

/// The normalized form of a URL as `url::Url::parse_with_params` gives it; none where the text
/// is no URL.
pub uninterp spec fn url_with_params(
    text: Seq<char>,
    params: Seq<(Seq<char>, Seq<char>)>,
) -> Option<Seq<char>>;

/// Whether `text` is an address below [`API_BASE`].
pub open spec fn addressed(text: Seq<char>) -> bool {
    (API_BASE@ + "/"@).is_prefix_of(text)
}

/// Calls `url::Url::parse` and gives the URL's text. Claimed: the text, or that there is
/// none, depends on nothing but the argument.
#[verifier::external_body]
fn parse_url(text: &str) -> (res: Option<String>)
    ensures
        res.deep_view() == parsed_url(text@),
{
    url::Url::parse(text).ok().map(String::from)
}

/// Calls `url::Url::parse` and, on what it gives, `append_pair` of
/// `url::Url::query_pairs_mut`, and gives the URL's text. Claimed: the text, or that there is
/// none, depends on nothing but the arguments. A URL that outgrows `url::Url` is left out, as
/// there the call panics; besides the texts it holds `?`, `&` and `=`.
#[verifier::external_body]
fn parse_url_with_pair(text: &str, name: &str, value: &str) -> (res: Option<String>)
    requires
        addressed(text@),
        encoded_size(text@) + encoded_size(name@) + encoded_size(value@) + 3 <= URL_BYTES_MAX,
    ensures
        res.deep_view() == url_with_pair(text@, name@, value@),
{
    let mut url = url::Url::parse(text).ok()?;
    url.query_pairs_mut().append_pair(name, value);
    Some(String::from(url))
}

/// Calls `url::Url::parse_with_params` and gives the URL's text. Claimed: the text, or that
/// there is none, depends on nothing but the arguments. A URL that outgrows `url::Url`, or
/// that has a fragment to be moved, is left out: there the call may panic.
#[verifier::external_body]
fn parse_url_with_params(text: &str, params: &Vec<(String, String)>) -> (res: Option<String>)
    requires
        addressed(text@),
        encoded_size(text@) <= URL_BYTES_MAX,
        !text@.contains('#'),
    ensures
        res.deep_view() == url_with_params(text@, params.deep_view()),
{
    url::Url::parse_with_params(text, params).ok().map(String::from)
}

/// Where the author with an ORCID is found.
pub open spec fn orcid_address(orcid: Seq<char>) -> Seq<char> {
    API_BASE@ + "/authors/https://orcid.org/"@ + bare_id(orcid)
}

/// Where the journal with an ISSN is found.
pub open spec fn issn_address(issn: Seq<char>) -> Seq<char> {
    API_BASE@ + "/sources/issn:"@ + trimmed(issn)
}

/// The URL of `address`, with the configured contact, if there is one, as its `mailto`
/// parameter.
pub open spec fn record_url(address: Seq<char>, config: ConfigView) -> Option<Seq<char>> {
    match config.settings.mailto {
        Some(contact) => url_with_pair(address, "mailto"@, contact),
        None => parsed_url(address),
    }
}

/// Whether the contact can be added to an address of which `text` is the variable part.
pub open spec fn contact_fits(text: Seq<char>, config: ConfigView) -> bool {
    match config.settings.mailto {
        Some(contact) => encoded_size(text) + encoded_size(contact) + ADDRESS_ROOM
            <= URL_BYTES_MAX,
        None => true,
    }
}

/// Whether [`orcid_url`] and [`issn_url`] can be asked for the URL of `text`.
pub fn contact_has_room(text: &str, config: &Config) -> (res: bool)
    ensures
        res == contact_fits(text@, config.deep_view()),
{
    match mailto(config) {
        Some(contact) => match size_up_to(text, URL_BYTES_MAX - ADDRESS_ROOM) {
            Some(size) => size_up_to(
                contact.as_str(),
                URL_BYTES_MAX - ADDRESS_ROOM - size,
            ).is_some(),
            None => false,
        },
        None => true,
    }
}

/// The contact as a parameter, if there is one.
pub open spec fn contact_params(config: ConfigView) -> Seq<(Seq<char>, Seq<char>)> {
    match config.settings.mailto {
        Some(contact) => seq![("mailto"@, contact)],
        None => Seq::empty(),
    }
}

/// The parameters of a search for the best match of `name`.
pub open spec fn search_params(name: Seq<char>, config: ConfigView) -> Seq<(Seq<char>, Seq<char>)> {
    seq![("search"@, name), ("per_page"@, "1"@)] + contact_params(config)
}

/// The parameters of a query for the newest works that pass `filter`.
pub open spec fn works_params(filter: Seq<char>, config: ConfigView) -> Seq<
    (Seq<char>, Seq<char>),
> {
    seq![("filter"@, filter), ("sort"@, "publication_date:desc"@), ("per_page"@, "50"@)]
        + contact_params(config)
}

/// The condition on the publication date.
pub open spec fn date_condition(request: FeedRequestView) -> Seq<char> {
    ",from_publication_date:"@ + request.from
}

/// The condition on the topics; empty where the feed names none.
pub open spec fn topic_condition(request: FeedRequestView) -> Seq<char> {
    if request.topics.len() == 0 {
        Seq::empty()
    } else {
        ",topics.id:"@ + joined(request.topics, "|"@)
    }
}

/// The filter that asks for the works of one of `ids`, looked for under `field`; none where
/// there are no ids.
pub open spec fn filter_by(
    field: Seq<char>,
    ids: Seq<Seq<char>>,
    request: FeedRequestView,
) -> Option<Seq<char>> {
    if ids.len() == 0 {
        None
    } else {
        Some(field + joined(ids, "|"@) + date_condition(request) + topic_condition(request))
    }
}

/// The filter that asks for the works of the feed's authors.
pub open spec fn by_authors(request: FeedRequestView) -> Option<Seq<char>> {
    filter_by("author.id:"@, request.author_ids, request)
}

/// The filter that asks for the works in the feed's journals.
pub open spec fn by_journals(request: FeedRequestView) -> Option<Seq<char>> {
    filter_by("primary_location.source.id:"@, request.source_ids, request)
}

/// The URL of `address`, with the configured contact.
fn url_of_record(address: &str, config: &Config) -> (res: Option<String>)
    requires
        addressed(address@),
        config.deep_view().settings.mailto matches Some(contact) ==> encoded_size(address@)
            + encoded_size(contact) + 100 <= URL_BYTES_MAX,
    ensures
        res.deep_view() == record_url(address@, config.deep_view()),
{
    proof {
        reveal_strlit("mailto");
        lemma_encoded_size_bound("mailto"@);
    }
    match mailto(config) {
        Some(contact) => parse_url_with_pair(address, "mailto", contact.as_str()),
        None => parse_url(address),
    }
}

/// The URL under which OpenAlex describes the author with an ORCID. The ORCID may be written
/// as a URL.
pub fn orcid_url(orcid: &str, config: &Config) -> (res: Option<String>)
    requires
        contact_fits(orcid@, config.deep_view()),
    ensures
        res.deep_view() == record_url(orcid_address(orcid@), config.deep_view()),
{
    let mut address: String = API_BASE.to_string();
    address.append("/authors/https://orcid.org/");
    let ghost head = address@;
    address.append(normalize_id(orcid).as_str());
    proof {
        lemma_trimmed_encoded_size(orcid@);
        lemma_last_segment_encoded_size(trimmed(orcid@));
        lemma_encoded_size_bound(head);
        lemma_encoded_size_add(head, bare_id(orcid@));
        reveal_strlit("/");
        reveal_strlit("/authors/https://orcid.org/");
        reveal_strlit("https://api.openalex.org");
        assert("/"@ =~= "/authors/https://orcid.org/"@.take(1));
        assert((API_BASE@ + "/"@) =~= address@.take((API_BASE@ + "/"@).len() as int));
    }
    url_of_record(address.as_str(), config)
}

/// The URL under which OpenAlex describes the journal with an ISSN.
pub fn issn_url(issn: &str, config: &Config) -> (res: Option<String>)
    requires
        contact_fits(issn@, config.deep_view()),
    ensures
        res.deep_view() == record_url(issn_address(issn@), config.deep_view()),
{
    let mut address: String = API_BASE.to_string();
    address.append("/sources/issn:");
    let ghost head = address@;
    address.append(trim(issn));
    proof {
        lemma_trimmed_encoded_size(issn@);
        lemma_encoded_size_bound(head);
        lemma_encoded_size_add(head, trimmed(issn@));
        reveal_strlit("/");
        reveal_strlit("/sources/issn:");
        reveal_strlit("https://api.openalex.org");
        assert("/"@ =~= "/sources/issn:"@.take(1));
        assert((API_BASE@ + "/"@) =~= address@.take((API_BASE@ + "/"@).len() as int));
    }
    url_of_record(address.as_str(), config)
}

/// Adds the configured contact, if there is one, to `params`.
fn add_contact(params: &mut Vec<(String, String)>, config: &Config)
    ensures
        final(params).deep_view() == old(params).deep_view() + contact_params(config.deep_view()),
{
    let ghost before = params.deep_view();
    if let Some(contact) = mailto(config) {
        params.push(("mailto".to_string(), contact));
    }
    assert(params.deep_view() =~= before + contact_params(config.deep_view()));
}

/// The URL of `path` below [`API_BASE`], with `params`.
fn url_of_query(path: &str, params: &Vec<(String, String)>) -> (res: Option<String>)
    requires
        "/"@.is_prefix_of(path@),
        path@.len() <= 100,
        !path@.contains('#'),
    ensures
        res.deep_view() == url_with_params(API_BASE@ + path@, params.deep_view()),
{
    let mut address: String = API_BASE.to_string();
    address.append(path);
    proof {
        lemma_encoded_size_bound(address@);
        reveal_strlit("https://api.openalex.org");
        assert((API_BASE@ + "/"@) =~= address@.take((API_BASE@ + "/"@).len() as int));
        assert(!address@.contains('#')) by {
            if address@.contains('#') {
                let i = address@.index_of('#');
                if i >= API_BASE@.len() {
                    assert(path@[i - API_BASE@.len()] == '#');
                }
            }
        }
    }
    parse_url_with_params(address.as_str(), params)
}

/// The URL that asks `path` for the best match of `name`.
fn search_url(path: &str, name: &str, config: &Config) -> (res: Option<String>)
    requires
        "/"@.is_prefix_of(path@),
        path@.len() <= 100,
        !path@.contains('#'),
    ensures
        res.deep_view() == url_with_params(
            API_BASE@ + path@,
            search_params(name@, config.deep_view()),
        ),
{
    let mut params: Vec<(String, String)> = Vec::new();
    params.push(("search".to_string(), name.to_string()));
    params.push(("per_page".to_string(), "1".to_string()));
    assert(params.deep_view() =~= seq![("search"@, name@), ("per_page"@, "1"@)]);
    add_contact(&mut params, config);
    url_of_query(path, &params)
}

/// The URL of the search for the author whose name matches best.
pub fn author_search_url(name: &str, config: &Config) -> (res: Option<String>)
    ensures
        res.deep_view() == url_with_params(
            API_BASE@ + "/authors"@,
            search_params(name@, config.deep_view()),
        ),
{
    proof {
        reveal_strlit("/");
        reveal_strlit("/authors");
    }
    search_url("/authors", name, config)
}

/// The URL of the search for the journal whose name matches best.
pub fn journal_search_url(name: &str, config: &Config) -> (res: Option<String>)
    ensures
        res.deep_view() == url_with_params(
            API_BASE@ + "/sources"@,
            search_params(name@, config.deep_view()),
        ),
{
    proof {
        reveal_strlit("/");
        reveal_strlit("/sources");
    }
    search_url("/sources", name, config)
}

/// The URL of the query for the works that pass `filter`; none where there is no filter, and
/// so nothing to ask.
pub fn works_url(filter: Option<String>, config: &Config) -> (res: Option<String>)
    ensures
        res.deep_view() == match filter {
            Some(text) => url_with_params(
                API_BASE@ + "/works"@,
                works_params(text@, config.deep_view()),
            ),
            None => None,
        },
{
    match filter {
        None => None,
        Some(text) => {
            let ghost asked = text@;
            let mut params: Vec<(String, String)> = Vec::new();
            params.push(("filter".to_string(), text));
            params.push(("sort".to_string(), "publication_date:desc".to_string()));
            params.push(("per_page".to_string(), "50".to_string()));
            assert(params.deep_view() =~= seq![
                ("filter"@, asked),
                ("sort"@, "publication_date:desc"@),
                ("per_page"@, "50"@),
            ]);
            add_contact(&mut params, config);
            proof {
                reveal_strlit("/");
                reveal_strlit("/works");
            }
            url_of_query("/works", &params)
        },
    }
}

/// The filter that asks for the works of one of `ids`, looked for under `field`.
fn filter_text(field: &str, ids: &Vec<String>, request: &FeedRequest) -> (res: Option<String>)
    ensures
        res.deep_view() == filter_by(field@, ids.deep_view(), request.deep_view()),
{
    assert(ids.deep_view().len() == ids@.len());
    assert(request.topics.deep_view().len() == request.topics@.len());
    if ids.len() == 0 {
        return None;
    }
    let mut text: String = field.to_string();
    text.append(join(ids.as_slice(), "|").as_str());
    let mut condition: String = ",from_publication_date:".to_string();
    condition.append(request.from.as_str());
    text.append(condition.as_str());
    if request.topics.len() > 0 {
        let mut topics: String = ",topics.id:".to_string();
        topics.append(join(request.topics.as_slice(), "|").as_str());
        text.append(topics.as_str());
    }
    assert(text@ =~= field@ + joined(ids.deep_view(), "|"@) + date_condition(request.deep_view())
        + topic_condition(request.deep_view()));
    Some(text)
}

/// The filter that asks for the works of the feed's authors; none where it has no authors.
pub fn author_filter(request: &FeedRequest) -> (res: Option<String>)
    ensures
        res.deep_view() == by_authors(request.deep_view()),
{
    filter_text("author.id:", &request.author_ids, request)
}

/// The filter that asks for the works in the feed's journals; none where it has no journals.
pub fn journal_filter(request: &FeedRequest) -> (res: Option<String>)
    ensures
        res.deep_view() == by_journals(request.deep_view()),
{
    filter_text("primary_location.source.id:", &request.source_ids, request)
}

/// A feed is asked for by its authors if it has any and by its journals if it has any, and by
/// one of the two at least.
pub proof fn every_feed_asks_for_works(
    plan: FeedConfigView,
    found: LookupsView,
    window: Option<Seq<char>>,
    request: FeedRequest,
)
    requires
        resolves_to(plan, found, window, Resolved::Feed(request)),
    ensures
        by_authors(request.deep_view()) is Some <==> all_author_ids(plan, found).len() > 0,
        by_journals(request.deep_view()) is Some <==> all_source_ids(plan, found).len() > 0,
        by_authors(request.deep_view()) is Some || by_journals(request.deep_view()) is Some,
{
    lemma_canonical_empty(request.deep_view().author_ids, all_author_ids(plan, found));
    lemma_canonical_empty(request.deep_view().source_ids, all_source_ids(plan, found));
}

/// The date and the topics of a feed narrow the query by journals as they do the one by
/// authors.
pub proof fn conditions_narrow_both_queries(request: FeedRequestView)
    ensures
        by_authors(request) matches Some(filter) ==> (date_condition(request) + topic_condition(
            request,
        )).is_suffix_of(filter),
        by_journals(request) matches Some(filter) ==> (date_condition(request) + topic_condition(
            request,
        )).is_suffix_of(filter),
{
    let conditions = date_condition(request) + topic_condition(request);
    if let Some(filter) = by_authors(request) {
        assert(filter.skip(filter.len() - conditions.len()) =~= conditions);
    }
    if let Some(filter) = by_journals(request) {
        assert(filter.skip(filter.len() - conditions.len()) =~= conditions);
    }
}

/// Whether `filter` asks for works from `from` on, of one of `ids`, looked for under `field`, and
/// on one of `topics`; where there are no topics it says nothing of them.
pub open spec fn asks_for(
    filter: Seq<char>,
    field: Seq<char>,
    ids: Seq<Seq<char>>,
    from: Seq<char>,
    topics: Seq<Seq<char>>,
) -> bool {
    let dated = field + joined(ids, "|"@) + ",from_publication_date:"@ + from;
    &&& topics.len() == 0 ==> filter == dated
    &&& topics.len() > 0 ==> filter == dated + ",topics.id:"@ + joined(topics, "|"@)
}

/// The works of a feed's authors are asked for exactly where it has authors: those of any of them,
/// from its earliest date on and, if it has topics, be it one or more, on any of these.
pub proof fn authors_are_asked_for_with_date_and_topics(request: FeedRequestView)
    ensures
        by_authors(request) is Some <==> request.author_ids.len() > 0,
        by_authors(request) matches Some(filter) ==> asks_for(
            filter,
            "author.id:"@,
            request.author_ids,
            request.from,
            request.topics,
        ),
{
    lemma_asks_for("author.id:"@, request.author_ids, request);
}

/// The works in a feed's journals are asked for exactly where it has journals: those in any of
/// them, from its earliest date on and, if it has topics, be it one or more, on any of these.
pub proof fn journals_are_asked_for_with_date_and_topics(request: FeedRequestView)
    ensures
        by_journals(request) is Some <==> request.source_ids.len() > 0,
        by_journals(request) matches Some(filter) ==> asks_for(
            filter,
            "primary_location.source.id:"@,
            request.source_ids,
            request.from,
            request.topics,
        ),
{
    lemma_asks_for("primary_location.source.id:"@, request.source_ids, request);
}

proof fn lemma_asks_for(field: Seq<char>, ids: Seq<Seq<char>>, request: FeedRequestView)
    ensures
        filter_by(field, ids, request) matches Some(filter) ==> asks_for(
            filter,
            field,
            ids,
            request.from,
            request.topics,
        ),
{
    if let Some(filter) = filter_by(field, ids, request) {
        let dated = field + joined(ids, "|"@) + ",from_publication_date:"@ + request.from;
        if request.topics.len() == 0 {
            assert(filter =~= dated);
        } else {
            assert(filter =~= dated + ",topics.id:"@ + joined(request.topics, "|"@));
        }
    }
}

/// Each topic of a feed stands in what its queries ask for, behind the words that start the topics.
pub proof fn each_topic_is_asked_for(
    filter: Seq<char>,
    field: Seq<char>,
    ids: Seq<Seq<char>>,
    from: Seq<char>,
    topics: Seq<Seq<char>>,
    i: int,
)
    requires
        asks_for(filter, field, ids, from, topics),
        0 <= i < topics.len(),
    ensures
        exists|at: int|
            field.len() + from.len() <= at && at + topics[i].len() <= filter.len()
                && #[trigger] filter.subrange(at, at + topics[i].len()) == topics[i],
{
    let head = field + joined(ids, "|"@) + ",from_publication_date:"@ + from + ",topics.id:"@;
    let text = joined(topics, "|"@);
    let n = topics[i].len() as int;
    joined_texts_hold_each_part(topics, "|"@, i);
    let at = choose|at: int|
        0 <= at && at + n <= text.len() && #[trigger] text.subrange(at, at + n) == topics[i];
    assert(filter =~= head + text);
    let there = head.len() + at;
    assert(filter.subrange(there, there + n) =~= text.subrange(at, at + n));
}

/// The record of an author is asked for under the last segment of the trimmed ORCID, and that of a
/// journal under the trimmed ISSN, with the contact as `mailto` exactly where one is configured.
pub proof fn records_are_asked_for_by_their_identifier(
    orcid: Seq<char>,
    issn: Seq<char>,
    config: ConfigView,
)
    ensures
        ({
            let author = "https://api.openalex.org"@ + "/authors/https://orcid.org/"@
                + last_segment(trimmed(orcid));
            let journal = "https://api.openalex.org"@ + "/sources/issn:"@ + trimmed(issn);
            match config.settings.mailto {
                Some(contact) => {
                    &&& record_url(orcid_address(orcid), config) == url_with_pair(
                        author,
                        "mailto"@,
                        contact,
                    )
                    &&& record_url(issn_address(issn), config) == url_with_pair(
                        journal,
                        "mailto"@,
                        contact,
                    )
                },
                None => {
                    &&& record_url(orcid_address(orcid), config) == parsed_url(author)
                    &&& record_url(issn_address(issn), config) == parsed_url(journal)
                },
            }
        }),
{
}

/// A search asks for one match of the name; a query for works for the newest fifty that pass its
/// filter. Both name the contact last, exactly where one is configured.
pub proof fn queries_have_their_parameters(text: Seq<char>, config: ConfigView)
    ensures
        search_params(text, config).len() == works_params(text, config).len() - 1,
        search_params(text, config)[0] == ("search"@, text),
        search_params(text, config)[1] == ("per_page"@, "1"@),
        works_params(text, config)[0] == ("filter"@, text),
        works_params(text, config)[1] == ("sort"@, "publication_date:desc"@),
        works_params(text, config)[2] == ("per_page"@, "50"@),
        match config.settings.mailto {
            Some(contact) => {
                &&& search_params(text, config).len() == 3
                &&& search_params(text, config)[2] == ("mailto"@, contact)
                &&& works_params(text, config)[3] == ("mailto"@, contact)
            },
            None => search_params(text, config).len() == 2,
        },
{
}

/// Identifiers and contacts of up to a hundred million characters can be asked for.
pub proof fn ordinary_identifiers_fit(text: Seq<char>, config: ConfigView)
    requires
        text.len() <= 100_000_000,
        config.settings.mailto matches Some(contact) ==> contact.len() <= 100_000_000,
    ensures
        contact_fits(text, config),
{
    lemma_encoded_size_bound(text);
    if let Some(contact) = config.settings.mailto {
        lemma_encoded_size_bound(contact);
    }
}

} // verus!
