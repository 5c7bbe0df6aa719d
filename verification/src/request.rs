//! From the parameters of a request to the feed that it asks for.

use crate::calendar::{EPOCH_DAY, LATEST_DAY};
use crate::config::{empty_config, empty_feed, Config, ConfigView, FeedConfig, FeedConfigView};
use crate::dates::{
    day_of_the_clock, default_from_date, longest_window, window_days, window_start,
    DEFAULT_FROM_DAYS,
};
use crate::openalex::{bare_id, normalize_id};
use crate::params::{
    collect_param, collected, first_param, first_value, repeated_params_are_all_collected,
    taken_from, the_first_parameter_counts, values_are_collected_in_order, values_of,
};
use crate::text::{
    blank, canonical, canonical_lists_are_unique, copied, last_segment, lemma_canonical_empty,
    lemma_push_contains, precedes, sorted_without_repeats, trimmed, white_space,
};
use vstd::prelude::*;

verus! {

/// Fully-resolved description of a feed, used as the cache key.
#[derive(Debug, Hash, PartialEq, Eq)]
pub struct FeedRequest {
    /// Normalized, deduped, sorted OpenAlex author ids.
    pub author_ids: Vec<String>,
    /// Normalized, deduped, sorted OpenAlex source (journal) ids.
    pub source_ids: Vec<String>,
    /// Earliest publication date (YYYY-MM-DD).
    pub from: String,
    /// Sorted OpenAlex topic ids.
    pub topics: Vec<String>,
    /// Optional channel title carried alongside (not part of identity below).
    pub title: Option<String>,
}

/// What a [`FeedRequest`] holds.
pub struct FeedRequestView {
    pub author_ids: Seq<Seq<char>>,
    pub source_ids: Seq<Seq<char>>,
    pub from: Seq<char>,
    pub topics: Seq<Seq<char>>,
    pub title: Option<Seq<char>>,
}

impl DeepView for FeedRequest {
    type V = FeedRequestView;

    open spec fn deep_view(&self) -> FeedRequestView {
        FeedRequestView {
            author_ids: self.author_ids.deep_view(),
            source_ids: self.source_ids.deep_view(),
            from: self.from@,
            topics: self.topics.deep_view(),
            title: self.title.deep_view(),
        }
    }
}

/// What identifies a feed: all of its description but the title.
pub type CacheKey = (Vec<String>, Vec<String>, String, Vec<String>);

/// What a [`CacheKey`] holds.
pub type CacheKeyView = (Seq<Seq<char>>, Seq<Seq<char>>, Seq<char>, Seq<Seq<char>>);

/// The key of a request.
pub open spec fn key_of(request: FeedRequestView) -> CacheKeyView {
    (request.author_ids, request.source_ids, request.from, request.topics)
}

impl FeedRequest {
    /// The key under which the feed is cached.
    pub fn cache_key(&self) -> (res: CacheKey)
        ensures
            res.deep_view() == key_of(self.deep_view()),
    {
        (
            copied(&self.author_ids),
            copied(&self.source_ids),
            self.from.clone(),
            copied(&self.topics),
        )
    }
}

impl Clone for FeedRequest {
    fn clone(&self) -> (res: Self)
        ensures
            res.deep_view() == self.deep_view(),
    {
        FeedRequest {
            author_ids: copied(&self.author_ids),
            source_ids: copied(&self.source_ids),
            from: self.from.clone(),
            topics: copied(&self.topics),
            title: self.title.clone(),
        }
    }
}

/// The parameters of a request, as they are read.
pub type Params = Seq<(Seq<char>, Seq<char>)>;

/// Whether the parameters name an author or a journal.
pub open spec fn names_someone(params: Params) -> bool {
    ||| values_of(params, "author_id"@).len() > 0
    ||| values_of(params, "orcid"@).len() > 0
    ||| values_of(params, "author"@).len() > 0
    ||| values_of(params, "source_id"@).len() > 0
    ||| values_of(params, "issn"@).len() > 0
    ||| values_of(params, "journal"@).len() > 0
}

/// `feed` with what the parameters add to it.
pub open spec fn merged(feed: FeedConfigView, params: Params) -> FeedConfigView {
    FeedConfigView {
        title: feed.title,
        author_ids: feed.author_ids + values_of(params, "author_id"@),
        orcids: feed.orcids + values_of(params, "orcid"@),
        authors: feed.authors + values_of(params, "author"@),
        source_ids: feed.source_ids + values_of(params, "source_id"@),
        issns: feed.issns + values_of(params, "issn"@),
        journals: feed.journals + values_of(params, "journal"@),
        topics: feed.topics + (values_of(params, "topic"@) + values_of(params, "concept"@)),
        from: match first_value(params, "from"@) {
            Some(from) => Some(from),
            None => feed.from,
        },
    }
}

/// The feed that a request starts from: the one that it names; none where it names authors or
/// journals instead; else the default feed. `Ok(None)` where there is nothing to start from.
pub open spec fn starting_feed(params: Params, config: ConfigView) -> Result<
    Option<FeedConfigView>,
    Seq<char>,
> {
    match first_value(params, "feed"@) {
        Some(name) => if config.feeds.contains_key(name) {
            Ok(Some(config.feeds[name]))
        } else {
            Err("Unknown feed \""@ + name + "\"."@)
        },
        None => if names_someone(params) {
            Ok(Some(empty_feed()))
        } else {
            match config.default_feed {
                Some(name) => if config.feeds.contains_key(name) {
                    Ok(Some(config.feeds[name]))
                } else {
                    Err("Configured default_feed \""@ + name + "\" not found."@)
                },
                None => Ok(None),
            }
        },
    }
}

/// What a request asks for.
pub open spec fn plan_of(params: Params, config: ConfigView) -> Result<
    Option<FeedConfigView>,
    Seq<char>,
> {
    match starting_feed(params, config) {
        Ok(Some(feed)) => Ok(Some(merged(feed, params))),
        Ok(None) => Ok(None),
        Err(message) => Err(message),
    }
}

/// What a result of [`plan_feed_request`] holds.
pub open spec fn plan_view(res: Result<Option<FeedConfig>, String>) -> Result<
    Option<FeedConfigView>,
    Seq<char>,
> {
    match res {
        Ok(plan) => Ok(plan.deep_view()),
        Err(message) => Err(message@),
    }
}

/// `list`, with `more` behind it.
fn extended(list: &Vec<String>, more: Vec<String>) -> (res: Vec<String>)
    ensures
        res.deep_view() == list.deep_view() + more.deep_view(),
{
    let mut res: Vec<String> = list.clone();
    let mut rest: Vec<String> = more;
    res.append(&mut rest);
    assert(res.deep_view() =~= list.deep_view() + more.deep_view());
    res
}

/// `feed` with what the parameters add to it.
fn merge_params(feed: &FeedConfig, params: &[(String, String)]) -> (res: FeedConfig)
    ensures
        res.deep_view() == merged(feed.deep_view(), params.deep_view()),
{
    let topics: Vec<String> = extended(
        &collect_param(params, "topic"),
        collect_param(params, "concept"),
    );
    let from: Option<String> = match first_param(params, "from") {
        Some(from) => Some(from),
        None => feed.from.clone(),
    };
    FeedConfig {
        author_ids: extended(&feed.author_ids, collect_param(params, "author_id")),
        orcids: extended(&feed.orcids, collect_param(params, "orcid")),
        authors: extended(&feed.authors, collect_param(params, "author")),
        source_ids: extended(&feed.source_ids, collect_param(params, "source_id")),
        issns: extended(&feed.issns, collect_param(params, "issn")),
        journals: extended(&feed.journals, collect_param(params, "journal")),
        topics: extended(&feed.topics, topics),
        from,
        title: feed.title.clone(),
    }
}

/// Whether the parameters name an author or a journal.
fn has_adhoc(params: &[(String, String)]) -> (res: bool)
    ensures
        res == names_someone(params.deep_view()),
{
    collect_param(params, "author_id").len() > 0 || collect_param(params, "orcid").len() > 0
        || collect_param(params, "author").len() > 0 || collect_param(params, "source_id").len() > 0
        || collect_param(params, "issn").len() > 0 || collect_param(params, "journal").len() > 0
}

/// Merge a named feed (if any) with ad-hoc URL params. Nothing in the merged feed is resolved
/// yet. Returns:
/// - `Ok(Some(plan))` when there is a feed to start from or an author or journal is named,
/// - `Ok(None)` when nothing was specified at all,
/// - `Err(msg)` when a feed was named, by the request or as the default, but not found.
pub fn plan_feed_request(params: &[(String, String)], config: &Config) -> (res: Result<
    Option<FeedConfig>,
    String,
>)
    ensures
        plan_view(res) == plan_of(params.deep_view(), config.deep_view()),
{
    match first_param(params, "feed") {
        Some(name) => match config.feeds.get(name.as_str()) {
            Some(feed) => Ok(Some(merge_params(feed, params))),
            None => {
                let mut message: String = "Unknown feed \"".to_string();
                message.append(name.as_str());
                message.append("\".");
                Err(message)
            },
        },
        None => {
            if has_adhoc(params) {
                Ok(Some(merge_params(&FeedConfig::default(), params)))
            } else {
                match &config.default_feed {
                    Some(name) => match config.feeds.get(name.as_str()) {
                        Some(feed) => Ok(Some(merge_params(feed, params))),
                        None => {
                            let mut message: String = "Configured default_feed \"".to_string();
                            message.append(name.as_str());
                            message.append("\" not found.");
                            Err(message)
                        },
                    },
                    None => Ok(None),
                }
            }
        },
    }
}

/// What OpenAlex said of the identifiers of a plan that are no OpenAlex ids, in their order.
#[derive(Debug, Default, PartialEq, Eq)]
pub struct Lookups {
    /// The author ids under the ORCIDs.
    pub orcids: Vec<Option<String>>,
    /// The ids and names of the authors that the names match.
    pub authors: Vec<Option<(String, String)>>,
    /// The source ids under the ISSNs.
    pub issns: Vec<Option<String>>,
    /// The ids and names of the journals that the names match.
    pub journals: Vec<Option<(String, String)>>,
}

/// What a [`Lookups`] holds.
pub struct LookupsView {
    pub orcids: Seq<Option<Seq<char>>>,
    pub authors: Seq<Option<(Seq<char>, Seq<char>)>>,
    pub issns: Seq<Option<Seq<char>>>,
    pub journals: Seq<Option<(Seq<char>, Seq<char>)>>,
}

impl DeepView for Lookups {
    type V = LookupsView;

    open spec fn deep_view(&self) -> LookupsView {
        LookupsView {
            orcids: self.orcids.deep_view(),
            authors: self.authors.deep_view(),
            issns: self.issns.deep_view(),
            journals: self.journals.deep_view(),
        }
    }
}

/// What became of a plan.
#[derive(Debug, PartialEq, Eq)]
pub enum Resolved {
    /// Neither an author nor a journal is left.
    Nothing,
    /// The feed to serve.
    Feed(FeedRequest),
    /// The recency window starts before all dates that can be written.
    WindowOutOfRange,
}

/// The bare forms of `ids`.
pub open spec fn bare_ids(ids: Seq<Seq<char>>) -> Seq<Seq<char>> {
    ids.map_values(|id: Seq<char>| bare_id(id))
}

/// The ids that were found.
pub open spec fn found_ids(found: Seq<Option<Seq<char>>>) -> Seq<Seq<char>> {
    found.filter_map(|id: Option<Seq<char>>| id)
}

/// The ids that were found along with a name.
pub open spec fn found_named_ids(found: Seq<Option<(Seq<char>, Seq<char>)>>) -> Seq<Seq<char>> {
    found.filter_map(
        |hit: Option<(Seq<char>, Seq<char>)>|
            match hit {
                Some(pair) => Some(pair.0),
                None => None,
            },
    )
}

/// All author ids of a plan: those that it holds and those that were found.
pub open spec fn all_author_ids(plan: FeedConfigView, found: LookupsView) -> Seq<Seq<char>> {
    bare_ids(plan.author_ids) + found_ids(found.orcids) + found_named_ids(found.authors)
}

/// All journal ids of a plan: those that it holds and those that were found.
pub open spec fn all_source_ids(plan: FeedConfigView, found: LookupsView) -> Seq<Seq<char>> {
    bare_ids(plan.source_ids) + found_ids(found.issns) + found_named_ids(found.journals)
}

/// The earliest publication date of a plan: its own, else `window`, where the recency window
/// starts.
pub open spec fn earliest_date(plan: FeedConfigView, window: Option<Seq<char>>) -> Option<
    Seq<char>,
> {
    match plan.from {
        Some(from) => Some(from),
        None => window,
    }
}

/// Whether `request` describes the feed of `plan`, given what was found, from `from` on.
pub open spec fn describes(
    request: FeedRequestView,
    plan: FeedConfigView,
    found: LookupsView,
    from: Seq<char>,
) -> bool {
    &&& canonical(request.author_ids, all_author_ids(plan, found))
    &&& canonical(request.source_ids, all_source_ids(plan, found))
    &&& canonical(request.topics, bare_ids(plan.topics))
    &&& request.from == from
    &&& request.title == plan.title
}

/// Whether `res` is what becomes of `plan`, given what was found and where the recency window
/// starts.
pub open spec fn resolves_to(
    plan: FeedConfigView,
    found: LookupsView,
    window: Option<Seq<char>>,
    res: Resolved,
) -> bool {
    if all_author_ids(plan, found).len() == 0 && all_source_ids(plan, found).len() == 0 {
        res is Nothing
    } else {
        match earliest_date(plan, window) {
            Some(from) => res matches Resolved::Feed(request) && describes(
                request.deep_view(),
                plan,
                found,
                from,
            ),
            None => res is WindowOutOfRange,
        }
    }
}

/// The bare forms of `ids`.
fn normalize_ids(ids: &Vec<String>) -> (res: Vec<String>)
    ensures
        res.deep_view() == bare_ids(ids.deep_view()),
{
    let ghost texts = ids.deep_view();
    let mut res: Vec<String> = Vec::new();
    let mut i: usize = 0;
    while i < ids.len()
        invariant
            i <= ids@.len(),
            texts == ids.deep_view(),
            res.deep_view() == bare_ids(texts.take(i as int)),
        decreases ids@.len() - i,
    {
        let ghost before = res.deep_view();
        res.push(normalize_id(ids[i].as_str()));
        assert(res.deep_view() =~= before.push(bare_id(texts[i as int])));
        assert(res.deep_view() =~= bare_ids(texts.take(i + 1)));
        i = i + 1;
    }
    assert(texts.take(i as int) =~= texts);
    res
}

/// Puts the ids that were found behind `ids`.
fn append_found(ids: &mut Vec<String>, found: &Vec<Option<String>>)
    ensures
        final(ids).deep_view() == old(ids).deep_view() + found_ids(found.deep_view()),
{
    let ghost start = ids.deep_view();
    let ghost all = found.deep_view();
    let ghost pick = |id: Option<Seq<char>>| id;
    let mut i: usize = 0;
    assert(ids.deep_view() =~= start + found_ids(all.take(0)));
    while i < found.len()
        invariant
            i <= found@.len(),
            all == found.deep_view(),
            pick == (|id: Option<Seq<char>>| id),
            ids.deep_view() == start + found_ids(all.take(i as int)),
        decreases found@.len() - i,
    {
        let ghost before = ids.deep_view();
        proof {
            all.lemma_filter_map_take_succ(pick, i as int);
        }
        if let Some(id) = &found[i] {
            ids.push(id.clone());
            assert(ids.deep_view() =~= before.push(id@));
            assert(all[i as int] == Some(id@));
        }
        assert(ids.deep_view() =~= start + found_ids(all.take(i + 1)));
        i = i + 1;
    }
    assert(all.take(i as int) =~= all);
}

/// Puts the ids that were found along with a name behind `ids`.
fn append_found_named(ids: &mut Vec<String>, found: &Vec<Option<(String, String)>>)
    ensures
        final(ids).deep_view() == old(ids).deep_view() + found_named_ids(found.deep_view()),
{
    let ghost start = ids.deep_view();
    let ghost all = found.deep_view();
    let ghost pick = |hit: Option<(Seq<char>, Seq<char>)>|
        match hit {
            Some(pair) => Some(pair.0),
            None => None,
        };
    let mut i: usize = 0;
    assert(ids.deep_view() =~= start + found_named_ids(all.take(0)));
    while i < found.len()
        invariant
            i <= found@.len(),
            all == found.deep_view(),
            pick == (|hit: Option<(Seq<char>, Seq<char>)>|
                match hit {
                    Some(pair) => Some(pair.0),
                    None => None,
                }),
            ids.deep_view() == start + found_named_ids(all.take(i as int)),
        decreases found@.len() - i,
    {
        let ghost before = ids.deep_view();
        proof {
            all.lemma_filter_map_take_succ(pick, i as int);
        }
        if let Some(hit) = &found[i] {
            ids.push(hit.0.clone());
            assert(ids.deep_view() =~= before.push(hit.0@));
            assert(all[i as int] == Some((hit.0@, hit.1@)));
        }
        assert(ids.deep_view() =~= start + found_named_ids(all.take(i + 1)));
        i = i + 1;
    }
    assert(all.take(i as int) =~= all);
}

/// Make of a plan the feed to serve, given what OpenAlex said of its identifiers and where the
/// recency window starts. Identifiers that OpenAlex did not resolve are passed over.
pub fn resolve_since(plan: FeedConfig, found: &Lookups, window: Option<String>) -> (res: Resolved)
    ensures
        resolves_to(plan.deep_view(), found.deep_view(), window.deep_view(), res),
{
    let mut author_ids: Vec<String> = normalize_ids(&plan.author_ids);
    append_found(&mut author_ids, &found.orcids);
    append_found_named(&mut author_ids, &found.authors);
    let mut source_ids: Vec<String> = normalize_ids(&plan.source_ids);
    append_found(&mut source_ids, &found.issns);
    append_found_named(&mut source_ids, &found.journals);
    let author_ids: Vec<String> = sorted_without_repeats(author_ids);
    let source_ids: Vec<String> = sorted_without_repeats(source_ids);
    proof {
        lemma_canonical_empty(
            author_ids.deep_view(),
            all_author_ids(plan.deep_view(), found.deep_view()),
        );
        lemma_canonical_empty(
            source_ids.deep_view(),
            all_source_ids(plan.deep_view(), found.deep_view()),
        );
        assert(author_ids.deep_view().len() == author_ids@.len());
        assert(source_ids.deep_view().len() == source_ids@.len());
    }
    if author_ids.len() == 0 && source_ids.len() == 0 {
        return Resolved::Nothing;
    }
    let topics: Vec<String> = sorted_without_repeats(normalize_ids(&plan.topics));
    let start: Option<String> = match plan.from {
        Some(from) => Some(from),
        None => window,
    };
    match start {
        Some(from) => Resolved::Feed(
            FeedRequest { author_ids, source_ids, from, topics, title: plan.title },
        ),
        None => Resolved::WindowOutOfRange,
    }
}

/// Make of a plan the feed to serve today, given what OpenAlex said of its identifiers. The
/// clock is read only where the plan has no earliest date of its own.
pub fn resolve_feed_request(plan: FeedConfig, found: &Lookups, config: &Config) -> (res: Resolved)
    ensures
        plan.from is Some ==> resolves_to(plan.deep_view(), found.deep_view(), None, res),
        plan.from is None ==> exists|today: int|
            day_of_the_clock(today) && EPOCH_DAY <= today <= LATEST_DAY && resolves_to(
                plan.deep_view(),
                found.deep_view(),
                #[trigger] window_start(config.deep_view().settings.from_days, today),
                res,
            ),
        window_days(config.deep_view().settings.from_days) <= longest_window() ==> !(
        res is WindowOutOfRange),
{
    let window: Option<String> = if plan.from.is_some() {
        None
    } else {
        default_from_date(config.settings.from_days)
    };
    resolve_since(plan, found, window)
}

/// The cache key is stable: it depends on which ids a feed has, not on the order in which they
/// were given, nor on how often each of them was.
pub proof fn cache_key_is_stable(
    a: FeedRequestView,
    plan_a: FeedConfigView,
    found_a: LookupsView,
    b: FeedRequestView,
    plan_b: FeedConfigView,
    found_b: LookupsView,
    from: Seq<char>,
)
    requires
        describes(a, plan_a, found_a, from),
        describes(b, plan_b, found_b, from),
        forall|id: Seq<char>| #[trigger]
            all_author_ids(plan_a, found_a).contains(id) <==> all_author_ids(
                plan_b,
                found_b,
            ).contains(id),
        forall|id: Seq<char>| #[trigger]
            all_source_ids(plan_a, found_a).contains(id) <==> all_source_ids(
                plan_b,
                found_b,
            ).contains(id),
        forall|id: Seq<char>| #[trigger]
            bare_ids(plan_a.topics).contains(id) <==> bare_ids(plan_b.topics).contains(id),
    ensures
        key_of(a) == key_of(b),
{
    canonical_lists_are_unique(
        a.author_ids,
        b.author_ids,
        all_author_ids(plan_a, found_a),
        all_author_ids(plan_b, found_b),
    );
    canonical_lists_are_unique(
        a.source_ids,
        b.source_ids,
        all_source_ids(plan_a, found_a),
        all_source_ids(plan_b, found_b),
    );
    canonical_lists_are_unique(
        a.topics,
        b.topics,
        bare_ids(plan_a.topics),
        bare_ids(plan_b.topics),
    );
}

/// The title is no part of what identifies a feed.
pub proof fn title_is_not_part_of_the_key(request: FeedRequestView, title: Option<Seq<char>>)
    ensures
        key_of(FeedRequestView { title, ..request }) == key_of(request),
{
}

/// A request for a feed that is not configured is refused by a message that names the feed,
/// whatever else the request asks for.
pub proof fn unknown_feed_is_refused(params: Params, config: ConfigView, name: Seq<char>)
    requires
        first_value(params, "feed"@) == Some(name),
        !config.feeds.contains_key(name),
    ensures
        plan_of(params, config) == Err::<Option<FeedConfigView>, Seq<char>>(
            "Unknown feed \""@ + name + "\"."@,
        ),
{
}

/// A request that names neither a feed nor an author or a journal is for the default feed.
pub proof fn bare_request_is_for_the_default_feed(
    params: Params,
    config: ConfigView,
    name: Seq<char>,
)
    requires
        first_value(params, "feed"@) is None,
        !names_someone(params),
        config.default_feed == Some(name),
        config.feeds.contains_key(name),
    ensures
        plan_of(params, config) == Ok::<Option<FeedConfigView>, Seq<char>>(
            Some(merged(config.feeds[name], params)),
        ),
{
}

/// Without a configuration the server still works: a request that names an author or a journal,
/// and no feed, is for just what it names.
pub proof fn parameters_work_without_a_configuration(params: Params)
    requires
        first_value(params, "feed"@) is None,
        names_someone(params),
    ensures
        plan_of(params, empty_config()) == Ok::<Option<FeedConfigView>, Seq<char>>(
            Some(merged(empty_feed(), params)),
        ),
{
}

/// What a list holds once the values of a parameter were added to it.
proof fn lemma_added(list: Seq<Seq<char>>, params: Params, key: Seq<char>, value: Seq<char>)
    ensures
        (list + values_of(params, key)).contains(value) <==> list.contains(value) || !blank(value)
            && params.contains((key, value)),
{
    repeated_params_are_all_collected(params, key, value);
    vstd::seq_lib::lemma_seq_concat_contains_all_elements(list, values_of(params, key), value);
}

/// The parameters are merged with the feed that a request names: it is then for each author and
/// journal that the feed names, for each that a parameter names that is not blank, and for no
/// other. Its title is the feed's.
pub proof fn parameters_add_to_the_named_feed(
    params: Params,
    config: ConfigView,
    name: Seq<char>,
    id: Seq<char>,
)
    requires
        first_value(params, "feed"@) == Some(name),
        config.feeds.contains_key(name),
    ensures
        plan_of(params, config) matches Ok(Some(plan)) && {
            let feed = config.feeds[name];
            let given = |key: Seq<char>| !blank(id) && params.contains((key, id));
            &&& plan.author_ids.contains(id) <==> feed.author_ids.contains(id) || given(
                "author_id"@,
            )
            &&& plan.orcids.contains(id) <==> feed.orcids.contains(id) || given("orcid"@)
            &&& plan.authors.contains(id) <==> feed.authors.contains(id) || given("author"@)
            &&& plan.source_ids.contains(id) <==> feed.source_ids.contains(id) || given(
                "source_id"@,
            )
            &&& plan.issns.contains(id) <==> feed.issns.contains(id) || given("issn"@)
            &&& plan.journals.contains(id) <==> feed.journals.contains(id) || given("journal"@)
            &&& plan.title == feed.title
        },
{
    let feed = config.feeds[name];
    lemma_added(feed.author_ids, params, "author_id"@, id);
    lemma_added(feed.orcids, params, "orcid"@, id);
    lemma_added(feed.authors, params, "author"@, id);
    lemma_added(feed.source_ids, params, "source_id"@, id);
    lemma_added(feed.issns, params, "issn"@, id);
    lemma_added(feed.journals, params, "journal"@, id);
}

/// The earliest date is the request's, else the feed's, else the start of the window that is
/// configured, else of the default window.
pub proof fn earliest_date_has_its_precedence(
    feed: FeedConfigView,
    params: Params,
    from_days: Option<u32>,
    today: int,
)
    ensures
        ({
            let earliest = earliest_date(merged(feed, params), window_start(from_days, today));
            match (first_value(params, "from"@), feed.from, from_days) {
                (Some(from), _, _) => earliest == Some(from),
                (None, Some(from), _) => earliest == Some(from),
                (None, None, Some(days)) => earliest == window_start(Some(days), today),
                (None, None, None) => earliest == window_start(Some(DEFAULT_FROM_DAYS), today),
            }
        }),
{
}

/// `concept` is another name for `topic`: the topics are those of the feed and the values of
/// either parameter.
pub proof fn concept_is_an_alias_of_topic(feed: FeedConfigView, params: Params, topic: Seq<char>)
    ensures
        merged(feed, params).topics.contains(topic) <==> {
            ||| feed.topics.contains(topic)
            ||| !blank(topic) && (params.contains(("topic"@, topic)) || params.contains(
                ("concept"@, topic),
            ))
        },
{
    let given = values_of(params, "topic"@);
    let aliased = values_of(params, "concept"@);
    repeated_params_are_all_collected(params, "topic"@, topic);
    repeated_params_are_all_collected(params, "concept"@, topic);
    vstd::seq_lib::lemma_seq_concat_contains_all_elements(given, aliased, topic);
    vstd::seq_lib::lemma_seq_concat_contains_all_elements(feed.topics, given + aliased, topic);
}

/// An ORCID or ISSN that OpenAlex does not resolve is passed over.
pub proof fn unresolved_ids_are_passed_over(
    before: Seq<Option<Seq<char>>>,
    after: Seq<Option<Seq<char>>>,
)
    ensures
        found_ids(before.push(None) + after) == found_ids(before + after),
    decreases after.len(),
{
    let with = before.push(None) + after;
    let without = before + after;
    if after.len() == 0 {
        assert(with.drop_last() =~= before);
        assert(without =~= before);
    } else {
        unresolved_ids_are_passed_over(before, after.drop_last());
        assert(with.drop_last() =~= before.push(None) + after.drop_last());
        assert(without.drop_last() =~= before + after.drop_last());
    }
}

/// A name that OpenAlex does not resolve is passed over.
pub proof fn unresolved_names_are_passed_over(
    before: Seq<Option<(Seq<char>, Seq<char>)>>,
    after: Seq<Option<(Seq<char>, Seq<char>)>>,
)
    ensures
        found_named_ids(before.push(None) + after) == found_named_ids(before + after),
    decreases after.len(),
{
    let with = before.push(None) + after;
    let without = before + after;
    if after.len() == 0 {
        assert(with.drop_last() =~= before);
        assert(without =~= before);
    } else {
        unresolved_names_are_passed_over(before, after.drop_last());
        assert(with.drop_last() =~= before.push(None) + after.drop_last());
        assert(without.drop_last() =~= before + after.drop_last());
    }
}

/// Whether the first parameter named `key` has the value `value`, and that is not blank.
pub open spec fn first_given(params: Params, key: Seq<char>, value: Seq<char>) -> bool {
    exists|i: int|
        0 <= i < params.len() && #[trigger] params[i] == (key, value) && (forall|j: int|
            0 <= j < i ==> (#[trigger] params[j]).0 != key) && exists|c: int|
            0 <= c < value.len() && !white_space(#[trigger] value[c])
}

/// Whether the parameter at `i` names an author or a journal.
pub open spec fn names_at(params: Params, i: int) -> bool {
    &&& 0 <= i < params.len()
    &&& exists|c: int| 0 <= c < params[i].1.len() && !white_space(#[trigger] params[i].1[c])
    &&& {
        ||| params[i].0 == "author_id"@
        ||| params[i].0 == "orcid"@
        ||| params[i].0 == "author"@
        ||| params[i].0 == "source_id"@
        ||| params[i].0 == "issn"@
        ||| params[i].0 == "journal"@
    }
}

/// Whether `res` is `list` and, behind it, all values of the parameter `key` that are not blank.
pub open spec fn added_to(
    list: Seq<Seq<char>>,
    params: Params,
    key: Seq<char>,
    res: Seq<Seq<char>>,
) -> bool {
    exists|given: Seq<Seq<char>>| #[trigger] collected(params, key, given) && res == list + given
}

/// Whether the topics and the earliest date of `plan` are those of `feed` with what the parameters
/// say of them, and its title is the feed's.
pub open spec fn narrowed_by(feed: FeedConfigView, params: Params, plan: FeedConfigView) -> bool {
    &&& plan.title == feed.title
    &&& exists|given: Seq<Seq<char>>, aliased: Seq<Seq<char>>| #[trigger]
        collected(params, "topic"@, given) && #[trigger] collected(params, "concept"@, aliased)
            && plan.topics == feed.topics + given + aliased
    &&& forall|from: Seq<char>| #[trigger]
        first_given(params, "from"@, from) ==> plan.from == Some(from)
    &&& (forall|from: Seq<char>| !#[trigger] first_given(params, "from"@, from)) ==> plan.from
        == feed.from
}

/// The value of a parameter is the first that is given, unless that is blank.
proof fn lemma_first_given(params: Params, key: Seq<char>)
    ensures
        forall|value: Seq<char>| #[trigger]
            first_given(params, key, value) <==> first_value(params, key) == Some(value),
    decreases params.len(),
{
    assert forall|value: Seq<char>| #[trigger]
        first_given(params, key, value) implies first_value(params, key) == Some(value) by {
        let i = choose|i: int|
            0 <= i < params.len() && #[trigger] params[i] == (key, value) && (forall|j: int|
                0 <= j < i ==> (#[trigger] params[j]).0 != key) && exists|c: int|
                0 <= c < value.len() && !white_space(#[trigger] value[c]);
        let c = choose|c: int| 0 <= c < value.len() && !white_space(#[trigger] value[c]);
        assert(!white_space(params[i].1[c]));
        the_first_parameter_counts(params, key, i);
    }
    assert forall|value: Seq<char>|
        first_value(params, key) == Some(value) implies #[trigger] first_given(
        params,
        key,
        value,
    ) by {
        let i = lemma_first_place(params, key);
        the_first_parameter_counts(params, key, i);
        assert(params[i] == (key, value));
    }
}

/// A parameter that has a value has a first place.
proof fn lemma_first_place(params: Params, key: Seq<char>) -> (i: int)
    requires
        first_value(params, key) is Some,
    ensures
        0 <= i < params.len(),
        params[i].0 == key,
        forall|j: int| 0 <= j < i ==> (#[trigger] params[j]).0 != key,
    decreases params.len(),
{
    if params[0].0 == key {
        0
    } else {
        let rest = params.drop_first();
        let i = lemma_first_place(rest, key);
        assert(rest[i] == params[i + 1]);
        assert forall|j: int| 0 <= j < i + 1 implies (#[trigger] params[j]).0 != key by {
            if j > 0 {
                assert(rest[j - 1] == params[j]);
            }
        }
        i + 1
    }
}

/// A parameter has values exactly where it is given and not blank.
proof fn lemma_has_values(params: Params, key: Seq<char>)
    ensures
        values_of(params, key).len() > 0 <==> exists|i: int|
            0 <= i < params.len() && (#[trigger] params[i]).0 == key && exists|c: int|
                0 <= c < params[i].1.len() && !white_space(#[trigger] params[i].1[c]),
{
    let values = values_of(params, key);
    values_are_collected_in_order(params, key);
    let at = choose|at: Seq<int>| taken_from(params, key, values, at);
    if values.len() > 0 {
        let i = at[0];
        assert(at.contains(i));
        assert(params[i].0 == key);
    }
    if exists|i: int|
        0 <= i < params.len() && (#[trigger] params[i]).0 == key && exists|c: int|
            0 <= c < params[i].1.len() && !white_space(#[trigger] params[i].1[c]) {
        let i = choose|i: int|
            0 <= i < params.len() && (#[trigger] params[i]).0 == key && exists|c: int|
                0 <= c < params[i].1.len() && !white_space(#[trigger] params[i].1[c]);
        assert(at.contains(i));
    }
}

/// A request names someone exactly where one of its parameters does.
proof fn lemma_names_someone(params: Params)
    ensures
        names_someone(params) <==> exists|i: int| names_at(params, i),
{
    lemma_has_values(params, "author_id"@);
    lemma_has_values(params, "orcid"@);
    lemma_has_values(params, "author"@);
    lemma_has_values(params, "source_id"@);
    lemma_has_values(params, "issn"@);
    lemma_has_values(params, "journal"@);
    if exists|i: int| names_at(params, i) {
        let i = choose|i: int| names_at(params, i);
        assert(params[i].0 == params[i].0);
    }
    if names_someone(params) {
        let key = if values_of(params, "author_id"@).len() > 0 {
            "author_id"@
        } else if values_of(params, "orcid"@).len() > 0 {
            "orcid"@
        } else if values_of(params, "author"@).len() > 0 {
            "author"@
        } else if values_of(params, "source_id"@).len() > 0 {
            "source_id"@
        } else if values_of(params, "issn"@).len() > 0 {
            "issn"@
        } else {
            "journal"@
        };
        let i = choose|i: int|
            0 <= i < params.len() && (#[trigger] params[i]).0 == key && exists|c: int|
                0 <= c < params[i].1.len() && !white_space(#[trigger] params[i].1[c]);
        assert(names_at(params, i));
    }
}

/// What the parameters add to a feed.
proof fn lemma_merged(feed: FeedConfigView, params: Params)
    ensures
        narrowed_by(feed, params, merged(feed, params)),
        added_to(feed.author_ids, params, "author_id"@, merged(feed, params).author_ids),
        added_to(feed.orcids, params, "orcid"@, merged(feed, params).orcids),
        added_to(feed.authors, params, "author"@, merged(feed, params).authors),
        added_to(feed.source_ids, params, "source_id"@, merged(feed, params).source_ids),
        added_to(feed.issns, params, "issn"@, merged(feed, params).issns),
        added_to(feed.journals, params, "journal"@, merged(feed, params).journals),
{
    let plan = merged(feed, params);
    values_are_collected_in_order(params, "author_id"@);
    values_are_collected_in_order(params, "orcid"@);
    values_are_collected_in_order(params, "author"@);
    values_are_collected_in_order(params, "source_id"@);
    values_are_collected_in_order(params, "issn"@);
    values_are_collected_in_order(params, "journal"@);
    values_are_collected_in_order(params, "topic"@);
    values_are_collected_in_order(params, "concept"@);
    lemma_first_given(params, "from"@);
    if first_value(params, "from"@) is Some {
        assert(first_given(params, "from"@, first_value(params, "from"@)->0));
    }
    let given = values_of(params, "topic"@);
    let aliased = values_of(params, "concept"@);
    assert(collected(params, "topic"@, given) && collected(params, "concept"@, aliased));
    assert(plan.topics =~= feed.topics + given + aliased);
}

/// A request that names a feed is for that feed with what its parameters add: behind each list of
/// identifiers all values of its parameter that are not blank, however many there are.
pub proof fn a_named_feed_is_extended_by_the_parameters(
    params: Params,
    config: ConfigView,
    name: Seq<char>,
)
    requires
        first_given(params, "feed"@, name),
        config.feeds.contains_key(name),
    ensures
        plan_of(params, config) matches Ok(Some(plan)) && {
            let feed = config.feeds[name];
            &&& narrowed_by(feed, params, plan)
            &&& added_to(feed.author_ids, params, "author_id"@, plan.author_ids)
            &&& added_to(feed.orcids, params, "orcid"@, plan.orcids)
            &&& added_to(feed.authors, params, "author"@, plan.authors)
            &&& added_to(feed.source_ids, params, "source_id"@, plan.source_ids)
            &&& added_to(feed.issns, params, "issn"@, plan.issns)
            &&& added_to(feed.journals, params, "journal"@, plan.journals)
        },
{
    lemma_first_given(params, "feed"@);
    lemma_merged(config.feeds[name], params);
}

/// A request that names a feed that is not configured fails, and the message names the feed.
pub proof fn a_feed_that_is_not_configured_is_an_error(
    params: Params,
    config: ConfigView,
    name: Seq<char>,
)
    requires
        first_given(params, "feed"@, name),
        !config.feeds.contains_key(name),
    ensures
        plan_of(params, config) matches Err(message) && message == "Unknown feed \""@ + name
            + "\"."@,
{
    lemma_first_given(params, "feed"@);
}

/// A request that names no feed but some author or journal, once or often, is for all that it
/// names and nothing else, whatever is configured.
pub proof fn authors_and_journals_stand_alone(params: Params, config: ConfigView, i: int)
    requires
        forall|name: Seq<char>| !#[trigger] first_given(params, "feed"@, name),
        names_at(params, i),
    ensures
        plan_of(params, config) matches Ok(Some(plan)) && {
            &&& plan.title is None
            &&& collected(params, "author_id"@, plan.author_ids)
            &&& collected(params, "orcid"@, plan.orcids)
            &&& collected(params, "author"@, plan.authors)
            &&& collected(params, "source_id"@, plan.source_ids)
            &&& collected(params, "issn"@, plan.issns)
            &&& collected(params, "journal"@, plan.journals)
            &&& exists|given: Seq<Seq<char>>, aliased: Seq<Seq<char>>| #[trigger]
                collected(params, "topic"@, given) && #[trigger] collected(
                    params,
                    "concept"@,
                    aliased,
                ) && plan.topics == given + aliased
            &&& forall|from: Seq<char>| #[trigger]
                first_given(params, "from"@, from) <==> plan.from == Some(from)
        },
{
    lemma_first_given(params, "feed"@);
    lemma_first_given(params, "from"@);
    lemma_names_someone(params);
    let plan = merged(empty_feed(), params);
    if first_value(params, "feed"@) is Some {
        assert(first_given(params, "feed"@, first_value(params, "feed"@)->0));
    }
    assert(plan.author_ids =~= values_of(params, "author_id"@));
    assert(plan.orcids =~= values_of(params, "orcid"@));
    assert(plan.authors =~= values_of(params, "author"@));
    assert(plan.source_ids =~= values_of(params, "source_id"@));
    assert(plan.issns =~= values_of(params, "issn"@));
    assert(plan.journals =~= values_of(params, "journal"@));
    values_are_collected_in_order(params, "author_id"@);
    values_are_collected_in_order(params, "orcid"@);
    values_are_collected_in_order(params, "author"@);
    values_are_collected_in_order(params, "source_id"@);
    values_are_collected_in_order(params, "issn"@);
    values_are_collected_in_order(params, "journal"@);
    values_are_collected_in_order(params, "topic"@);
    values_are_collected_in_order(params, "concept"@);
    let given = values_of(params, "topic"@);
    let aliased = values_of(params, "concept"@);
    assert(collected(params, "topic"@, given) && collected(params, "concept"@, aliased));
    assert(plan.topics =~= given + aliased);
}

/// A request that names neither a feed nor an author or a journal is for the authors and journals
/// of the default feed, or for nothing where none is configured; a default feed that is not there
/// is an error that names it.
pub proof fn the_default_feed_serves_all_other_requests(params: Params, config: ConfigView)
    requires
        forall|name: Seq<char>| !#[trigger] first_given(params, "feed"@, name),
        forall|i: int| !#[trigger] names_at(params, i),
    ensures
        match config.default_feed {
            None => plan_of(params, config) matches Ok(None),
            Some(name) => if config.feeds.contains_key(name) {
                plan_of(params, config) matches Ok(Some(plan)) && {
                    let feed = config.feeds[name];
                    &&& narrowed_by(feed, params, plan)
                    &&& plan.author_ids == feed.author_ids
                    &&& plan.orcids == feed.orcids
                    &&& plan.authors == feed.authors
                    &&& plan.source_ids == feed.source_ids
                    &&& plan.issns == feed.issns
                    &&& plan.journals == feed.journals
                }
            } else {
                plan_of(params, config) matches Err(message) && message
                    == "Configured default_feed \""@ + name + "\" not found."@
            },
        },
{
    lemma_first_given(params, "feed"@);
    lemma_names_someone(params);
    if first_value(params, "feed"@) is Some {
        assert(first_given(params, "feed"@, first_value(params, "feed"@)->0));
    }
    if let Some(name) = config.default_feed {
        if config.feeds.contains_key(name) {
            let feed = config.feeds[name];
            lemma_merged(feed, params);
            let plan = merged(feed, params);
            assert(plan.author_ids =~= feed.author_ids);
            assert(plan.orcids =~= feed.orcids);
            assert(plan.authors =~= feed.authors);
            assert(plan.source_ids =~= feed.source_ids);
            assert(plan.issns =~= feed.issns);
            assert(plan.journals =~= feed.journals);
        }
    }
}

/// The ids that were found are those that a look-up gave.
proof fn lemma_found_ids(found: Seq<Option<Seq<char>>>, id: Seq<char>)
    ensures
        found_ids(found).contains(id) <==> exists|i: int|
            0 <= i < found.len() && #[trigger] found[i] == Some(id),
    decreases found.len(),
{
    if found.len() > 0 {
        let earlier = found.drop_last();
        lemma_found_ids(earlier, id);
        let before = found_ids(earlier);
        if let Some(last) = found.last() {
            assert(found_ids(found) =~= before.push(last));
            lemma_push_contains(before, last, id);
        } else {
            assert(found_ids(found) =~= before);
        }
        if exists|i: int| 0 <= i < found.len() && #[trigger] found[i] == Some(id) {
            let i = choose|i: int| 0 <= i < found.len() && #[trigger] found[i] == Some(id);
            if i < earlier.len() {
                assert(earlier[i] == Some(id));
            }
        }
        if exists|i: int| 0 <= i < earlier.len() && #[trigger] earlier[i] == Some(id) {
            let i = choose|i: int| 0 <= i < earlier.len() && #[trigger] earlier[i] == Some(id);
            assert(found[i] == Some(id));
        }
        assert(found[found.len() - 1] == found.last());
    }
}

/// The ids that were found along with a name are those that a look-up gave.
proof fn lemma_found_named_ids(found: Seq<Option<(Seq<char>, Seq<char>)>>, id: Seq<char>)
    ensures
        found_named_ids(found).contains(id) <==> exists|i: int|
            0 <= i < found.len() && (#[trigger] found[i] matches Some(hit) && hit.0 == id),
    decreases found.len(),
{
    if found.len() > 0 {
        let earlier = found.drop_last();
        lemma_found_named_ids(earlier, id);
        let before = found_named_ids(earlier);
        if let Some(last) = found.last() {
            assert(found_named_ids(found) =~= before.push(last.0));
            lemma_push_contains(before, last.0, id);
        } else {
            assert(found_named_ids(found) =~= before);
        }
        if exists|i: int|
            0 <= i < found.len() && (#[trigger] found[i] matches Some(hit) && hit.0 == id) {
            let i = choose|i: int|
                0 <= i < found.len() && (#[trigger] found[i] matches Some(hit) && hit.0 == id);
            if i < earlier.len() {
                assert(earlier[i] == found[i]);
            }
        }
        if exists|i: int|
            0 <= i < earlier.len() && (#[trigger] earlier[i] matches Some(hit) && hit.0 == id) {
            let i = choose|i: int|
                0 <= i < earlier.len() && (#[trigger] earlier[i] matches Some(hit) && hit.0 == id);
            assert(found[i] == earlier[i]);
        }
        assert(found[found.len() - 1] == found.last());
    }
}

/// The bare forms of ids are those of each of them.
proof fn lemma_bare_ids(ids: Seq<Seq<char>>, id: Seq<char>)
    ensures
        bare_ids(ids).contains(id) <==> exists|i: int|
            0 <= i < ids.len() && last_segment(trimmed(#[trigger] ids[i])) == id,
{
    let bare = bare_ids(ids);
    if bare.contains(id) {
        let i = bare.index_of(id);
        assert(last_segment(trimmed(ids[i])) == id);
    }
    if exists|i: int| 0 <= i < ids.len() && last_segment(trimmed(#[trigger] ids[i])) == id {
        let i = choose|i: int|
            0 <= i < ids.len() && last_segment(trimmed(#[trigger] ids[i])) == id;
        assert(bare[i] == id);
    }
}

/// What a list holds that is made of three.
proof fn lemma_of_three(a: Seq<Seq<char>>, b: Seq<Seq<char>>, c: Seq<Seq<char>>, id: Seq<char>)
    ensures
        (a + b + c).contains(id) <==> a.contains(id) || b.contains(id) || c.contains(id),
{
    vstd::seq_lib::lemma_seq_concat_contains_all_elements(a, b, id);
    vstd::seq_lib::lemma_seq_concat_contains_all_elements(a + b, c, id);
}

/// A feed has the authors whose ids the plan holds, in their bare form, and those that the look-ups
/// gave, and no others; so it has journals; its topics are those of the plan, in their bare form.
pub proof fn a_feed_has_the_ids_of_its_plan(
    plan: FeedConfigView,
    found: LookupsView,
    window: Option<Seq<char>>,
    request: FeedRequest,
    id: Seq<char>,
)
    requires
        resolves_to(plan, found, window, Resolved::Feed(request)),
    ensures
        request.deep_view().author_ids.contains(id) <==> {
            ||| exists|i: int|
                0 <= i < plan.author_ids.len() && last_segment(
                    trimmed(#[trigger] plan.author_ids[i]),
                ) == id
            ||| exists|i: int| 0 <= i < found.orcids.len() && #[trigger] found.orcids[i] == Some(id)
            ||| exists|i: int|
                0 <= i < found.authors.len() && (#[trigger] found.authors[i] matches Some(hit)
                    && hit.0 == id)
        },
        request.deep_view().source_ids.contains(id) <==> {
            ||| exists|i: int|
                0 <= i < plan.source_ids.len() && last_segment(
                    trimmed(#[trigger] plan.source_ids[i]),
                ) == id
            ||| exists|i: int| 0 <= i < found.issns.len() && #[trigger] found.issns[i] == Some(id)
            ||| exists|i: int|
                0 <= i < found.journals.len() && (#[trigger] found.journals[i] matches Some(hit)
                    && hit.0 == id)
        },
        request.deep_view().topics.contains(id) <==> exists|i: int|
            0 <= i < plan.topics.len() && last_segment(trimmed(#[trigger] plan.topics[i])) == id,
{
    lemma_bare_ids(plan.author_ids, id);
    lemma_bare_ids(plan.source_ids, id);
    lemma_bare_ids(plan.topics, id);
    lemma_found_ids(found.orcids, id);
    lemma_found_ids(found.issns, id);
    lemma_found_named_ids(found.authors, id);
    lemma_found_named_ids(found.journals, id);
    lemma_of_three(
        bare_ids(plan.author_ids),
        found_ids(found.orcids),
        found_named_ids(found.authors),
        id,
    );
    lemma_of_three(
        bare_ids(plan.source_ids),
        found_ids(found.issns),
        found_named_ids(found.journals),
        id,
    );
}

/// The ids and topics of a feed stand in ascending order, none twice; its title is the plan's; and
/// it starts on the plan's own date where it has one, else with the recency window.
pub proof fn a_feed_is_in_order(
    plan: FeedConfigView,
    found: LookupsView,
    window: Option<Seq<char>>,
    request: FeedRequest,
)
    requires
        resolves_to(plan, found, window, Resolved::Feed(request)),
    ensures
        forall|i: int, j: int|
            0 <= i < j < request.deep_view().author_ids.len() ==> precedes(
                #[trigger] request.deep_view().author_ids[i],
                #[trigger] request.deep_view().author_ids[j],
            ),
        forall|i: int, j: int|
            0 <= i < j < request.deep_view().source_ids.len() ==> precedes(
                #[trigger] request.deep_view().source_ids[i],
                #[trigger] request.deep_view().source_ids[j],
            ),
        forall|i: int, j: int|
            0 <= i < j < request.deep_view().topics.len() ==> precedes(
                #[trigger] request.deep_view().topics[i],
                #[trigger] request.deep_view().topics[j],
            ),
        request.deep_view().title == plan.title,
        plan.from matches Some(from) ==> request.deep_view().from == from,
        plan.from is None ==> window == Some(request.deep_view().from),
{
}

/// Nothing comes of a plan exactly where it holds no id and no look-up gave one; and it cannot be
/// served exactly where there is an id, but neither a date of its own nor a window.
pub proof fn nothing_comes_of_a_plan_without_ids(
    plan: FeedConfigView,
    found: LookupsView,
    window: Option<Seq<char>>,
    res: Resolved,
)
    requires
        resolves_to(plan, found, window, res),
    ensures
        res is Nothing <==> {
            &&& plan.author_ids.len() == 0 && plan.source_ids.len() == 0
            &&& forall|i: int| 0 <= i < found.orcids.len() ==> #[trigger] found.orcids[i] is None
            &&& forall|i: int| 0 <= i < found.authors.len() ==> #[trigger] found.authors[i] is None
            &&& forall|i: int| 0 <= i < found.issns.len() ==> #[trigger] found.issns[i] is None
            &&& forall|i: int|
                0 <= i < found.journals.len() ==> #[trigger] found.journals[i] is None
        },
        res is WindowOutOfRange <==> !(res is Nothing) && plan.from is None && window is None,
{
    lemma_nothing_found(found.orcids);
    lemma_nothing_found(found.issns);
    lemma_no_one_found(found.authors);
    lemma_no_one_found(found.journals);
}

proof fn lemma_nothing_found(found: Seq<Option<Seq<char>>>)
    ensures
        found_ids(found).len() == 0 <==> forall|i: int|
            0 <= i < found.len() ==> #[trigger] found[i] is None,
{
    let ids = found_ids(found);
    if ids.len() > 0 {
        assert(ids.contains(ids[0]));
        lemma_found_ids(found, ids[0]);
    }
    if exists|i: int| 0 <= i < found.len() && #[trigger] found[i] is Some {
        let i = choose|i: int| 0 <= i < found.len() && #[trigger] found[i] is Some;
        lemma_found_ids(found, found[i]->0);
        assert(found[i] == Some(found[i]->0));
    }
}

proof fn lemma_no_one_found(found: Seq<Option<(Seq<char>, Seq<char>)>>)
    ensures
        found_named_ids(found).len() == 0 <==> forall|i: int|
            0 <= i < found.len() ==> #[trigger] found[i] is None,
{
    let ids = found_named_ids(found);
    if ids.len() > 0 {
        assert(ids.contains(ids[0]));
        lemma_found_named_ids(found, ids[0]);
    }
    if exists|i: int| 0 <= i < found.len() && #[trigger] found[i] is Some {
        let i = choose|i: int| 0 <= i < found.len() && #[trigger] found[i] is Some;
        lemma_found_named_ids(found, (found[i]->0).0);
        assert(found[i] matches Some(hit) && hit.0 == (found[i]->0).0);
    }
}

/// Two requests have the same key exactly where they have the same authors, journals, earliest date
/// and topics.
pub proof fn keys_agree_where_all_but_the_titles_do(a: FeedRequestView, b: FeedRequestView)
    ensures
        key_of(a) == key_of(b) <==> a.author_ids == b.author_ids && a.source_ids == b.source_ids
            && a.from == b.from && a.topics == b.topics,
{
}

/// The view of a request, of look-ups and of a planned request holds all that they hold.
pub proof fn views_of_requests_are_whole(
    request: FeedRequest,
    found: Lookups,
    feed: FeedConfig,
    message: String,
)
    ensures
        request.deep_view().author_ids == request.author_ids.deep_view(),
        request.deep_view().source_ids == request.source_ids.deep_view(),
        request.deep_view().from == request.from@,
        request.deep_view().topics == request.topics.deep_view(),
        request.deep_view().title == request.title.deep_view(),
        found.deep_view().orcids == found.orcids.deep_view(),
        found.deep_view().authors == found.authors.deep_view(),
        found.deep_view().issns == found.issns.deep_view(),
        found.deep_view().journals == found.journals.deep_view(),
        plan_view(Ok(Some(feed))) matches Ok(Some(plan)) && plan == feed.deep_view(),
        plan_view(Ok(None)) matches Ok(None),
        plan_view(Err(message)) matches Err(text) && text == message@,
{
}

} // verus!
