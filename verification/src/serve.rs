//! The steps in which a request is answered: it is planned, what it names is looked up, and the
//! feed that comes of it is served.

use crate::calendar::{EPOCH_DAY, LATEST_DAY};
use crate::config::{Config, ConfigView, FeedConfig, FeedConfigView};
use crate::dates::{day_of_the_clock, longest_window, window_days, window_start};
use crate::params::{collected, first_value, params_of, query_params};
use crate::reply::{any_origin, reply_to, send_rss, Outcome, OutcomeView, Reply, USAGE};
use crate::request::{
    all_author_ids, all_source_ids, authors_and_journals_stand_alone, first_given, names_at,
    names_someone, plan_feed_request, plan_of,
    resolve_feed_request, resolve_since, resolves_to, FeedRequest, Lookups, LookupsView, Params,
    Resolved,
};
use vstd::prelude::*;

verus! {

/// What follows on a request.
#[derive(Debug, PartialEq, Eq)]
pub enum Begun {
    /// The answer.
    Answered(Reply),
    /// The identifiers of this plan are to be looked up.
    LookUp(FeedConfig),
}

/// What follows on the look-ups.
#[derive(Debug, PartialEq, Eq)]
pub enum Continued {
    /// The answer.
    Answered(Reply),
    /// The channel of this feed is to be served.
    Serve(FeedRequest),
    /// The recency window starts before all dates that can be written.
    WindowOutOfRange,
}

/// Whether `res` is what follows on a request with the parameters `params`.
pub open spec fn begins_with(params: Params, config: ConfigView, res: Begun) -> bool {
    match plan_of(params, config) {
        Ok(Some(plan)) => res matches Begun::LookUp(feed) && feed.deep_view() == plan,
        Ok(None) => res matches Begun::Answered(reply) && reply.deep_view() == reply_to(
            OutcomeView::NoFeed,
        ),
        Err(message) => res matches Begun::Answered(reply) && reply.deep_view() == reply_to(
            OutcomeView::Failed(message),
        ),
    }
}

/// Whether `res` is what follows where `resolved` became of a plan.
pub open spec fn goes_on_with(resolved: Resolved, res: Continued) -> bool {
    match resolved {
        Resolved::Nothing => res matches Continued::Answered(reply) && reply.deep_view()
            == reply_to(OutcomeView::NoFeed),
        Resolved::Feed(request) => res matches Continued::Serve(feed) && feed == request,
        Resolved::WindowOutOfRange => res is WindowOutOfRange,
    }
}

/// Whether `res` is what follows on the look-ups of a plan, given where the recency window
/// starts.
pub open spec fn continues_with(
    plan: FeedConfigView,
    found: LookupsView,
    window: Option<Seq<char>>,
    res: Continued,
) -> bool {
    exists|resolved: Resolved| #[trigger]
        resolves_to(plan, found, window, resolved) && goes_on_with(resolved, res)
}

/// Plans the request with the query string `query`, or answers it where there is nothing to
/// look up.
pub fn begin_request(query: Option<&str>, config: &Config) -> (res: Begun)
    ensures
        begins_with(params_of(query), config.deep_view(), res),
{
    let params: Vec<(String, String)> = query_params(query);
    begin_with_params(params.as_slice(), config)
}

/// Plans the request with the parameters `params`, or answers it where there is nothing to look
/// up.
pub fn begin_with_params(params: &[(String, String)], config: &Config) -> (res: Begun)
    ensures
        begins_with(params.deep_view(), config.deep_view(), res),
{
    match plan_feed_request(params, config) {
        Ok(Some(plan)) => Begun::LookUp(plan),
        Ok(None) => Begun::Answered(send_rss(Outcome::NoFeed)),
        Err(message) => Begun::Answered(send_rss(Outcome::Failed(message))),
    }
}

/// What follows where `resolved` became of a plan.
fn go_on(resolved: Resolved) -> (res: Continued)
    ensures
        goes_on_with(resolved, res),
{
    match resolved {
        Resolved::Nothing => Continued::Answered(send_rss(Outcome::NoFeed)),
        Resolved::Feed(request) => Continued::Serve(request),
        Resolved::WindowOutOfRange => Continued::WindowOutOfRange,
    }
}

/// Goes on with a request once its plan was looked up, given where the recency window starts.
pub fn continue_since(plan: FeedConfig, found: &Lookups, window: Option<String>) -> (res: Continued)
    ensures
        continues_with(plan.deep_view(), found.deep_view(), window.deep_view(), res),
{
    let ghost (asked, start) = (plan.deep_view(), window.deep_view());
    let resolved: Resolved = resolve_since(plan, found, window);
    assert(resolves_to(asked, found.deep_view(), start, resolved));
    go_on(resolved)
}

/// Goes on with a request once its plan was looked up. The clock is read only where the plan
/// has no earliest date of its own.
pub fn continue_request(plan: FeedConfig, found: &Lookups, config: &Config) -> (res: Continued)
    ensures
        plan.from is Some ==> continues_with(plan.deep_view(), found.deep_view(), None, res),
        plan.from is None ==> exists|today: int|
            day_of_the_clock(today) && EPOCH_DAY <= today <= LATEST_DAY && continues_with(
                plan.deep_view(),
                found.deep_view(),
                #[trigger] window_start(config.deep_view().settings.from_days, today),
                res,
            ),
        window_days(config.deep_view().settings.from_days) <= longest_window() ==> !(
        res is WindowOutOfRange),
{
    let ghost asked = plan;
    let resolved: Resolved = resolve_feed_request(plan, found, config);
    let res: Continued = go_on(resolved);
    proof {
        if asked.from is None {
            let today = choose|today: int|
                day_of_the_clock(today) && EPOCH_DAY <= today <= LATEST_DAY && resolves_to(
                    asked.deep_view(),
                    found.deep_view(),
                    #[trigger] window_start(config.deep_view().settings.from_days, today),
                    resolved,
                );
            assert(continues_with(
                asked.deep_view(),
                found.deep_view(),
                window_start(config.deep_view().settings.from_days, today),
                res,
            ));
        }
    }
    res
}

/// A request for a feed that is not configured is answered at once, as a bad request and with a
/// message that names the feed. Pages of any origin may read the answer.
pub proof fn unknown_feed_is_answered(
    params: Params,
    config: ConfigView,
    name: Seq<char>,
    res: Begun,
)
    requires
        begins_with(params, config, res),
        first_value(params, "feed"@) == Some(name),
        !config.feeds.contains_key(name),
    ensures
        res matches Begun::Answered(reply) && {
            &&& reply.deep_view().status == 400
            &&& reply.deep_view().body == "Unknown feed \""@ + name + "\"."@
            &&& reply.deep_view().headers == seq![any_origin()]
        },
{
}

/// A request that names nothing, where there is no default feed, is answered at once with what
/// a request may name.
pub proof fn empty_request_is_answered_with_the_usage(
    params: Params,
    config: ConfigView,
    res: Begun,
)
    requires
        begins_with(params, config, res),
        first_value(params, "feed"@) is None,
        !names_someone(params),
        config.default_feed is None,
    ensures
        res matches Begun::Answered(reply) && reply.deep_view().status == 200
            && reply.deep_view().body == USAGE@,
{
}

/// A feed needs at least one author or journal: a request is answered with what it may name
/// exactly where its plan and the look-ups leave it neither.
pub proof fn a_feed_needs_an_author_or_a_journal(
    plan: FeedConfigView,
    found: LookupsView,
    window: Option<Seq<char>>,
    res: Continued,
)
    requires
        continues_with(plan, found, window, res),
    ensures
        res is Answered <==> all_author_ids(plan, found).len() == 0 && all_source_ids(
            plan,
            found,
        ).len() == 0,
        res matches Continued::Answered(reply) ==> reply.deep_view().status == 200
            && reply.deep_view().body == USAGE@,
{
}

/// A request is answered at once exactly where there is no plan for it: with the usage where it
/// asks for nothing, with the reason and as a bad request where it fails. Else what it names is
/// looked up.
pub proof fn requests_are_answered_or_looked_up(params: Params, config: ConfigView, res: Begun)
    requires
        begins_with(params, config, res),
    ensures
        match plan_of(params, config) {
            Ok(Some(plan)) => res matches Begun::LookUp(feed) && feed.deep_view() == plan,
            Ok(None) => res matches Begun::Answered(reply) && reply.deep_view().status == 200
                && reply.deep_view().body == USAGE@,
            Err(message) => res matches Begun::Answered(reply) && reply.deep_view().status == 400
                && reply.deep_view().body == message,
        },
{
}

/// A request that names no feed but some author or journal, once or often, is looked up for all
/// that it names and nothing else, whatever is configured.
pub proof fn authors_and_journals_are_looked_up(
    params: Params,
    config: ConfigView,
    i: int,
    res: Begun,
)
    requires
        begins_with(params, config, res),
        forall|name: Seq<char>| !#[trigger] first_given(params, "feed"@, name),
        names_at(params, i),
    ensures
        res matches Begun::LookUp(feed) && {
            let plan = feed.deep_view();
            &&& plan.title is None
            &&& collected(params, "author_id"@, plan.author_ids)
            &&& collected(params, "orcid"@, plan.orcids)
            &&& collected(params, "author"@, plan.authors)
            &&& collected(params, "source_id"@, plan.source_ids)
            &&& collected(params, "issn"@, plan.issns)
            &&& collected(params, "journal"@, plan.journals)
        },
{
    authors_and_journals_stand_alone(params, config, i);
}

/// What became of a plan decides what follows: the usage where nothing did, the feed where one
/// did.
pub proof fn resolved_feeds_are_served(
    plan: FeedConfigView,
    found: LookupsView,
    window: Option<Seq<char>>,
    res: Continued,
)
    requires
        continues_with(plan, found, window, res),
    ensures
        match res {
            Continued::Answered(reply) => resolves_to(plan, found, window, Resolved::Nothing)
                && reply.deep_view().status == 200 && reply.deep_view().body == USAGE@,
            Continued::Serve(request) => resolves_to(
                plan,
                found,
                window,
                Resolved::Feed(request),
            ),
            Continued::WindowOutOfRange => resolves_to(
                plan,
                found,
                window,
                Resolved::WindowOutOfRange,
            ),
        },
{
}

} // verus!
