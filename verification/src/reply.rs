//! The HTTP response to a request.

use crate::channel::{
    document_of, documents_hold_the_items_in_order, render_channel, rss_item, rss_text, Channel,
    ChannelView,
};
use vstd::prelude::*;

verus! {

/// What became of a request.
pub enum Outcome {
    /// It asked for nothing.
    NoFeed,
    /// It could not be understood, for the reason given.
    Failed(String),
    /// It asked for the feed with this channel.
    Feed(Channel),
}

/// What an [`Outcome`] holds.
pub enum OutcomeView {
    NoFeed,
    Failed(Seq<char>),
    Feed(ChannelView),
}

impl DeepView for Outcome {
    type V = OutcomeView;

    open spec fn deep_view(&self) -> OutcomeView {
        match self {
            Outcome::NoFeed => OutcomeView::NoFeed,
            Outcome::Failed(message) => OutcomeView::Failed(message@),
            Outcome::Feed(channel) => OutcomeView::Feed(channel.deep_view()),
        }
    }
}

/// An HTTP response.
#[derive(Debug, PartialEq, Eq)]
pub struct Reply {
    pub status: u16,
    /// The names and values of the headers, in order.
    pub headers: Vec<(String, String)>,
    pub body: String,
}

/// What a [`Reply`] holds.
pub struct ReplyView {
    pub status: u16,
    pub headers: Seq<(Seq<char>, Seq<char>)>,
    pub body: Seq<char>,
}

impl DeepView for Reply {
    type V = ReplyView;

    open spec fn deep_view(&self) -> ReplyView {
        ReplyView {
            status: self.status,
            headers: self.headers.deep_view(),
            body: self.body@,
        }
    }
}

/// What is answered where nothing was asked for.
pub const USAGE: &'static str = "No authors or journals specified. Provide ?author_id=, ?orcid=, ?author=, ?source_id=, ?issn=, or ?journal=, or configure feeds in the config file and use ?feed=<name>.";

/// The header that lets pages of any origin read the response.
pub open spec fn any_origin() -> (Seq<char>, Seq<char>) {
    ("Access-Control-Allow-Origin"@, "*"@)
}

/// The response to a request of which `outcome` became.
pub open spec fn reply_to(outcome: OutcomeView) -> ReplyView {
    match outcome {
        OutcomeView::NoFeed => ReplyView {
            status: 200,
            headers: seq![any_origin()],
            body: USAGE@,
        },
        OutcomeView::Failed(message) => ReplyView {
            status: 400,
            headers: seq![any_origin()],
            body: message,
        },
        OutcomeView::Feed(channel) => ReplyView {
            status: 200,
            headers: seq![("Content-Type"@, "text/xml; charset=utf-8"@), any_origin()],
            body: document_of(channel),
        },
    }
}

/// The response to a request of which `outcome` became.
pub fn send_rss(outcome: Outcome) -> (res: Reply)
    ensures
        res.deep_view() == reply_to(outcome.deep_view()),
{
    let mut headers: Vec<(String, String)> = Vec::new();
    match outcome {
        Outcome::NoFeed => {
            headers.push(("Access-Control-Allow-Origin".to_string(), "*".to_string()));
            assert(headers.deep_view() =~= seq![any_origin()]);
            Reply { status: 200, headers, body: USAGE.to_string() }
        },
        Outcome::Failed(message) => {
            headers.push(("Access-Control-Allow-Origin".to_string(), "*".to_string()));
            assert(headers.deep_view() =~= seq![any_origin()]);
            Reply { status: 400, headers, body: message }
        },
        Outcome::Feed(channel) => {
            headers.push(("Content-Type".to_string(), "text/xml; charset=utf-8".to_string()));
            headers.push(("Access-Control-Allow-Origin".to_string(), "*".to_string()));
            assert(headers.deep_view() =~= seq![
                ("Content-Type"@, "text/xml; charset=utf-8"@),
                any_origin(),
            ]);
            Reply { status: 200, headers, body: render_channel(channel) }
        },
    }
}

/// Every response may be read by pages of any origin.
pub proof fn every_reply_allows_any_origin(outcome: OutcomeView)
    ensures
        reply_to(outcome).headers.contains(any_origin()),
{
    let headers = reply_to(outcome).headers;
    assert(headers[headers.len() - 1] == any_origin());
}

/// A request that could not be understood, and no other, is answered as a bad request.
pub proof fn bad_request_iff_failed(outcome: OutcomeView)
    ensures
        reply_to(outcome).status == 400 <==> outcome is Failed,
        reply_to(outcome).status == 200 <==> !(outcome is Failed),
{
}

/// A request for nothing is answered with the usage, one that could not be understood with the
/// reason, and one for a feed with the document of its channel, marked as such.
pub proof fn replies_are_what_became_of_the_request(outcome: OutcomeView)
    ensures
        match outcome {
            OutcomeView::NoFeed => {
                &&& reply_to(outcome).status == 200
                &&& reply_to(outcome).body == USAGE@
                &&& reply_to(outcome).headers == seq![("Access-Control-Allow-Origin"@, "*"@)]
            },
            OutcomeView::Failed(message) => {
                &&& reply_to(outcome).status == 400
                &&& reply_to(outcome).body == message
                &&& reply_to(outcome).headers == seq![("Access-Control-Allow-Origin"@, "*"@)]
            },
            OutcomeView::Feed(channel) => {
                &&& reply_to(outcome).status == 200
                &&& reply_to(outcome).body == document_of(channel)
                &&& reply_to(outcome).headers == seq![
                    ("Content-Type"@, "text/xml; charset=utf-8"@),
                    ("Access-Control-Allow-Origin"@, "*"@),
                ]
            },
        },
{
}

/// The reply to a request for a feed holds the items of its channel one for one, in their order.
pub proof fn served_feeds_hold_their_items_in_order(channel: ChannelView, items: Seq<rss::Item>)
    requires
        items.len() == channel.items.len(),
        forall|i: int| 0 <= i < items.len() ==> #[trigger] items[i] == rss_item(channel.items[i]),
    ensures
        reply_to(OutcomeView::Feed(channel)).body == rss_text(channel.info, items),
{
    documents_hold_the_items_in_order(channel, items);
}

/// The view of a reply, and of what became of a request, holds all that they hold.
pub proof fn views_of_replies_are_whole(reply: Reply, message: String, channel: Channel)
    ensures
        reply.deep_view().status == reply.status,
        reply.deep_view().headers == reply.headers.deep_view(),
        reply.deep_view().body == reply.body@,
        Outcome::NoFeed.deep_view() is NoFeed,
        Outcome::Failed(message).deep_view() == OutcomeView::Failed(message@),
        Outcome::Feed(channel).deep_view() == OutcomeView::Feed(channel.deep_view()),
{
}

} // verus!
