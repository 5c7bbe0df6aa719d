//! The RSS channel of a feed and its items.

use crate::dates::{
    date_stamp, is_stampable, now, present_stamp, stampable, time_of_the_clock, to_rfc2822,
};
use crate::openalex::Work;
use crate::request::{FeedRequest, FeedRequestView};
use crate::text::{decimal, decimal_text};
use vstd::prelude::*;

verus! {

/// What identifies an item.
#[derive(Debug, PartialEq, Eq)]
pub struct Guid {
    pub value: String,
    /// Whether `value` is a URL under which the item stays.
    pub permalink: bool,
}

/// Where an item came from.
#[derive(Debug, PartialEq, Eq)]
pub struct Source {
    pub url: String,
    pub title: Option<String>,
}

/// A file that belongs to an item.
#[derive(Debug, PartialEq, Eq)]
pub struct Enclosure {
    pub url: String,
    pub length: String,
    pub mime_type: String,
}

/// An item of a channel.
#[derive(Debug, PartialEq, Eq)]
pub struct FeedItem {
    pub title: Option<String>,
    pub author: Option<String>,
    pub description: Option<String>,
    pub link: Option<String>,
    pub guid: Option<Guid>,
    pub source: Option<Source>,
    /// When it was published, as an RFC 2822 timestamp.
    pub pub_date: Option<String>,
    pub enclosure: Option<Enclosure>,
    pub content: Option<String>,
}

/// A text box that readers may show with a channel.
#[derive(Debug, PartialEq, Eq)]
pub struct TextInput {
    pub title: String,
    pub description: String,
    pub name: String,
    pub link: String,
}

/// What a channel says of itself.
#[derive(Debug, PartialEq, Eq)]
pub struct ChannelInfo {
    pub title: String,
    pub description: String,
    pub language: String,
    pub generator: String,
    /// For how many minutes it may be cached.
    pub ttl: String,
    pub docs: String,
    pub text_input: TextInput,
    pub category: String,
    /// When it was published, as an RFC 2822 timestamp.
    pub pub_date: String,
    /// When it last changed, as an RFC 2822 timestamp.
    pub last_build_date: String,
}

/// A channel.
#[derive(Debug, PartialEq, Eq)]
pub struct Channel {
    pub info: ChannelInfo,
    pub items: Vec<FeedItem>,
}

/// What a [`Guid`] holds.
pub struct GuidView {
    pub value: Seq<char>,
    pub permalink: bool,
}

/// What a [`Source`] holds.
pub struct SourceView {
    pub url: Seq<char>,
    pub title: Option<Seq<char>>,
}

/// What an [`Enclosure`] holds.
pub struct EnclosureView {
    pub url: Seq<char>,
    pub length: Seq<char>,
    pub mime_type: Seq<char>,
}

/// What an [`FeedItem`] holds.
pub struct FeedItemView {
    pub title: Option<Seq<char>>,
    pub author: Option<Seq<char>>,
    pub description: Option<Seq<char>>,
    pub link: Option<Seq<char>>,
    pub guid: Option<GuidView>,
    pub source: Option<SourceView>,
    pub pub_date: Option<Seq<char>>,
    pub enclosure: Option<EnclosureView>,
    pub content: Option<Seq<char>>,
}

/// What a [`TextInput`] holds.
pub struct TextInputView {
    pub title: Seq<char>,
    pub description: Seq<char>,
    pub name: Seq<char>,
    pub link: Seq<char>,
}

/// What a [`ChannelInfo`] holds.
pub struct ChannelInfoView {
    pub title: Seq<char>,
    pub description: Seq<char>,
    pub language: Seq<char>,
    pub generator: Seq<char>,
    pub ttl: Seq<char>,
    pub docs: Seq<char>,
    pub text_input: TextInputView,
    pub category: Seq<char>,
    pub pub_date: Seq<char>,
    pub last_build_date: Seq<char>,
}

/// What a [`Channel`] holds.
pub struct ChannelView {
    pub info: ChannelInfoView,
    pub items: Seq<FeedItemView>,
}

impl DeepView for Guid {
    type V = GuidView;

    open spec fn deep_view(&self) -> GuidView {
        GuidView { value: self.value@, permalink: self.permalink }
    }
}

impl DeepView for Source {
    type V = SourceView;

    open spec fn deep_view(&self) -> SourceView {
        SourceView { url: self.url@, title: self.title.deep_view() }
    }
}

impl DeepView for Enclosure {
    type V = EnclosureView;

    open spec fn deep_view(&self) -> EnclosureView {
        EnclosureView { url: self.url@, length: self.length@, mime_type: self.mime_type@ }
    }
}

impl DeepView for FeedItem {
    type V = FeedItemView;

    open spec fn deep_view(&self) -> FeedItemView {
        FeedItemView {
            title: self.title.deep_view(),
            author: self.author.deep_view(),
            description: self.description.deep_view(),
            link: self.link.deep_view(),
            guid: self.guid.deep_view(),
            source: self.source.deep_view(),
            pub_date: self.pub_date.deep_view(),
            enclosure: self.enclosure.deep_view(),
            content: self.content.deep_view(),
        }
    }
}

impl DeepView for TextInput {
    type V = TextInputView;

    open spec fn deep_view(&self) -> TextInputView {
        TextInputView {
            title: self.title@,
            description: self.description@,
            name: self.name@,
            link: self.link@,
        }
    }
}

impl DeepView for ChannelInfo {
    type V = ChannelInfoView;

    open spec fn deep_view(&self) -> ChannelInfoView {
        ChannelInfoView {
            title: self.title@,
            description: self.description@,
            language: self.language@,
            generator: self.generator@,
            ttl: self.ttl@,
            docs: self.docs@,
            text_input: self.text_input.deep_view(),
            category: self.category@,
            pub_date: self.pub_date@,
            last_build_date: self.last_build_date@,
        }
    }
}

impl DeepView for Channel {
    type V = ChannelView;

    open spec fn deep_view(&self) -> ChannelView {
        ChannelView { info: self.info.deep_view(), items: self.items.deep_view() }
    }
}

impl Clone for Guid {
    fn clone(&self) -> (res: Self)
        ensures
            res.deep_view() == self.deep_view(),
    {
        Guid { value: self.value.clone(), permalink: self.permalink }
    }
}

impl Clone for Source {
    fn clone(&self) -> (res: Self)
        ensures
            res.deep_view() == self.deep_view(),
    {
        Source { url: self.url.clone(), title: self.title.clone() }
    }
}

impl Clone for Enclosure {
    fn clone(&self) -> (res: Self)
        ensures
            res.deep_view() == self.deep_view(),
    {
        Enclosure {
            url: self.url.clone(),
            length: self.length.clone(),
            mime_type: self.mime_type.clone(),
        }
    }
}

impl Clone for FeedItem {
    fn clone(&self) -> (res: Self)
        ensures
            res.deep_view() == self.deep_view(),
    {
        FeedItem {
            title: self.title.clone(),
            author: self.author.clone(),
            description: self.description.clone(),
            link: self.link.clone(),
            guid: self.guid.clone(),
            source: self.source.clone(),
            pub_date: self.pub_date.clone(),
            enclosure: self.enclosure.clone(),
            content: self.content.clone(),
        }
    }
}

impl Clone for TextInput {
    fn clone(&self) -> (res: Self)
        ensures
            res.deep_view() == self.deep_view(),
    {
        TextInput {
            title: self.title.clone(),
            description: self.description.clone(),
            name: self.name.clone(),
            link: self.link.clone(),
        }
    }
}

impl Clone for ChannelInfo {
    fn clone(&self) -> (res: Self)
        ensures
            res.deep_view() == self.deep_view(),
    {
        ChannelInfo {
            title: self.title.clone(),
            description: self.description.clone(),
            language: self.language.clone(),
            generator: self.generator.clone(),
            ttl: self.ttl.clone(),
            docs: self.docs.clone(),
            text_input: self.text_input.clone(),
            category: self.category.clone(),
            pub_date: self.pub_date.clone(),
            last_build_date: self.last_build_date.clone(),
        }
    }
}

impl Clone for Channel {
    fn clone(&self) -> (res: Self)
        ensures
            res.deep_view() == self.deep_view(),
    {
        let items: Vec<FeedItem> = self.items.clone();
        assert(items.deep_view() =~= self.items.deep_view());
        Channel { info: self.info.clone(), items }
    }
}

/// An item of the `rss` crate.
#[verifier::external_type_specification]
#[verifier::external_body]
pub struct ExRssItem(rss::Item);

/// The item that `rss::ItemBuilder::build` makes of what an item holds.
pub uninterp spec fn rss_item(item: FeedItemView) -> rss::Item;

/// The text that a `rss::Channel` has, made by `rss::ChannelBuilder::build` of what a channel
/// says of itself and of its items.
pub uninterp spec fn rss_text(info: ChannelInfoView, items: Seq<rss::Item>) -> Seq<char>;

/// Calls `rss::ItemBuilder::build`. Claimed: the item depends on nothing but what is set in
/// it.
#[verifier::external_body]
fn build_item(item: FeedItem) -> (res: rss::Item)
    ensures
        res == rss_item(item.deep_view()),
{
    let guid = item.guid.map(|g| rss::Guid { value: g.value, permalink: g.permalink });
    let source = item.source.map(|s| rss::Source { url: s.url, title: s.title });
    let enclosure = item.enclosure.map(
        |e| rss::Enclosure { url: e.url, length: e.length, mime_type: e.mime_type },
    );
    rss::ItemBuilder::default().title(item.title).author(item.author)
        .description(item.description).link(item.link).guid(guid).source(source)
        .pub_date(item.pub_date).enclosure(enclosure).content(item.content).build()
}

/// Calls `rss::ChannelBuilder::build` and `to_string` on the channel. Claimed: the text
/// depends on nothing but what is set in the channel.
#[verifier::external_body]
fn write_channel(info: ChannelInfo, items: Vec<rss::Item>) -> (res: String)
    ensures
        res@ == rss_text(info.deep_view(), items@),
{
    let t = info.text_input;
    let text_input = rss::TextInput {
        title: t.title, description: t.description, name: t.name, link: t.link,
    };
    rss::ChannelBuilder::default().title(info.title).description(info.description)
        .language(info.language).generator(info.generator).ttl(info.ttl).docs(info.docs)
        .text_input(text_input).categories(vec![rss::Category::from(info.category)])
        .items(items).pub_date(info.pub_date).last_build_date(info.last_build_date)
        .build().to_string()
}

/// The RSS document of a channel.
pub open spec fn document_of(channel: ChannelView) -> Seq<char> {
    rss_text(channel.info, channel.items.map_values(|item: FeedItemView| rss_item(item)))
}

/// The RSS document of a channel.
pub fn render_channel(channel: Channel) -> (res: String)
    ensures
        res@ == document_of(channel.deep_view()),
{
    let ghost views = channel.items.deep_view();
    let ghost all = channel.items@;
    let mut items: Vec<rss::Item> = Vec::new();
    for item in it: channel.items
        invariant
            it.seq() == all,
            views == channel.items.deep_view(),
            all == channel.items@,
            items@ == views.take(it.index()).map_values(|item: FeedItemView| rss_item(item)),
    {
        let ghost before = items@;
        items.push(build_item(item));
        assert(items@ =~= before.push(rss_item(views[it.index()])));
        assert(items@ =~= views.take(it.index() + 1).map_values(|item: FeedItemView| rss_item(item)));
    }
    assert(views.take(views.len() as int) =~= views);
    write_channel(channel.info, items)
}

/// What a feed without a title is about.
pub open spec fn subject(authors: nat, journals: nat) -> Seq<char> {
    if journals == 0 {
        decimal(authors) + " author(s)"@
    } else if authors == 0 {
        decimal(journals) + " journal(s)"@
    } else {
        decimal(authors) + " author(s) and "@ + decimal(journals) + " journal(s)"@
    }
}

/// The title and the description of a feed's channel.
pub open spec fn metadata_of(request: FeedRequestView) -> (Seq<char>, Seq<char>) {
    match request.title {
        Some(title) => (title, title + ". Recent publications parsed from OpenAlex."@),
        None => {
            let about = subject(request.author_ids.len(), request.source_ids.len());
            (
                "Recent publications ("@ + about + ")"@,
                "An RSS feed of recent publications for "@ + about + ", parsed from OpenAlex."@,
            )
        },
    }
}

/// What a feed without a title is about.
fn subject_text(authors: usize, journals: usize) -> (res: String)
    ensures
        res@ == subject(authors as nat, journals as nat),
{
    if journals == 0 {
        let mut text: String = decimal_text(authors as u64);
        text.append(" author(s)");
        text
    } else if authors == 0 {
        let mut text: String = decimal_text(journals as u64);
        text.append(" journal(s)");
        text
    } else {
        let mut text: String = decimal_text(authors as u64);
        text.append(" author(s) and ");
        text.append(decimal_text(journals as u64).as_str());
        text.append(" journal(s)");
        text
    }
}

/// The title and the description of a feed's channel.
pub fn channel_metadata(request: &FeedRequest) -> (res: (String, String))
    ensures
        res.deep_view() == metadata_of(request.deep_view()),
{
    if let Some(title) = &request.title {
        let mut description: String = title.clone();
        description.append(". Recent publications parsed from OpenAlex.");
        return (title.clone(), description);
    }
    assert(request.author_ids.deep_view().len() == request.author_ids@.len());
    assert(request.source_ids.deep_view().len() == request.source_ids@.len());
    let about: String = subject_text(request.author_ids.len(), request.source_ids.len());
    let mut title: String = "Recent publications (".to_string();
    title.append(about.as_str());
    title.append(")");
    let mut description: String = "An RSS feed of recent publications for ".to_string();
    description.append(about.as_str());
    description.append(", parsed from OpenAlex.");
    (title, description)
}

/// Where a work appeared and how often it is cited, as far as either is known. That it is not
/// cited is not said.
pub open spec fn description_of(work: Work) -> Option<Seq<char>> {
    let cites = match work.cited_by_count {
        Some(count) => count as nat,
        None => 0,
    };
    match work.venue {
        Some(venue) => if cites > 0 {
            Some(venue@ + " — cited "@ + decimal(cites) + " times"@)
        } else {
            Some(venue@)
        },
        None => if cites > 0 {
            Some("Cited "@ + decimal(cites) + " times"@)
        } else {
            None
        },
    }
}

/// Whether the date of a work, where it is one, can be written as a timestamp.
pub open spec fn work_stampable(work: Work) -> bool {
    work.publication_date matches Some(date) ==> stampable(date@)
}

/// The item that stands for a work.
pub open spec fn item_of(work: Work) -> FeedItemView {
    FeedItemView {
        title: Some(work.best_title@),
        author: work.authors_joined.deep_view(),
        description: description_of(work),
        link: work.best_link.deep_view(),
        guid: match work.best_link {
            Some(link) => Some(GuidView { value: link@, permalink: true }),
            None => None,
        },
        source: match work.venue {
            Some(venue) => Some(
                SourceView {
                    url: match work.best_link {
                        Some(link) => link@,
                        None => "https://openalex.org"@,
                    },
                    title: Some(venue@),
                },
            ),
            None => None,
        },
        pub_date: match work.publication_date {
            Some(date) => date_stamp(date@),
            None => None,
        },
        enclosure: match work.oa_pdf_url {
            Some(url) => Some(
                EnclosureView { url: url@, length: ""@, mime_type: "application/pdf"@ },
            ),
            None => None,
        },
        content: work.abstract_text.deep_view(),
    }
}

/// Where a work appeared and how often it is cited.
fn describe(work: &Work) -> (res: Option<String>)
    ensures
        res.deep_view() == description_of(*work),
{
    let cites: u64 = match work.cited_by_count {
        Some(count) => count,
        None => 0,
    };
    match &work.venue {
        Some(venue) => {
            let mut text: String = venue.clone();
            if cites > 0 {
                text.append(" — cited ");
                text.append(decimal_text(cites).as_str());
                text.append(" times");
            }
            Some(text)
        },
        None => {
            if cites > 0 {
                let mut text: String = "Cited ".to_string();
                text.append(decimal_text(cites).as_str());
                text.append(" times");
                Some(text)
            } else {
                None
            }
        },
    }
}

/// The item that stands for a work.
pub fn work_to_item(work: &Work) -> (res: FeedItem)
    requires
        work_stampable(*work),
    ensures
        res.deep_view() == item_of(*work),
{
    let guid: Option<Guid> = match &work.best_link {
        Some(link) => Some(Guid { value: link.clone(), permalink: true }),
        None => None,
    };
    let source: Option<Source> = match &work.venue {
        Some(venue) => {
            let url: String = match &work.best_link {
                Some(link) => link.clone(),
                None => "https://openalex.org".to_string(),
            };
            Some(Source { url, title: Some(venue.clone()) })
        },
        None => None,
    };
    let pub_date: Option<String> = match &work.publication_date {
        Some(date) => to_rfc2822(date.as_str()),
        None => None,
    };
    let enclosure: Option<Enclosure> = match &work.oa_pdf_url {
        Some(url) => Some(
            Enclosure {
                url: url.clone(),
                length: "".to_string(),
                mime_type: "application/pdf".to_string(),
            },
        ),
        None => None,
    };
    FeedItem {
        title: Some(work.best_title.clone()),
        author: work.authors_joined.clone(),
        description: describe(work),
        link: work.best_link.clone(),
        guid,
        source,
        pub_date,
        enclosure,
        content: work.abstract_text.clone(),
    }
}

/// Whether all dates of `works` can be written as timestamps.
pub open spec fn all_stampable(works: Seq<Work>) -> bool {
    forall|i: int| 0 <= i < works.len() ==> work_stampable(#[trigger] works[i])
}

/// The items that stand for `works`, in order.
pub open spec fn items_of(works: Seq<Work>) -> Seq<FeedItemView> {
    works.map_values(|work: Work| item_of(work))
}

/// Whether the date of a work, where it is one, can be written as a timestamp.
pub fn has_stampable_date(work: &Work) -> (res: bool)
    ensures
        res == work_stampable(*work),
{
    match &work.publication_date {
        Some(date) => is_stampable(date.as_str()),
        None => true,
    }
}

/// The items that stand for `works`, in order; none where the date of one of them cannot be
/// written as a timestamp.
pub fn works_to_items(works: &Vec<Work>) -> (res: Option<Vec<FeedItem>>)
    ensures
        res is Some <==> all_stampable(works@),
        res matches Some(items) ==> items.deep_view() == items_of(works@),
{
    let mut items: Vec<FeedItem> = Vec::new();
    let mut i: usize = 0;
    assert(items.deep_view() =~= items_of(works@.take(0)));
    while i < works.len()
        invariant
            i <= works@.len(),
            forall|j: int| 0 <= j < i ==> work_stampable(#[trigger] works@[j]),
            items.deep_view() == items_of(works@.take(i as int)),
        decreases works@.len() - i,
    {
        if !has_stampable_date(&works[i]) {
            assert(!work_stampable(works@[i as int]));
            return None;
        }
        let ghost before = items.deep_view();
        items.push(work_to_item(&works[i]));
        assert(items.deep_view() =~= before.push(item_of(works@[i as int])));
        assert(items.deep_view() =~= items_of(works@.take(i + 1)));
        i = i + 1;
    }
    assert(works@.take(i as int) =~= works@);
    Some(items)
}

/// The channel of a feed, built at the time `now`.
pub open spec fn channel_of(request: FeedRequestView, works: Seq<Work>, now: Seq<char>) -> ChannelView {
    ChannelView {
        info: ChannelInfoView {
            title: metadata_of(request).0,
            description: metadata_of(request).1,
            language: "en-US"@,
            generator: "google-scholar-rss-feed"@,
            ttl: "60"@,
            docs: "https://cyber.harvard.edu/rss/rss.html"@,
            text_input: TextInputView {
                title: "OpenAlex"@,
                description: "Search OpenAlex"@,
                name: "q"@,
                link: "https://openalex.org/works"@,
            },
            category: "Scientific Research"@,
            pub_date: now,
            last_build_date: now,
        },
        items: items_of(works),
    }
}

/// The channel of a feed, built at the time `now`; none where the date of a work cannot be
/// written as a timestamp.
pub fn build_channel_at(request: &FeedRequest, works: &Vec<Work>, now: String) -> (res: Option<
    Channel,
>)
    ensures
        res is Some <==> all_stampable(works@),
        res matches Some(channel) ==> channel.deep_view() == channel_of(
            request.deep_view(),
            works@,
            now@,
        ),
{
    let (title, description) = channel_metadata(request);
    let items: Vec<FeedItem> = works_to_items(works)?;
    Some(
        Channel {
            info: ChannelInfo {
                title,
                description,
                language: "en-US".to_string(),
                generator: "google-scholar-rss-feed".to_string(),
                ttl: "60".to_string(),
                docs: "https://cyber.harvard.edu/rss/rss.html".to_string(),
                text_input: TextInput {
                    title: "OpenAlex".to_string(),
                    description: "Search OpenAlex".to_string(),
                    name: "q".to_string(),
                    link: "https://openalex.org/works".to_string(),
                },
                category: "Scientific Research".to_string(),
                pub_date: now.clone(),
                last_build_date: now,
            },
            items,
        },
    )
}

/// The channel of a feed, built now; none where the date of a work cannot be written as a
/// timestamp.
pub fn build_channel(request: &FeedRequest, works: &Vec<Work>) -> (res: Option<Channel>)
    ensures
        res is Some <==> all_stampable(works@),
        res matches Some(channel) ==> exists|now: Seq<char>|
            time_of_the_clock(now) && present_stamp(now) && channel.deep_view() == #[trigger] channel_of(
                request.deep_view(),
                works@,
                now,
            ),
{
    build_channel_at(request, works, now())
}

/// The document of a channel holds its items one for one, in their order: whatever list of items
/// has at each place the item of the channel there, the document is that of the list.
pub proof fn documents_hold_the_items_in_order(channel: ChannelView, items: Seq<rss::Item>)
    requires
        items.len() == channel.items.len(),
        forall|i: int| 0 <= i < items.len() ==> #[trigger] items[i] == rss_item(channel.items[i]),
    ensures
        document_of(channel) == rss_text(channel.info, items),
{
    assert(items =~= channel.items.map_values(|item: FeedItemView| rss_item(item)));
}

/// The channel of a feed has an item for each work, in the order of the works.
pub proof fn channels_hold_an_item_for_each_work(
    request: FeedRequestView,
    works: Seq<Work>,
    now: Seq<char>,
    i: int,
)
    requires
        0 <= i < works.len(),
    ensures
        channel_of(request, works, now).items.len() == works.len(),
        channel_of(request, works, now).items[i] == item_of(works[i]),
{
}

/// An item says of a work what is known of it: its title, authors, abstract and link; the link is
/// also its permanent identifier; the journal is its source, under the link or else under the
/// address of OpenAlex; its open-access PDF is enclosed; and its date is the timestamp of the date
/// of the work.
pub proof fn items_say_what_is_known_of_a_work(work: Work)
    ensures
        item_of(work).title == Some(work.best_title@),
        item_of(work).author is Some <==> work.authors_joined is Some,
        work.authors_joined matches Some(names) ==> item_of(work).author == Some(names@),
        item_of(work).content is Some <==> work.abstract_text is Some,
        work.abstract_text matches Some(text) ==> item_of(work).content == Some(text@),
        item_of(work).link is Some <==> work.best_link is Some,
        item_of(work).guid is Some <==> work.best_link is Some,
        work.best_link matches Some(link) ==> item_of(work).link == Some(link@) && (item_of(
            work,
        ).guid matches Some(guid) && guid.value == link@ && guid.permalink),
        item_of(work).source is Some <==> work.venue is Some,
        work.venue matches Some(venue) ==> (item_of(work).source matches Some(source)
            && source.title == Some(venue@) && match work.best_link {
            Some(link) => source.url == link@,
            None => source.url == "https://openalex.org"@,
        }),
        item_of(work).enclosure is Some <==> work.oa_pdf_url is Some,
        work.oa_pdf_url matches Some(url) ==> (item_of(work).enclosure matches Some(file)
            && file.url == url@ && file.length == ""@ && file.mime_type == "application/pdf"@),
        work.publication_date is None ==> item_of(work).pub_date is None,
        work.publication_date matches Some(date) ==> item_of(work).pub_date == date_stamp(date@),
{
}

/// The description of an item names the journal, where there is one, and how often the work is
/// cited, where it is at all.
pub proof fn descriptions_name_journal_and_citations(work: Work)
    ensures
        match (work.venue, work.cited_by_count) {
            (Some(venue), Some(cites)) => if cites == 0 {
                item_of(work).description == Some(venue@)
            } else {
                item_of(work).description == Some(
                    venue@ + " — cited "@ + decimal(cites as nat) + " times"@,
                )
            },
            (Some(venue), None) => item_of(work).description == Some(venue@),
            (None, Some(cites)) => if cites == 0 {
                item_of(work).description is None
            } else {
                item_of(work).description == Some("Cited "@ + decimal(cites as nat) + " times"@)
            },
            (None, None) => item_of(work).description is None,
        },
{
}

/// A channel is titled as the feed is, or else after the number of its authors and journals.
pub proof fn channels_are_titled_after_their_feed(
    request: FeedRequestView,
    works: Seq<Work>,
    now: Seq<char>,
)
    ensures
        ({
            let info = channel_of(request, works, now).info;
            let authors = decimal(request.author_ids.len()) + " author(s)"@;
            let journals = decimal(request.source_ids.len()) + " journal(s)"@;
            let titled = |about: Seq<char>|
                info.title == "Recent publications ("@ + about + ")"@ && info.description
                    == "An RSS feed of recent publications for "@ + about
                    + ", parsed from OpenAlex."@;
            match request.title {
                Some(title) => info.title == title && info.description == title
                    + ". Recent publications parsed from OpenAlex."@,
                None => {
                    &&& request.source_ids.len() == 0 ==> titled(authors)
                    &&& request.author_ids.len() == 0 && request.source_ids.len() > 0 ==> titled(
                        journals,
                    )
                    &&& request.author_ids.len() > 0 && request.source_ids.len() > 0 ==> titled(
                        decimal(request.author_ids.len()) + " author(s) and "@ + decimal(
                            request.source_ids.len(),
                        ) + " journal(s)"@,
                    )
                },
            }
        }),
{
}

/// What every channel says of itself, whatever the feed.
pub proof fn channels_describe_themselves(
    request: FeedRequestView,
    works: Seq<Work>,
    now: Seq<char>,
)
    ensures
        ({
            let info = channel_of(request, works, now).info;
            &&& info.language == "en-US"@
            &&& info.generator == "google-scholar-rss-feed"@
            &&& info.ttl == "60"@
            &&& info.docs == "https://cyber.harvard.edu/rss/rss.html"@
            &&& info.category == "Scientific Research"@
            &&& info.text_input.title == "OpenAlex"@
            &&& info.text_input.description == "Search OpenAlex"@
            &&& info.text_input.name == "q"@
            &&& info.text_input.link == "https://openalex.org/works"@
            &&& info.pub_date == now
            &&& info.last_build_date == now
        }),
{
}

/// A channel can be built exactly where each date of a work can be written as a timestamp.
pub proof fn channels_need_dates_that_can_be_written(works: Seq<Work>)
    ensures
        all_stampable(works) <==> forall|i: int|
            0 <= i < works.len() ==> ((#[trigger] works[i]).publication_date matches Some(date)
                ==> stampable(date@)),
{
    if forall|i: int|
        0 <= i < works.len() ==> ((#[trigger] works[i]).publication_date matches Some(date)
            ==> stampable(date@)) {
        assert forall|i: int| 0 <= i < works.len() implies work_stampable(#[trigger] works[i]) by {
            assert(works[i].publication_date matches Some(date) ==> stampable(date@));
        }
    }
    if all_stampable(works) {
        assert forall|i: int|
            0 <= i < works.len() implies ((#[trigger] works[i]).publication_date matches Some(date)
            ==> stampable(date@)) by {
            assert(work_stampable(works[i]));
        }
    }
}

/// The view of a channel holds all that the channel holds.
pub proof fn views_of_channels_are_whole(channel: Channel, item: FeedItem)
    ensures
        ({
            let info = channel.deep_view().info;
            &&& channel.deep_view().items == channel.items.deep_view()
            &&& info.title == channel.info.title@
            &&& info.description == channel.info.description@
            &&& info.language == channel.info.language@
            &&& info.generator == channel.info.generator@
            &&& info.ttl == channel.info.ttl@
            &&& info.docs == channel.info.docs@
            &&& info.text_input.title == channel.info.text_input.title@
            &&& info.text_input.description == channel.info.text_input.description@
            &&& info.text_input.name == channel.info.text_input.name@
            &&& info.text_input.link == channel.info.text_input.link@
            &&& info.category == channel.info.category@
            &&& info.pub_date == channel.info.pub_date@
            &&& info.last_build_date == channel.info.last_build_date@
        }),
        item.deep_view().title == item.title.deep_view(),
        item.deep_view().author == item.author.deep_view(),
        item.deep_view().description == item.description.deep_view(),
        item.deep_view().link == item.link.deep_view(),
        item.deep_view().pub_date == item.pub_date.deep_view(),
        item.deep_view().content == item.content.deep_view(),
        item.deep_view().guid is Some <==> item.guid is Some,
        item.guid matches Some(guid) ==> item.deep_view().guid->0.value == guid.value@
            && item.deep_view().guid->0.permalink == guid.permalink,
        item.deep_view().source is Some <==> item.source is Some,
        item.source matches Some(source) ==> item.deep_view().source->0.url == source.url@
            && item.deep_view().source->0.title == source.title.deep_view(),
        item.deep_view().enclosure is Some <==> item.enclosure is Some,
        item.enclosure matches Some(file) ==> item.deep_view().enclosure->0.url == file.url@
            && item.deep_view().enclosure->0.length == file.length@
            && item.deep_view().enclosure->0.mime_type == file.mime_type@,
{
}

} // verus!
