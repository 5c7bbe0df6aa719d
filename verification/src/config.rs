//! The feeds configuration.

use crate::text::copied;
use vstd::hash_map::StringHashMap;
use vstd::prelude::*;

verus! {

/// Top-level feeds configuration.
pub struct Config {
    /// Name of the feed served at bare `/`.
    pub default_feed: Option<String>,
    pub settings: Settings,
    /// The feeds by their names.
    pub feeds: StringHashMap<FeedConfig>,
}

#[derive(Debug, PartialEq, Eq)]
pub struct Settings {
    /// Contact used for OpenAlex's polite pool (`mailto`).
    pub mailto: Option<String>,
    /// Default recency window in days when a feed omits `from`.
    pub from_days: Option<u32>,
}

/// A single named feed definition.
#[derive(Debug, PartialEq, Eq)]
pub struct FeedConfig {
    /// Optional RSS channel title override.
    pub title: Option<String>,
    pub author_ids: Vec<String>,
    pub orcids: Vec<String>,
    pub authors: Vec<String>,
    pub source_ids: Vec<String>,
    pub issns: Vec<String>,
    pub journals: Vec<String>,
    pub topics: Vec<String>,
    /// Explicit earliest publication date (YYYY-MM-DD); overrides `from_days`.
    pub from: Option<String>,
}

/// What a [`Config`] holds.
pub struct ConfigView {
    pub default_feed: Option<Seq<char>>,
    pub settings: SettingsView,
    pub feeds: Map<Seq<char>, FeedConfigView>,
}

/// What a [`Settings`] holds.
pub struct SettingsView {
    pub mailto: Option<Seq<char>>,
    pub from_days: Option<u32>,
}

/// What a [`FeedConfig`] holds.
pub struct FeedConfigView {
    pub title: Option<Seq<char>>,
    pub author_ids: Seq<Seq<char>>,
    pub orcids: Seq<Seq<char>>,
    pub authors: Seq<Seq<char>>,
    pub source_ids: Seq<Seq<char>>,
    pub issns: Seq<Seq<char>>,
    pub journals: Seq<Seq<char>>,
    pub topics: Seq<Seq<char>>,
    pub from: Option<Seq<char>>,
}

impl DeepView for Config {
    type V = ConfigView;

    open spec fn deep_view(&self) -> ConfigView {
        ConfigView {
            default_feed: self.default_feed.deep_view(),
            settings: self.settings.deep_view(),
            feeds: self.feeds@.map_values(|feed: FeedConfig| feed.deep_view()),
        }
    }
}

impl DeepView for Settings {
    type V = SettingsView;

    open spec fn deep_view(&self) -> SettingsView {
        SettingsView { mailto: self.mailto.deep_view(), from_days: self.from_days }
    }
}

impl DeepView for FeedConfig {
    type V = FeedConfigView;

    open spec fn deep_view(&self) -> FeedConfigView {
        FeedConfigView {
            title: self.title.deep_view(),
            author_ids: self.author_ids.deep_view(),
            orcids: self.orcids.deep_view(),
            authors: self.authors.deep_view(),
            source_ids: self.source_ids.deep_view(),
            issns: self.issns.deep_view(),
            journals: self.journals.deep_view(),
            topics: self.topics.deep_view(),
            from: self.from.deep_view(),
        }
    }
}

/// A feed that names nothing.
pub open spec fn empty_feed() -> FeedConfigView {
    FeedConfigView {
        title: None,
        author_ids: Seq::empty(),
        orcids: Seq::empty(),
        authors: Seq::empty(),
        source_ids: Seq::empty(),
        issns: Seq::empty(),
        journals: Seq::empty(),
        topics: Seq::empty(),
        from: None,
    }
}

/// A configuration without settings and without feeds.
pub open spec fn empty_config() -> ConfigView {
    ConfigView {
        default_feed: None,
        settings: SettingsView { mailto: None, from_days: None },
        feeds: Map::empty(),
    }
}

impl Default for FeedConfig {
    fn default() -> (res: Self)
        ensures
            res.deep_view() == empty_feed(),
    {
        let res = FeedConfig {
            title: None,
            author_ids: Vec::new(),
            orcids: Vec::new(),
            authors: Vec::new(),
            source_ids: Vec::new(),
            issns: Vec::new(),
            journals: Vec::new(),
            topics: Vec::new(),
            from: None,
        };
        let ghost none = Seq::<Seq<char>>::empty();
        assert(res.author_ids.deep_view() =~= none);
        assert(res.orcids.deep_view() =~= none);
        assert(res.authors.deep_view() =~= none);
        assert(res.source_ids.deep_view() =~= none);
        assert(res.issns.deep_view() =~= none);
        assert(res.journals.deep_view() =~= none);
        assert(res.topics.deep_view() =~= none);
        res
    }
}

impl Clone for FeedConfig {
    fn clone(&self) -> (res: Self)
        ensures
            res.deep_view() == self.deep_view(),
    {
        FeedConfig {
            title: self.title.clone(),
            author_ids: copied(&self.author_ids),
            orcids: copied(&self.orcids),
            authors: copied(&self.authors),
            source_ids: copied(&self.source_ids),
            issns: copied(&self.issns),
            journals: copied(&self.journals),
            topics: copied(&self.topics),
            from: self.from.clone(),
        }
    }
}

impl Default for Settings {
    fn default() -> (res: Self)
        ensures
            res.deep_view() == empty_config().settings,
    {
        Settings { mailto: None, from_days: None }
    }
}

impl Default for Config {
    fn default() -> (res: Self)
        ensures
            res.deep_view() == empty_config(),
    {
        let res = Config {
            default_feed: None,
            settings: Settings::default(),
            feeds: StringHashMap::new(),
        };
        assert(res.deep_view().feeds =~= empty_config().feeds);
        res
    }
}

/// What became of reading the configuration file.
pub enum ConfigFile {
    /// It could not be read.
    Missing,
    /// It was read, but is no configuration.
    Malformed,
    /// It was read and holds this configuration.
    Parsed(Config),
}

impl Config {
    /// The configuration to serve with. A missing file yields an empty config so the
    /// server still works in pure ad-hoc-param mode; so does one that cannot be parsed.
    pub fn load(file: ConfigFile) -> (res: Config)
        ensures
            match file {
                ConfigFile::Parsed(config) => res == config,
                _ => res.deep_view() == empty_config(),
            },
    {
        match file {
            ConfigFile::Parsed(config) => config,
            _ => Config::default(),
        }
    }
}

/// The contact to name to OpenAlex, if one is configured.
pub fn mailto(config: &Config) -> (res: Option<String>)
    ensures
        res.deep_view() == config.deep_view().settings.mailto,
{
    config.settings.mailto.clone()
}

/// The path of the configuration file, once it has been chosen.
pub fn config_path(chosen: Option<&String>) -> (res: &String)
    requires
        chosen is Some,
    ensures
        res@ == chosen->0@,
{
    chosen.unwrap()
}

/// An empty configuration has no feeds, no default feed, no contact and no recency window, and an
/// empty feed names nothing.
pub proof fn nothing_is_configured_in_an_empty_configuration(name: Seq<char>)
    ensures
        empty_config().default_feed is None,
        empty_config().settings.mailto is None,
        empty_config().settings.from_days is None,
        !empty_config().feeds.contains_key(name),
        empty_feed().title is None,
        empty_feed().author_ids.len() == 0,
        empty_feed().orcids.len() == 0,
        empty_feed().authors.len() == 0,
        empty_feed().source_ids.len() == 0,
        empty_feed().issns.len() == 0,
        empty_feed().journals.len() == 0,
        empty_feed().topics.len() == 0,
        empty_feed().from is None,
{
}

/// The view of a configuration holds all that the configuration holds.
pub proof fn views_of_configurations_are_whole(config: Config, feed: FeedConfig, name: Seq<char>)
    ensures
        config.deep_view().default_feed == config.default_feed.deep_view(),
        config.deep_view().settings.mailto == config.settings.mailto.deep_view(),
        config.deep_view().settings.from_days == config.settings.from_days,
        config.deep_view().feeds.contains_key(name) <==> config.feeds@.contains_key(name),
        config.feeds@.contains_key(name) ==> config.deep_view().feeds[name]
            == config.feeds@[name].deep_view(),
        feed.deep_view().title == feed.title.deep_view(),
        feed.deep_view().author_ids == feed.author_ids.deep_view(),
        feed.deep_view().orcids == feed.orcids.deep_view(),
        feed.deep_view().authors == feed.authors.deep_view(),
        feed.deep_view().source_ids == feed.source_ids.deep_view(),
        feed.deep_view().issns == feed.issns.deep_view(),
        feed.deep_view().journals == feed.journals.deep_view(),
        feed.deep_view().topics == feed.topics.deep_view(),
        feed.deep_view().from == feed.from.deep_view(),
{
}

} // verus!
