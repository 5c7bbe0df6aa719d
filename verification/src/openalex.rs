//! Records of the OpenAlex catalog, as far as a feed reads them.

use crate::text::{join, joined, last_segment, segment_after_slash, trim, trimmed};
use vstd::prelude::*;

verus! {

/// The address of the OpenAlex service.
pub const API_BASE: &'static str = "https://api.openalex.org";

/// An author.
#[derive(Debug, Default, PartialEq, Eq)]
pub struct Author {
    pub id: Option<String>,
    pub display_name: Option<String>,
}

/// The authors that a search found, best match first.
#[derive(Debug, Default, PartialEq, Eq)]
pub struct AuthorsResponse {
    pub results: Vec<Author>,
}

/// A source, that is a journal.
#[derive(Debug, Default, PartialEq, Eq)]
pub struct SourceRecord {
    pub id: Option<String>,
    pub display_name: Option<String>,
}

/// The sources that a search found, best match first.
#[derive(Debug, Default, PartialEq, Eq)]
pub struct SourcesResponse {
    pub results: Vec<SourceRecord>,
}

/// A publication.
#[derive(Debug, Default, PartialEq, Eq)]
pub struct Work {
    pub id: Option<String>,
    /// When it was published (YYYY-MM-DD).
    pub publication_date: Option<String>,
    pub cited_by_count: Option<u64>,
    /// Where a reader finds it.
    pub best_link: Option<String>,
    /// The name of the journal it appeared in.
    pub venue: Option<String>,
    pub best_title: String,
    /// The names of its authors, as one text.
    pub authors_joined: Option<String>,
    /// Where its open-access PDF lies.
    pub oa_pdf_url: Option<String>,
    pub abstract_text: Option<String>,
}

/// The works that a query found.
#[derive(Debug, Default, PartialEq, Eq)]
pub struct WorksResponse {
    pub results: Vec<Work>,
}

/// Where a reader finds a work: under its DOI, else on its landing page, else under its OpenAlex
/// id.
pub fn best_link(doi: Option<String>, landing_page: Option<String>, id: &Option<String>) -> (res:
    Option<String>)
    ensures
        res.deep_view() == match (doi, landing_page) {
            (Some(link), _) => Some(link@),
            (None, Some(link)) => Some(link@),
            (None, None) => id.deep_view(),
        },
{
    match (doi, landing_page) {
        (Some(link), _) => Some(link),
        (None, Some(link)) => Some(link),
        (None, None) => id.clone(),
    }
}

/// What a work is called that has no title.
pub const UNTITLED: &'static str = "Untitled";

/// The title of a work.
pub fn best_title(display_name: Option<String>) -> (res: String)
    ensures
        res@ == match display_name {
            Some(title) => title@,
            None => UNTITLED@,
        },
{
    match display_name {
        Some(title) => title,
        None => UNTITLED.to_string(),
    }
}

/// The names of a work's authors, as one text; none where it has no authors.
pub fn authors_joined(names: &Vec<String>) -> (res: Option<String>)
    ensures
        res.deep_view() == if names@.len() == 0 {
            None
        } else {
            Some(joined(names.deep_view(), ", "@))
        },
{
    if names.len() == 0 {
        None
    } else {
        Some(join(names.as_slice(), ", "))
    }
}

/// What an identifier comes down to: its last path segment, without the white space around
/// the identifier. `https://openalex.org/A5005023517` and `A5005023517` are both
/// `A5005023517`.
pub open spec fn bare_id(id: Seq<char>) -> Seq<char> {
    last_segment(trimmed(id))
}

/// The bare form of an identifier that may be written as a URL.
pub fn normalize_id(id: &str) -> (res: String)
    ensures
        res@ == bare_id(id@),
{
    segment_after_slash(trim(id)).to_string()
}

/// The bare id of a record that has one.
pub open spec fn id_of(id: Option<String>) -> Option<Seq<char>> {
    match id {
        Some(text) => Some(bare_id(text@)),
        None => None,
    }
}

/// The bare id of a record that has one, and its name; the id stands in for a missing name.
pub open spec fn id_and_name_of(id: Option<String>, display_name: Option<String>) -> Option<
    (Seq<char>, Seq<char>),
> {
    match (id, display_name) {
        (Some(text), Some(name)) => Some((bare_id(text@), name@)),
        (Some(text), None) => Some((bare_id(text@), bare_id(text@))),
        (None, _) => None,
    }
}

/// Resolve an ORCID to a bare OpenAlex author id, given the record that OpenAlex answered
/// with, if it did.
pub fn resolve_orcid(reply: Option<Author>) -> (res: Option<String>)
    ensures
        res.deep_view() == match reply {
            Some(author) => id_of(author.id),
            None => None,
        },
{
    let author = reply?;
    let id: String = author.id?;
    Some(normalize_id(id.as_str()))
}

/// Resolve an ISSN to a bare OpenAlex source id, given the record that OpenAlex answered
/// with, if it did.
pub fn resolve_issn(reply: Option<SourceRecord>) -> (res: Option<String>)
    ensures
        res.deep_view() == match reply {
            Some(source) => id_of(source.id),
            None => None,
        },
{
    let source = reply?;
    let id: String = source.id?;
    Some(normalize_id(id.as_str()))
}

/// The bare id and the name of a record.
fn id_and_name(id: &Option<String>, display_name: &Option<String>) -> (res: Option<
    (String, String),
>)
    ensures
        res.deep_view() == id_and_name_of(*id, *display_name),
{
    match id {
        None => None,
        Some(text) => {
            let bare: String = normalize_id(text.as_str());
            let name: String = match display_name {
                Some(name) => name.clone(),
                None => bare.clone(),
            };
            Some((bare, name))
        },
    }
}

/// Resolve an author display name (best match) to (id, display_name), given the matches that
/// OpenAlex answered with, if it did.
pub fn resolve_author_name(reply: Option<AuthorsResponse>) -> (res: Option<(String, String)>)
    ensures
        res.deep_view() == match reply {
            Some(found) => if found.results@.len() > 0 {
                id_and_name_of(found.results@[0].id, found.results@[0].display_name)
            } else {
                None
            },
            None => None,
        },
{
    let found = reply?;
    if found.results.len() == 0 {
        return None;
    }
    id_and_name(&found.results[0].id, &found.results[0].display_name)
}

/// Resolve a journal display name (best match) to (id, display_name), given the matches that
/// OpenAlex answered with, if it did.
pub fn resolve_journal_name(reply: Option<SourcesResponse>) -> (res: Option<(String, String)>)
    ensures
        res.deep_view() == match reply {
            Some(found) => if found.results@.len() > 0 {
                id_and_name_of(found.results@[0].id, found.results@[0].display_name)
            } else {
                None
            },
            None => None,
        },
{
    let found = reply?;
    if found.results.len() == 0 {
        return None;
    }
    id_and_name(&found.results[0].id, &found.results[0].display_name)
}

/// A record resolves to its id, in its bare form, and to its name, for which the id stands in.
/// Without an id it resolves to nothing.
pub proof fn records_resolve_to_bare_ids(id: Option<String>, name: Option<String>)
    ensures
        id is None ==> id_of(id) is None && id_and_name_of(id, name) is None,
        id matches Some(text) ==> {
            let bare = last_segment(trimmed(text@));
            &&& id_of(id) == Some(bare)
            &&& name matches Some(called) ==> id_and_name_of(id, name) == Some((bare, called@))
            &&& name is None ==> id_and_name_of(id, name) == Some((bare, bare))
        },
{
}

} // verus!
