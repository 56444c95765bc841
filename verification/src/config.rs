//! The configuration of a run.
//!
//! The configuration is a TOML document with two keys: `repo`, the location
//! of the façade repository, and `repos`, a table from the name of each
//! source to the location of its repository.

use crate::document::{read_document, syntax_message, toml_fields};
use vstd::prelude::*;
use vstd::string::StringExecFns;

verus! {

/// The name of the configuration file in the working directory.
pub fn config_file() -> (name: &'static str)
    ensures
        name@ == ".gitfacade.toml"@,
{
    ".gitfacade.toml"
}

/// What a document holds under one key at its top level, as far as the
/// configuration reads it.
#[derive(Debug, PartialEq, Eq)]
pub enum Field {
    /// A string.
    Text(String),
    /// A table: its entries in the order in which the table lists them,
    /// each with its value where that is a string.
    Table(Vec<(String, Option<String>)>),
    /// Any other value.
    Other,
}

/// A field as contracts speak of it.
pub enum FieldView {
    Text(Seq<char>),
    Table(Seq<(Seq<char>, Option<Seq<char>>)>),
    Other,
}

/// The characters of a string that may be absent.
pub open spec fn text_view(text: Option<String>) -> Option<Seq<char>> {
    match text {
        Some(s) => Some(s@),
        None => None,
    }
}

/// The views of the entries of a table, in the same order.
pub open spec fn entry_views(entries: Seq<(String, Option<String>)>) -> Seq<
    (Seq<char>, Option<Seq<char>>),
> {
    entries.map_values(|e: (String, Option<String>)| (e.0@, text_view(e.1)))
}

impl View for Field {
    type V = FieldView;

    open spec fn view(&self) -> FieldView {
        match self {
            Field::Text(s) => FieldView::Text(s@),
            Field::Table(entries) => FieldView::Table(entry_views(entries@)),
            Field::Other => FieldView::Other,
        }
    }
}

/// The views of the top-level entries of a document, in the same order.
pub open spec fn field_views(fields: Seq<(String, Field)>) -> Seq<(Seq<char>, FieldView)> {
    fields.map_values(|f: (String, Field)| (f.0@, f.1@))
}

/// A source repository: the name it is configured under, and its location.
#[derive(Debug, PartialEq, Eq)]
pub struct Source {
    pub name: String,
    pub location: String,
}

/// A source as contracts speak of it.
pub struct SourceView {
    pub name: Seq<char>,
    pub location: Seq<char>,
}

impl View for Source {
    type V = SourceView;

    open spec fn view(&self) -> SourceView {
        SourceView { name: self.name@, location: self.location@ }
    }
}

/// The configuration of a run: the location of the façade repository and
/// the sources in the order in which they are replicated.
#[derive(Debug, PartialEq, Eq)]
pub struct Config {
    pub repo: String,
    pub sources: Vec<Source>,
}

/// A configuration as contracts speak of it.
pub struct ConfigView {
    pub repo: Seq<char>,
    pub sources: Seq<SourceView>,
}

impl View for Config {
    type V = ConfigView;

    open spec fn view(&self) -> ConfigView {
        ConfigView { repo: self.repo@, sources: self.sources@.map_values(|s: Source| s@) }
    }
}

/// Why a document is no configuration.
#[derive(Debug, PartialEq, Eq)]
pub enum ConfigError {
    /// The document is not well-formed TOML.
    Syntax { message: String },
    /// The key `repo` is missing.
    MissingRepo,
    /// The value of `repo` is no string.
    RepoNotText,
    /// The key `repos` is missing.
    MissingRepos,
    /// The value of `repos` is no table.
    ReposNotTable,
    /// The location of the source of this name is no string.
    SourceNotText { name: String },
}

/// A configuration error as contracts speak of it.
pub enum ConfigErrorView {
    Syntax { message: Seq<char> },
    MissingRepo,
    RepoNotText,
    MissingRepos,
    ReposNotTable,
    SourceNotText { name: Seq<char> },
}

impl View for ConfigError {
    type V = ConfigErrorView;

    open spec fn view(&self) -> ConfigErrorView {
        match self {
            ConfigError::Syntax { message } => ConfigErrorView::Syntax { message: message@ },
            ConfigError::MissingRepo => ConfigErrorView::MissingRepo,
            ConfigError::RepoNotText => ConfigErrorView::RepoNotText,
            ConfigError::MissingRepos => ConfigErrorView::MissingRepos,
            ConfigError::ReposNotTable => ConfigErrorView::ReposNotTable,
            ConfigError::SourceNotText { name } => ConfigErrorView::SourceNotText { name: name@ },
        }
    }
}

/// The view of the outcome of reading a configuration.
pub open spec fn outcome_view(outcome: Result<Config, ConfigError>) -> Result<
    ConfigView,
    ConfigErrorView,
> {
    match outcome {
        Ok(config) => Ok(config@),
        Err(error) => Err(error@),
    }
}

/// The entry at index `i` is the first one under `key`.
pub open spec fn is_first_under(fields: Seq<(Seq<char>, FieldView)>, key: Seq<char>, i: int) -> bool {
    &&& 0 <= i < fields.len()
    &&& fields[i].0 == key
    &&& forall|j: int| 0 <= j < i ==> (#[trigger] fields[j]).0 != key
}

/// What a document holds under `key`: the value of the first entry with
/// that key.
pub open spec fn field_at(fields: Seq<(Seq<char>, FieldView)>, key: Seq<char>) -> Option<FieldView> {
    if exists|i: int| is_first_under(fields, key, i) {
        Some(fields[choose|i: int| is_first_under(fields, key, i)].1)
    } else {
        None
    }
}

/// The entry at index `i` is the first one whose value is no string.
pub open spec fn is_first_without_text(entries: Seq<(Seq<char>, Option<Seq<char>>)>, i: int) -> bool {
    &&& 0 <= i < entries.len()
    &&& entries[i].1 is None
    &&& forall|j: int| 0 <= j < i ==> (#[trigger] entries[j]).1 is Some
}

/// The sources that a table of locations lists, in the order of the table,
/// or the first entry that is no location.
pub open spec fn sources_of(entries: Seq<(Seq<char>, Option<Seq<char>>)>) -> Result<
    Seq<SourceView>,
    ConfigErrorView,
> {
    if exists|i: int| is_first_without_text(entries, i) {
        Err(
            ConfigErrorView::SourceNotText {
                name: entries[choose|i: int| is_first_without_text(entries, i)].0,
            },
        )
    } else {
        Ok(
            entries.map_values(
                |e: (Seq<char>, Option<Seq<char>>)| SourceView { name: e.0, location: e.1->0 },
            ),
        )
    }
}

/// The configuration that the top-level entries of a document denote.
pub open spec fn config_of(fields: Seq<(Seq<char>, FieldView)>) -> Result<
    ConfigView,
    ConfigErrorView,
> {
    match field_at(fields, "repo"@) {
        None => Err(ConfigErrorView::MissingRepo),
        Some(FieldView::Text(repo)) => match field_at(fields, "repos"@) {
            None => Err(ConfigErrorView::MissingRepos),
            Some(FieldView::Table(entries)) => match sources_of(entries) {
                Ok(sources) => Ok(ConfigView { repo, sources }),
                Err(error) => Err(error),
            },
            Some(_) => Err(ConfigErrorView::ReposNotTable),
        },
        Some(_) => Err(ConfigErrorView::RepoNotText),
    }
}

/// Finds the first entry under `key`.
fn find_field(fields: &Vec<(String, Field)>, key: &str) -> (found: Option<usize>)
    ensures
        match found {
            Some(i) => is_first_under(field_views(fields@), key@, i as int),
            None => forall|i: int| !is_first_under(field_views(fields@), key@, i),
        },
{
    let wanted = String::from_str(key);
    let mut i: usize = 0;
    while i < fields.len()
        invariant
            i <= fields.len(),
            wanted@ == key@,
            forall|j: int| 0 <= j < i ==> (#[trigger] field_views(fields@)[j]).0 != key@,
        decreases fields.len() - i,
    {
        if fields[i].0 == wanted {
            return Some(i);
        }
        i += 1;
    }
    None
}

/// Where an entry is the first under its key, it is the one that counts.
proof fn lemma_field_at(fields: Seq<(Seq<char>, FieldView)>, key: Seq<char>, i: int)
    requires
        is_first_under(fields, key, i),
    ensures
        field_at(fields, key) == Some(fields[i].1),
{
    let chosen = choose|i: int| is_first_under(fields, key, i);
    if chosen < i {
        assert(fields[chosen].0 != key);
    } else if i < chosen {
        assert(fields[i].0 != key);
    }
}

proof fn lemma_first_without_text(entries: Seq<(Seq<char>, Option<Seq<char>>)>, i: int)
    requires
        is_first_without_text(entries, i),
    ensures
        sources_of(entries) == Err::<Seq<SourceView>, ConfigErrorView>(
            ConfigErrorView::SourceNotText { name: entries[i].0 },
        ),
{
    let chosen = choose|i: int| is_first_without_text(entries, i);
    if chosen < i {
        assert(entries[chosen].1 is Some);
    } else if i < chosen {
        assert(entries[i].1 is Some);
    }
}

/// Reads the sources from the entries of the table of locations.
fn read_sources(entries: &Vec<(String, Option<String>)>) -> (r: Result<Vec<Source>, ConfigError>)
    ensures
        match r {
            Ok(sources) => sources_of(entry_views(entries@)) == Ok::<
                Seq<SourceView>,
                ConfigErrorView,
            >(sources@.map_values(|s: Source| s@)),
            Err(error) => sources_of(entry_views(entries@)) == Err::<
                Seq<SourceView>,
                ConfigErrorView,
            >(error@),
        },
{
    let ghost all = entry_views(entries@);
    let mut sources: Vec<Source> = Vec::new();
    let mut i: usize = 0;
    while i < entries.len()
        invariant
            i <= entries.len(),
            all == entry_views(entries@),
            sources@.len() == i,
            forall|j: int| 0 <= j < i ==> (#[trigger] all[j]).1 is Some,
            forall|j: int|
                0 <= j < i ==> (#[trigger] sources@[j])@ == (SourceView {
                    name: all[j].0,
                    location: all[j].1->0,
                }),
        decreases entries.len() - i,
    {
        match &entries[i].1 {
            Some(location) => {
                sources.push(Source { name: entries[i].0.clone(), location: location.clone() });
            },
            None => {
                proof {
                    lemma_first_without_text(all, i as int);
                }
                return Err(ConfigError::SourceNotText { name: entries[i].0.clone() });
            },
        }
        i += 1;
    }
    proof {
        assert forall|k: int| !is_first_without_text(all, k) by {
            if 0 <= k < all.len() {
                assert(all[k].1 is Some);
            }
        }
        assert(sources@.map_values(|s: Source| s@) =~= all.map_values(
            |e: (Seq<char>, Option<Seq<char>>)| SourceView { name: e.0, location: e.1->0 },
        ));
    }
    Ok(sources)
}

/// Reads the configuration from the top-level entries of a document.
pub fn config_from_fields(fields: &Vec<(String, Field)>) -> (r: Result<Config, ConfigError>)
    ensures
        outcome_view(r) == config_of(field_views(fields@)),
{
    let ghost all = field_views(fields@);
    let repo = match find_field(fields, "repo") {
        None => {
            return Err(ConfigError::MissingRepo);
        },
        Some(i) => {
            proof {
                lemma_field_at(all, "repo"@, i as int);
            }
            match &fields[i].1 {
                Field::Text(repo) => repo.clone(),
                _ => {
                    return Err(ConfigError::RepoNotText);
                },
            }
        },
    };
    match find_field(fields, "repos") {
        None => Err(ConfigError::MissingRepos),
        Some(i) => {
            proof {
                lemma_field_at(all, "repos"@, i as int);
            }
            match &fields[i].1 {
                Field::Table(entries) => match read_sources(entries) {
                    Ok(sources) => Ok(Config { repo, sources }),
                    Err(error) => Err(error),
                },
                _ => Err(ConfigError::ReposNotTable),
            }
        },
    }
}

/// Reads the configuration from the text of the configuration file.
///
/// The text is parsed as TOML; what the parser finds at the top level of
/// the document is then read as `config_from_fields` reads it.
pub fn parse_config(text: &str) -> (r: Result<Config, ConfigError>)
    ensures
        match toml_fields(text@) {
            Some(fields) => outcome_view(r) == config_of(fields),
            None => r matches Err(ConfigError::Syntax { .. }),
        },
{
    match read_document(text) {
        Ok(fields) => config_from_fields(&fields),
        Err(error) => Err(ConfigError::Syntax { message: syntax_message(&error) }),
    }
}

} // verus!
