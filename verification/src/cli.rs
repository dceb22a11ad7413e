//! Command-line vocabulary shared by the library: value enums and their spellings.

use vstd::prelude::*;

verus! {

/// Field used to group duplicate items.
#[derive(Clone, Copy, Debug, PartialEq, Eq)]
pub enum DuplicatesBy {
    Doi,
    Title,
    Zotero,
}

impl DuplicatesBy {
    /// The spelling used on the command line and in payloads.
    pub fn as_str(&self) -> (s: &'static str)
        ensures
            s@ == match *self {
                DuplicatesBy::Doi => "doi"@,
                DuplicatesBy::Title => "title"@,
                DuplicatesBy::Zotero => "zotero"@,
            },
    {
        match self {
            DuplicatesBy::Doi => "doi",
            DuplicatesBy::Title => "title",
            DuplicatesBy::Zotero => "zotero",
        }
    }
}

/// Data backend selected on the command line.
#[derive(Clone, Copy, Debug, PartialEq, Eq)]
pub enum Backend {
    Auto,
    Sqlite,
    Api,
}

impl Backend {
    /// The spelling used on the command line and in payloads.
    pub fn as_str(&self) -> (s: &'static str)
        ensures
            s@ == match *self {
                Backend::Auto => "auto"@,
                Backend::Sqlite => "sqlite"@,
                Backend::Api => "api"@,
            },
    {
        match self {
            Backend::Auto => "auto",
            Backend::Sqlite => "sqlite",
            Backend::Api => "api",
        }
    }
}

/// Bibliography format of `export bib`.
#[derive(Clone, Copy, Debug, PartialEq, Eq)]
pub enum ExportBibFormat {
    Bibtex,
    Biblatex,
}

impl ExportBibFormat {
    /// The spelling used on the command line and in payloads.
    pub fn as_str(&self) -> (s: &'static str)
        ensures
            s@ == match *self {
                ExportBibFormat::Bibtex => "bibtex"@,
                ExportBibFormat::Biblatex => "biblatex"@,
            },
    {
        match self {
            ExportBibFormat::Bibtex => "bibtex",
            ExportBibFormat::Biblatex => "biblatex",
        }
    }
}

/// Export format of `item export`.
#[derive(Clone, Copy, Debug, PartialEq, Eq)]
pub enum ExportFormat {
    Ris,
    Bibtex,
    Biblatex,
    Csljson,
    Csv,
    Mods,
    Refer,
}

impl ExportFormat {
    /// The spelling used on the command line and in payloads.
    pub fn as_str(&self) -> (s: &'static str)
        ensures
            s@ == match *self {
                ExportFormat::Ris => "ris"@,
                ExportFormat::Bibtex => "bibtex"@,
                ExportFormat::Biblatex => "biblatex"@,
                ExportFormat::Csljson => "csljson"@,
                ExportFormat::Csv => "csv"@,
                ExportFormat::Mods => "mods"@,
                ExportFormat::Refer => "refer"@,
            },
    {
        match self {
            ExportFormat::Ris => "ris",
            ExportFormat::Bibtex => "bibtex",
            ExportFormat::Biblatex => "biblatex",
            ExportFormat::Csljson => "csljson",
            ExportFormat::Csv => "csv",
            ExportFormat::Mods => "mods",
            ExportFormat::Refer => "refer",
        }
    }
}

/// Language filter of semantic search.
#[derive(Clone, Copy, Debug, PartialEq, Eq)]
pub enum SemanticLanguage {
    Zh,
    En,
    All,
}

impl SemanticLanguage {
    /// The spelling used on the command line and in payloads.
    pub fn as_str(&self) -> (s: &'static str)
        ensures
            s@ == match *self {
                SemanticLanguage::Zh => "zh"@,
                SemanticLanguage::En => "en"@,
                SemanticLanguage::All => "all"@,
            },
    {
        match self {
            SemanticLanguage::Zh => "zh",
            SemanticLanguage::En => "en",
            SemanticLanguage::All => "all",
        }
    }
}

/// Local API item search mode (`qmode`).
#[derive(Clone, Copy, Debug, PartialEq, Eq)]
pub enum SearchScope {
    TitleCreatorYear,
    Fields,
    Everything,
}

impl SearchScope {
    /// The spelling used on the command line and in payloads.
    pub fn as_str(&self) -> (s: &'static str)
        ensures
            s@ == match *self {
                SearchScope::TitleCreatorYear => "titleCreatorYear"@,
                SearchScope::Fields => "fields"@,
                SearchScope::Everything => "everything"@,
            },
    {
        match self {
            SearchScope::TitleCreatorYear => "titleCreatorYear",
            SearchScope::Fields => "fields",
            SearchScope::Everything => "everything",
        }
    }
}

/// Format of note text.
#[derive(Clone, Copy, Debug, PartialEq, Eq)]
pub enum NoteFormat {
    Text,
    Markdown,
    Html,
}

impl NoteFormat {
    /// The spelling used on the command line and in payloads.
    pub fn as_str(&self) -> (s: &'static str)
        ensures
            s@ == match *self {
                NoteFormat::Text => "text"@,
                NoteFormat::Markdown => "markdown"@,
                NoteFormat::Html => "html"@,
            },
    {
        match self {
            NoteFormat::Text => "text",
            NoteFormat::Markdown => "markdown",
            NoteFormat::Html => "html",
        }
    }
}

/// What adding an attachment does when the item already has one.
#[derive(Clone, Copy, Debug, PartialEq, Eq)]
pub enum IfExists {
    File,
    Skip,
    Duplicate,
}

impl IfExists {
    /// The spelling used on the command line and in payloads.
    pub fn as_str(&self) -> (s: &'static str)
        ensures
            s@ == match *self {
                IfExists::File => "file"@,
                IfExists::Skip => "skip"@,
                IfExists::Duplicate => "duplicate"@,
            },
    {
        match self {
            IfExists::File => "file",
            IfExists::Skip => "skip",
            IfExists::Duplicate => "duplicate",
        }
    }
}

} // verus!
