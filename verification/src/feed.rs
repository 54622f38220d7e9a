//! A parsed feed document, as far as the engine reads it. The engine parses
//! nothing itself: it is handed the document, or the news that the body of
//! an answer was none.

use vstd::prelude::*;

use crate::updater::Timestamp;

verus! {

/// A link of a feed or of an entry.
#[derive(Debug)]
pub struct FeedLink {
    pub href: String,
    pub rel: Option<String>,
    pub media_type: Option<String>,
}

/// A link as a mathematical value.
pub ghost struct FeedLinkView {
    pub href: Seq<char>,
    pub rel: Option<Seq<char>>,
    pub media_type: Option<Seq<char>>,
}

impl View for FeedLink {
    type V = FeedLinkView;

    open spec fn view(&self) -> FeedLinkView {
        FeedLinkView {
            href: self.href@,
            rel: self.rel.deep_view(),
            media_type: self.media_type.deep_view(),
        }
    }
}

impl DeepView for FeedLink {
    type V = FeedLinkView;

    open spec fn deep_view(&self) -> FeedLinkView {
        self@
    }
}

/// An author of an entry.
#[derive(Debug)]
pub struct Author {
    pub name: Option<String>,
}

/// An author as a mathematical value.
pub ghost struct AuthorView {
    pub name: Option<Seq<char>>,
}

impl View for Author {
    type V = AuthorView;

    open spec fn view(&self) -> AuthorView {
        AuthorView { name: self.name.deep_view() }
    }
}

impl DeepView for Author {
    type V = AuthorView;

    open spec fn deep_view(&self) -> AuthorView {
        self@
    }
}

/// The content element of an entry; its body may be missing.
#[derive(Debug)]
pub struct EntryContent {
    pub body: Option<String>,
}

/// A content element as a mathematical value.
pub ghost struct EntryContentView {
    pub body: Option<Seq<char>>,
}

impl View for EntryContent {
    type V = EntryContentView;

    open spec fn view(&self) -> EntryContentView {
        EntryContentView { body: self.body.deep_view() }
    }
}

impl DeepView for EntryContent {
    type V = EntryContentView;

    open spec fn deep_view(&self) -> EntryContentView {
        self@
    }
}

/// One entry of a feed, before it is checked.
#[derive(Debug)]
pub struct RawEntry {
    pub id: String,
    pub title: Option<String>,
    pub links: Vec<FeedLink>,
    pub authors: Vec<Author>,
    pub published: Option<Timestamp>,
    pub updated: Option<Timestamp>,
    pub content: Option<EntryContent>,
    pub summary: Option<String>,
}

/// An entry as a mathematical value.
pub ghost struct RawEntryView {
    pub id: Seq<char>,
    pub title: Option<Seq<char>>,
    pub links: Seq<FeedLinkView>,
    pub authors: Seq<AuthorView>,
    pub published: Option<int>,
    pub updated: Option<int>,
    pub content: Option<EntryContentView>,
    pub summary: Option<Seq<char>>,
}

/// An optional instant as an optional integer.
pub open spec fn instant_view(t: Option<Timestamp>) -> Option<int> {
    match t {
        Some(t) => Some(t as int),
        None => None,
    }
}

impl View for RawEntry {
    type V = RawEntryView;

    open spec fn view(&self) -> RawEntryView {
        RawEntryView {
            id: self.id@,
            title: self.title.deep_view(),
            links: self.links.deep_view(),
            authors: self.authors.deep_view(),
            published: instant_view(self.published),
            updated: instant_view(self.updated),
            content: self.content.deep_view(),
            summary: self.summary.deep_view(),
        }
    }
}

impl DeepView for RawEntry {
    type V = RawEntryView;

    open spec fn deep_view(&self) -> RawEntryView {
        self@
    }
}

/// A feed document.
#[derive(Debug)]
pub struct FeedDocument {
    pub title: Option<String>,
    pub links: Vec<FeedLink>,
    pub updated: Option<Timestamp>,
    pub entries: Vec<RawEntry>,
}

/// A feed document as a mathematical value.
pub ghost struct FeedDocumentView {
    pub title: Option<Seq<char>>,
    pub links: Seq<FeedLinkView>,
    pub updated: Option<int>,
    pub entries: Seq<RawEntryView>,
}

impl View for FeedDocument {
    type V = FeedDocumentView;

    open spec fn view(&self) -> FeedDocumentView {
        FeedDocumentView {
            title: self.title.deep_view(),
            links: self.links.deep_view(),
            updated: instant_view(self.updated),
            entries: self.entries.deep_view(),
        }
    }
}

impl DeepView for FeedDocument {
    type V = FeedDocumentView;

    open spec fn deep_view(&self) -> FeedDocumentView {
        self@
    }
}

/// The error of a body that is no feed in a supported format.
#[derive(Debug, Clone, Copy, PartialEq, Eq, Structural)]
pub struct ParseError;

} // verus!
