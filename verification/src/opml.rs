//! Importing subscriptions from an outline.

use vstd::prelude::*;

use crate::db::helper::Helper;
use crate::db::models::{NewSubscription, NewSubscriptionView};
use crate::db::tables::{Error, Tables};

verus! {

/// An outline inside a category: a feed, unless it lacks an address.
#[derive(Debug)]
pub struct FeedOutline {
    pub text: String,
    pub title: Option<String>,
    pub xml_url: Option<String>,
    pub html_url: Option<String>,
}

/// An outline inside a category as a mathematical value.
pub ghost struct FeedOutlineView {
    pub text: Seq<char>,
    pub title: Option<Seq<char>>,
    pub xml_url: Option<Seq<char>>,
    pub html_url: Option<Seq<char>>,
}

impl View for FeedOutline {
    type V = FeedOutlineView;

    open spec fn view(&self) -> FeedOutlineView {
        FeedOutlineView {
            text: self.text@,
            title: self.title.deep_view(),
            xml_url: self.xml_url.deep_view(),
            html_url: self.html_url.deep_view(),
        }
    }
}

impl DeepView for FeedOutline {
    type V = FeedOutlineView;

    open spec fn deep_view(&self) -> FeedOutlineView {
        self@
    }
}

/// An outline at the top: a feed where it has an address, else a category
/// with the outlines under it.
#[derive(Debug)]
pub struct RootOutline {
    pub outline: FeedOutline,
    pub outlines: Vec<FeedOutline>,
}

/// An outline at the top as a mathematical value.
pub ghost struct RootOutlineView {
    pub outline: FeedOutlineView,
    pub outlines: Seq<FeedOutlineView>,
}

impl View for RootOutline {
    type V = RootOutlineView;

    open spec fn view(&self) -> RootOutlineView {
        RootOutlineView { outline: self.outline@, outlines: self.outlines.deep_view() }
    }
}

impl DeepView for RootOutline {
    type V = RootOutlineView;

    open spec fn deep_view(&self) -> RootOutlineView {
        self@
    }
}

/// Why an import stopped.
#[derive(Debug)]
pub enum ImportError {
    /// The text holds no outline; the text of the variant says why.
    Malformed(String),
    /// A category holds a category: the first text is the title of the
    /// outer one, the second that of the inner one.
    NestedCategory(String, String),
    /// The store refused.
    Storage(Error),
}

/// An error as a mathematical value.
pub ghost enum ImportErrorView {
    Malformed(Seq<char>),
    NestedCategory(Seq<char>, Seq<char>),
    Storage(Error),
}

impl View for ImportError {
    type V = ImportErrorView;

    open spec fn view(&self) -> ImportErrorView {
        match *self {
            ImportError::Malformed(reason) => ImportErrorView::Malformed(reason@),
            ImportError::NestedCategory(parent, title) => ImportErrorView::NestedCategory(
                parent@,
                title@,
            ),
            ImportError::Storage(e) => ImportErrorView::Storage(e),
        }
    }
}

/// The title of an outline: its title, or its text where it has none.
pub open spec fn title_of(outline: FeedOutlineView) -> Seq<char> {
    match outline.title {
        Some(title) => title,
        None => outline.text,
    }
}

/// Importing the feed at `feed_url`: it is subscribed to, due at once, and
/// filed under the category if there is one. A feed that is subscribed to
/// already is passed over, and not filed.
pub open spec fn imported_feed(
    tables: Tables,
    outline: FeedOutlineView,
    feed_url: Seq<char>,
    category: Option<Seq<char>>,
) -> (Tables, Option<ImportErrorView>) {
    let (created, r) = tables.create_subscription(
        NewSubscriptionView {
            feed_url,
            title: title_of(outline),
            site_url: outline.html_url,
            next_refresh: 0,
        },
    );
    match r {
        Err(Error::UniqueViolation) => (tables, None),
        Err(e) => (tables, Some(ImportErrorView::Storage(e))),
        Ok(row) => match category {
            None => (created, None),
            Some(name) => {
                let (filed, r) = created.add_category(row.id, name);
                match r {
                    Ok(_) => (filed, None),
                    Err(e) => (filed, Some(ImportErrorView::Storage(e))),
                }
            },
        },
    }
}

/// Importing the outlines under the category `parent` in turn, up to the
/// first that fails: one without an address is a category inside a
/// category.
pub open spec fn imported_under(tables: Tables, outlines: Seq<FeedOutlineView>, parent: Seq<char>) -> (
    Tables,
    Option<ImportErrorView>,
)
    decreases outlines.len(),
{
    if outlines.len() == 0 {
        (tables, None)
    } else {
        let (before, e) = imported_under(tables, outlines.drop_last(), parent);
        if e is Some {
            (before, e)
        } else {
            match outlines.last().xml_url {
                None => (
                    before,
                    Some(ImportErrorView::NestedCategory(parent, title_of(outlines.last()))),
                ),
                Some(feed_url) => imported_feed(before, outlines.last(), feed_url, Some(parent)),
            }
        }
    }
}

/// Importing the outlines at the top in turn, up to the first that fails.
pub open spec fn imported(tables: Tables, outlines: Seq<RootOutlineView>) -> (
    Tables,
    Option<ImportErrorView>,
)
    decreases outlines.len(),
{
    if outlines.len() == 0 {
        (tables, None)
    } else {
        let (before, e) = imported(tables, outlines.drop_last());
        if e is Some {
            (before, e)
        } else {
            let last = outlines.last();
            match last.outline.xml_url {
                None => imported_under(before, last.outlines, title_of(last.outline)),
                Some(feed_url) => imported_feed(before, last.outline, feed_url, None),
            }
        }
    }
}

/// Once an import has failed, more outlines change nothing.
pub proof fn lemma_imported_under_fails(
    tables: Tables,
    outlines: Seq<FeedOutlineView>,
    parent: Seq<char>,
    k: int,
)
    requires
        0 <= k <= outlines.len(),
        imported_under(tables, outlines.take(k), parent).1 is Some,
    ensures
        imported_under(tables, outlines, parent) == imported_under(tables, outlines.take(k), parent),
    decreases outlines.len(),
{
    if k == outlines.len() {
        assert(outlines.take(k) =~= outlines);
    } else {
        assert(outlines.drop_last().take(k) =~= outlines.take(k));
        lemma_imported_under_fails(tables, outlines.drop_last(), parent, k);
    }
}

/// Once an import has failed, more outlines change nothing.
pub proof fn lemma_imported_fails(tables: Tables, outlines: Seq<RootOutlineView>, k: int)
    requires
        0 <= k <= outlines.len(),
        imported(tables, outlines.take(k)).1 is Some,
    ensures
        imported(tables, outlines) == imported(tables, outlines.take(k)),
    decreases outlines.len(),
{
    if k == outlines.len() {
        assert(outlines.take(k) =~= outlines);
    } else {
        assert(outlines.drop_last().take(k) =~= outlines.take(k));
        lemma_imported_fails(tables, outlines.drop_last(), k);
    }
}

/// The error of an import, if it stopped, as a mathematical value.
pub open spec fn stopped(r: Result<(), ImportError>) -> Option<ImportErrorView> {
    match r {
        Ok(_) => None,
        Err(e) => Some(e@),
    }
}

/// The title of an outline.
pub fn outline_title(outline: &FeedOutline) -> (title: String)
    ensures
        title@ == title_of(outline@),
{
    match &outline.title {
        Some(title) => title.clone(),
        None => outline.text.clone(),
    }
}

/// Imports one feed.
pub fn import_feed(db: &mut Helper, outline: &FeedOutline, feed_url: &String, category: Option<&String>) -> (r:
    Result<(), ImportError>)
    requires
        old(db)@.wf(),
    ensures
        final(db)@.wf(),
        (final(db)@, stopped(r)) == imported_feed(
            old(db)@,
            outline@,
            feed_url@,
            match category {
                Some(name) => Some(name@),
                None => None,
            },
        ),
{
    let new_subscription = NewSubscription {
        feed_url: feed_url.clone(),
        title: outline_title(outline),
        site_url: crate::db::models::clone_optional(&outline.html_url),
        next_refresh: 0,
    };
    let subscription = match db.create_subscription(new_subscription) {
        Ok(subscription) => subscription,
        Err(Error::UniqueViolation) => {
            return Ok(());
        },
        Err(e) => {
            return Err(ImportError::Storage(e));
        },
    };
    match category {
        Some(name) => match db.subscription_add_category(subscription.id, name.clone()) {
            Ok(_) => Ok(()),
            Err(e) => Err(ImportError::Storage(e)),
        },
        None => Ok(()),
    }
}

/// Imports the outlines under the category `parent`.
pub fn import_under(db: &mut Helper, outlines: &Vec<FeedOutline>, parent: &String) -> (r: Result<
    (),
    ImportError,
>)
    requires
        old(db)@.wf(),
    ensures
        final(db)@.wf(),
        (final(db)@, stopped(r)) == imported_under(old(db)@, outlines.deep_view(), parent@),
{
    let ghost all = outlines.deep_view();
    let mut i: usize = 0;
    while i < outlines.len()
        invariant
            i <= outlines.len(),
            all == outlines.deep_view(),
            db@.wf(),
            (db@, None::<ImportErrorView>) == imported_under(old(db)@, all.take(i as int), parent@),
        decreases outlines.len() - i,
    {
        proof {
            assert(all.take(i as int + 1).drop_last() =~= all.take(i as int));
            assert(all.take(i as int + 1).last() == outlines[i as int]@);
            if imported_under(old(db)@, all.take(i as int + 1), parent@).1 is Some {
                lemma_imported_under_fails(old(db)@, all, parent@, i as int + 1);
            }
        }
        match &outlines[i].xml_url {
            None => {
                return Err(
                    ImportError::NestedCategory(parent.clone(), outline_title(&outlines[i])),
                );
            },
            Some(feed_url) => {
                match import_feed(db, &outlines[i], feed_url, Some(parent)) {
                    Ok(()) => {},
                    Err(e) => {
                        return Err(e);
                    },
                }
            },
        }
        i += 1;
    }
    assert(all.take(i as int) =~= all);
    Ok(())
}

/// Imports outlines: each feed is subscribed to, and the feeds under a
/// category are filed under its title. The import stops at the first
/// failure, and what was imported before it stays.
pub fn import_outlines(db: &mut Helper, outlines: &Vec<RootOutline>) -> (r: Result<(), ImportError>)
    requires
        old(db)@.wf(),
    ensures
        final(db)@.wf(),
        (final(db)@, stopped(r)) == imported(old(db)@, outlines.deep_view()),
{
    let ghost all = outlines.deep_view();
    let mut i: usize = 0;
    while i < outlines.len()
        invariant
            i <= outlines.len(),
            all == outlines.deep_view(),
            db@.wf(),
            (db@, None::<ImportErrorView>) == imported(old(db)@, all.take(i as int)),
        decreases outlines.len() - i,
    {
        proof {
            assert(all.take(i as int + 1).drop_last() =~= all.take(i as int));
            assert(all.take(i as int + 1).last() == outlines[i as int]@);
            if imported(old(db)@, all.take(i as int + 1)).1 is Some {
                lemma_imported_fails(old(db)@, all, i as int + 1);
            }
        }
        let step = match &outlines[i].outline.xml_url {
            None => {
                let parent = outline_title(&outlines[i].outline);
                import_under(db, &outlines[i].outlines, &parent)
            },
            Some(feed_url) => import_feed(db, &outlines[i].outline, feed_url, None),
        };
        match step {
            Ok(()) => {},
            Err(e) => {
                return Err(e);
            },
        }
        i += 1;
    }
    assert(all.take(i as int) =~= all);
    Ok(())
}

/// The outlines at the top of the body of an outline document, or why the
/// text is none.
pub uninterp spec fn outlines_in(xml: Seq<char>) -> Result<Seq<RootOutlineView>, Seq<char>>;

/// Calls `opml::OPML::from_str` on the text and moves what the import reads
/// out of the outlines of the body and of those directly under them, field
/// by field; an error is written out as text. The contract names the result
/// and claims nothing more of it than that it depends on the text alone.
#[verifier::external_body]
fn parse_outlines(xml: &str) -> (r: Result<Vec<RootOutline>, String>)
    ensures
        match r {
            Ok(outlines) => outlines_in(xml@) == Ok::<Seq<RootOutlineView>, Seq<char>>(
                outlines.deep_view(),
            ),
            Err(reason) => outlines_in(xml@) == Err::<Seq<RootOutlineView>, Seq<char>>(reason@),
        },
{
    match ::opml::OPML::from_str(xml) {
        Ok(document) => Ok(document.body.outlines.into_iter().map(|o| RootOutline {
            outline: FeedOutline { text: o.text, title: o.title, xml_url: o.xml_url, html_url: o.html_url },
            outlines: o.outlines.into_iter().map(|c| FeedOutline {
                text: c.text,
                title: c.title,
                xml_url: c.xml_url,
                html_url: c.html_url,
            }).collect(),
        }).collect()),
        Err(e) => Err(e.to_string()),
    }
}

/// Importing the outlines of a document.
pub open spec fn imported_document(tables: Tables, xml: Seq<char>) -> (
    Tables,
    Option<ImportErrorView>,
) {
    match outlines_in(xml) {
        Err(reason) => (tables, Some(ImportErrorView::Malformed(reason))),
        Ok(outlines) => imported(tables, outlines),
    }
}

/// Imports the feeds and the categories of an outline document.
pub fn import(xml: &str, db: &mut Helper) -> (r: Result<(), ImportError>)
    requires
        old(db)@.wf(),
    ensures
        final(db)@.wf(),
        (final(db)@, stopped(r)) == imported_document(old(db)@, xml@),
{
    match parse_outlines(xml) {
        Ok(outlines) => import_outlines(db, &outlines),
        Err(reason) => Err(ImportError::Malformed(reason)),
    }
}

} // verus!
