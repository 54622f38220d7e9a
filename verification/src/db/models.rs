//! The rows of the four tables, and what a row is mathematically.

use vstd::prelude::*;

use crate::db::Id;
use crate::feed::{
    EntryContent, EntryContentView, FeedDocument, FeedDocumentView, FeedLink, FeedLinkView, ParseError, RawEntry,
    RawEntryView,
};
use crate::updater::Timestamp;
use crate::utils::{
    absolute_url, make_url_absolute, now, same_text, starts_with, InvalidUrl,
    ABSOLUTE_PREFIX,
};

verus! {

/// Copies an optional string.
pub fn clone_optional(text: &Option<String>) -> (copy: Option<String>)
    ensures
        copy == *text,
{
    match text {
        Some(s) => Some(s.clone()),
        None => None,
    }
}

/// A feed that the user follows.
#[derive(Debug)]
pub struct Subscription {
    pub id: Id,
    pub feed_url: String,
    pub title: String,
    pub site_url: Option<String>,
    pub next_refresh: Timestamp,
    pub error_count: u32,
}

/// A subscription as a mathematical value.
pub ghost struct SubscriptionView {
    pub id: Id,
    pub feed_url: Seq<char>,
    pub title: Seq<char>,
    pub site_url: Option<Seq<char>>,
    pub next_refresh: int,
    pub error_count: nat,
}

impl View for Subscription {
    type V = SubscriptionView;

    open spec fn view(&self) -> SubscriptionView {
        SubscriptionView {
            id: self.id,
            feed_url: self.feed_url@,
            title: self.title@,
            site_url: self.site_url.deep_view(),
            next_refresh: self.next_refresh as int,
            error_count: self.error_count as nat,
        }
    }
}

impl DeepView for Subscription {
    type V = SubscriptionView;

    open spec fn deep_view(&self) -> SubscriptionView {
        self@
    }
}

impl Clone for Subscription {
    fn clone(&self) -> (copy: Self)
        ensures
            copy == *self,
    {
        Subscription {
            id: self.id,
            feed_url: self.feed_url.clone(),
            title: self.title.clone(),
            site_url: clone_optional(&self.site_url),
            next_refresh: self.next_refresh,
            error_count: self.error_count,
        }
    }
}


/// A subscription that is not stored yet.
#[derive(Debug)]
pub struct NewSubscription {
    pub feed_url: String,
    pub title: String,
    pub site_url: Option<String>,
    pub next_refresh: Timestamp,
}

/// A new subscription as a mathematical value.
pub ghost struct NewSubscriptionView {
    pub feed_url: Seq<char>,
    pub title: Seq<char>,
    pub site_url: Option<Seq<char>>,
    pub next_refresh: int,
}

impl View for NewSubscription {
    type V = NewSubscriptionView;

    open spec fn view(&self) -> NewSubscriptionView {
        NewSubscriptionView {
            feed_url: self.feed_url@,
            title: self.title@,
            site_url: self.site_url.deep_view(),
            next_refresh: self.next_refresh as int,
        }
    }
}

impl DeepView for NewSubscription {
    type V = NewSubscriptionView;

    open spec fn deep_view(&self) -> NewSubscriptionView {
        self@
    }
}

/// The relation that marks a link to the site of a feed.
pub const REL_ALTERNATE: &'static str = "alternate";

/// The media type that marks a link to the site of a feed.
pub const MEDIA_HTML: &'static str = "text/html";

/// Tells whether a link of a feed may lead to the site that publishes it:
/// its relation is missing or `alternate`, or its media type is missing or
/// `text/html`.
pub open spec fn is_site_link(link: FeedLinkView) -> bool {
    ||| link.rel is None
    ||| link.rel == Some(REL_ALTERNATE@)
    ||| link.media_type is None
    ||| link.media_type == Some(MEDIA_HTML@)
}

/// The position of the first link at or after `from` that may lead to the
/// site of the feed.
pub open spec fn site_link_from(links: Seq<FeedLinkView>, from: int) -> Option<int>
    decreases links.len() - from,
{
    if from < 0 || from >= links.len() {
        None
    } else if is_site_link(links[from]) {
        Some(from)
    } else {
        site_link_from(links, from + 1)
    }
}

/// The site of a feed: its first site link, made absolute against the
/// address of the feed; none where there is no such link or it cannot be
/// resolved.
pub open spec fn site_url_of(links: Seq<FeedLinkView>, feed_url: Seq<char>) -> Option<Seq<char>> {
    match site_link_from(links, 0) {
        Some(i) => match absolute_url(links[i].href, feed_url) {
            Ok(url) => Some(url),
            Err(_) => None,
        },
        None => None,
    }
}

/// The subscription that a feed document at `feed_url` gives rise to.
pub open spec fn subscription_of(
    feed_url: Seq<char>,
    feed: FeedDocumentView,
    next_refresh: int,
) -> NewSubscriptionView {
    NewSubscriptionView {
        feed_url,
        title: match feed.title {
            Some(title) => title,
            None => feed_url,
        },
        site_url: site_url_of(feed.links, feed_url),
        next_refresh,
    }
}

/// Tells whether a link may lead to the site of its feed.
pub fn check_site_link(link: &FeedLink) -> (yes: bool)
    ensures
        yes == is_site_link(link@),
{
    let by_rel = match &link.rel {
        None => true,
        Some(rel) => same_text(rel.as_str(), REL_ALTERNATE),
    };
    let by_type = match &link.media_type {
        None => true,
        Some(media_type) => same_text(media_type.as_str(), MEDIA_HTML),
    };
    by_rel || by_type
}

/// Finds the first link that may lead to the site of the feed.
pub fn find_site_link(links: &Vec<FeedLink>) -> (found: Option<usize>)
    ensures
        match found {
            Some(i) => i < links.len() && site_link_from(links.deep_view(), 0) == Some(i as int),
            None => site_link_from(links.deep_view(), 0) is None,
        },
{
    let mut i: usize = 0;
    while i < links.len()
        invariant
            i <= links.len(),
            site_link_from(links.deep_view(), 0) == site_link_from(links.deep_view(), i as int),
        decreases links.len() - i,
    {
        if check_site_link(&links[i]) {
            return Some(i);
        }
        i += 1;
    }
    None
}

impl NewSubscription {
    /// Describes the subscription to the feed at `feed_url`, given its
    /// document and the time of its next refresh. The title of the feed is
    /// taken, or the address where the feed has none.
    pub fn try_from(feed_url: &str, feed: &FeedDocument, next_refresh: Timestamp) -> (r: Result<
        Self,
        ParseError,
    >)
        ensures
            r is Ok,
            r->Ok_0@ == subscription_of(feed_url@, feed@, next_refresh as int),
    {
        let title = match &feed.title {
            Some(title) => title.clone(),
            None => feed_url.to_owned(),
        };
        let site_url = match find_site_link(&feed.links) {
            Some(i) => match make_url_absolute(feed.links[i].href.as_str(), feed_url) {
                Ok(url) => Some(url),
                Err(_) => None,
            },
            None => None,
        };
        Ok(NewSubscription { feed_url: feed_url.to_owned(), title, site_url, next_refresh })
    }
}


/// A label under which subscriptions are filed.
#[derive(Debug)]
pub struct Category {
    pub id: Id,
    pub name: String,
}

/// A category as a mathematical value.
pub ghost struct CategoryView {
    pub id: Id,
    pub name: Seq<char>,
}

impl View for Category {
    type V = CategoryView;

    open spec fn view(&self) -> CategoryView {
        CategoryView { id: self.id, name: self.name@ }
    }
}

impl DeepView for Category {
    type V = CategoryView;

    open spec fn deep_view(&self) -> CategoryView {
        self@
    }
}

impl Clone for Category {
    fn clone(&self) -> (copy: Self)
        ensures
            copy == *self,
    {
        Category { id: self.id, name: self.name.clone() }
    }
}

/// A category that is not stored yet.
#[derive(Debug, Clone, Copy)]
pub struct NewCategory<'a> {
    pub name: &'a str,
}

/// The membership of a subscription in a category.
#[derive(Debug, Clone, Copy, PartialEq, Eq, Structural)]
pub struct SubscriptionCategory {
    pub subscription_id: Id,
    pub category_id: Id,
}

/// A membership that is not stored yet.
#[derive(Debug, Clone, Copy)]
pub struct NewSubscriptionCategory<'a> {
    pub subscription_id: &'a Id,
    pub category_id: &'a Id,
}

/// An entry of a feed, as stored.
#[derive(Debug)]
pub struct Item {
    pub id: Id,
    pub subscription_id: Id,
    pub url: String,
    pub title: String,
    pub author: Option<String>,
    pub published: Timestamp,
    pub updated: Timestamp,
    pub content: String,
    pub is_read: bool,
    pub is_starred: bool,
}

/// A stored item as a mathematical value.
pub ghost struct ItemView {
    pub id: Id,
    pub subscription_id: Id,
    pub url: Seq<char>,
    pub title: Seq<char>,
    pub author: Option<Seq<char>>,
    pub published: int,
    pub updated: int,
    pub content: Seq<char>,
    pub is_read: bool,
    pub is_starred: bool,
}

impl View for Item {
    type V = ItemView;

    open spec fn view(&self) -> ItemView {
        ItemView {
            id: self.id,
            subscription_id: self.subscription_id,
            url: self.url@,
            title: self.title@,
            author: self.author.deep_view(),
            published: self.published as int,
            updated: self.updated as int,
            content: self.content@,
            is_read: self.is_read,
            is_starred: self.is_starred,
        }
    }
}

impl DeepView for Item {
    type V = ItemView;

    open spec fn deep_view(&self) -> ItemView {
        self@
    }
}

impl Clone for Item {
    fn clone(&self) -> (copy: Self)
        ensures
            copy == *self,
    {
        Item {
            id: self.id,
            subscription_id: self.subscription_id,
            url: self.url.clone(),
            title: self.title.clone(),
            author: clone_optional(&self.author),
            published: self.published,
            updated: self.updated,
            content: self.content.clone(),
            is_read: self.is_read,
            is_starred: self.is_starred,
        }
    }
}

/// An item that is not stored yet.
#[derive(Debug)]
pub struct NewItem {
    pub subscription_id: Id,
    pub url: String,
    pub title: String,
    pub author: Option<String>,
    pub published: Timestamp,
    pub updated: Timestamp,
    pub content: String,
    pub is_read: bool,
    pub is_starred: bool,
}

/// A new item as a mathematical value.
pub ghost struct NewItemView {
    pub subscription_id: Id,
    pub url: Seq<char>,
    pub title: Seq<char>,
    pub author: Option<Seq<char>>,
    pub published: int,
    pub updated: int,
    pub content: Seq<char>,
    pub is_read: bool,
    pub is_starred: bool,
}

impl View for NewItem {
    type V = NewItemView;

    open spec fn view(&self) -> NewItemView {
        NewItemView {
            subscription_id: self.subscription_id,
            url: self.url@,
            title: self.title@,
            author: self.author.deep_view(),
            published: self.published as int,
            updated: self.updated as int,
            content: self.content@,
            is_read: self.is_read,
            is_starred: self.is_starred,
        }
    }
}

impl DeepView for NewItem {
    type V = NewItemView;

    open spec fn deep_view(&self) -> NewItemView {
        self@
    }
}

impl Clone for NewItem {
    fn clone(&self) -> (copy: Self)
        ensures
            copy == *self,
    {
        NewItem {
            subscription_id: self.subscription_id,
            url: self.url.clone(),
            title: self.title.clone(),
            author: clone_optional(&self.author),
            published: self.published,
            updated: self.updated,
            content: self.content.clone(),
            is_read: self.is_read,
            is_starred: self.is_starred,
        }
    }
}

/// Why an entry of a feed yields no item.
#[derive(Debug, Clone, Copy, PartialEq, Eq, Structural)]
pub enum EntryError {
    /// The entry has no link, and its identifier is no absolute URL.
    MissingUrl,
    /// The entry has no title.
    MissingTitle,
    /// The address of the entry cannot be resolved against that of the feed.
    InvalidUrl,
}

impl EntryError {
    /// The reason, for a person to read.
    pub fn message(&self) -> (text: String)
        ensures
            text@ == match *self {
                EntryError::MissingUrl => "Missing URL"@,
                EntryError::MissingTitle => "Missing title"@,
                EntryError::InvalidUrl => "Invalid URL"@,
            },
    {
        match self {
            EntryError::MissingUrl => "Missing URL".to_owned(),
            EntryError::MissingTitle => "Missing title".to_owned(),
            EntryError::InvalidUrl => "Invalid URL".to_owned(),
        }
    }
}

/// The address that an entry gives for itself: that of its first link, or
/// its identifier where it has no link and the identifier begins with
/// `http`.
pub open spec fn entry_address(entry: RawEntryView) -> Option<Seq<char>> {
    if entry.links.len() > 0 {
        Some(entry.links[0].href)
    } else if ABSOLUTE_PREFIX@.is_prefix_of(entry.id) {
        Some(entry.id)
    } else {
        None
    }
}

/// The name of the first author of an entry.
pub open spec fn entry_author(entry: RawEntryView) -> Option<Seq<char>> {
    if entry.authors.len() > 0 {
        entry.authors[0].name
    } else {
        None
    }
}

/// When an entry was published: as it says, else when it was updated, else
/// `now`.
pub open spec fn entry_published(entry: RawEntryView, now: int) -> int {
    match entry.published {
        Some(t) => t,
        None => match entry.updated {
            Some(t) => t,
            None => now,
        },
    }
}

/// When an entry was updated: as it says, else when it was published.
pub open spec fn entry_updated(entry: RawEntryView, now: int) -> int {
    match entry.updated {
        Some(t) => t,
        None => entry_published(entry, now),
    }
}

/// The text of an entry: the body of its content, else its summary, else
/// nothing.
pub open spec fn entry_content(entry: RawEntryView) -> Seq<char> {
    match entry.content {
        Some(EntryContentView { body: Some(body) }) => body,
        _ => match entry.summary {
            Some(summary) => summary,
            None => Seq::empty(),
        },
    }
}

/// The item that an entry of the feed of `subscription` becomes at the time
/// `now`, or why it becomes none. A missing address is found before a
/// missing title, and both before an address that cannot be resolved.
pub open spec fn normalized(entry: RawEntryView, subscription: SubscriptionView, now: int) -> Result<
    NewItemView,
    EntryError,
> {
    match entry_address(entry) {
        None => Err(EntryError::MissingUrl),
        Some(address) => match entry.title {
            None => Err(EntryError::MissingTitle),
            Some(title) => match absolute_url(address, subscription.feed_url) {
                Err(_) => Err(EntryError::InvalidUrl),
                Ok(url) => Ok(
                    NewItemView {
                        subscription_id: subscription.id,
                        url,
                        title,
                        author: entry_author(entry),
                        published: entry_published(entry, now),
                        updated: entry_updated(entry, now),
                        content: entry_content(entry),
                        is_read: false,
                        is_starred: false,
                    },
                ),
            },
        },
    }
}

/// A result of normalisation as a mathematical value.
pub open spec fn normalized_view(r: Result<NewItem, EntryError>) -> Result<NewItemView, EntryError> {
    match r {
        Ok(item) => Ok(item@),
        Err(e) => Err(e),
    }
}

impl NewItem {
    /// Turns an entry of the feed of `subscription` into an item, at the
    /// time `now`: the time stands in for a date that the entry does not
    /// give.
    pub fn normalize(entry: &RawEntry, subscription: &Subscription, now: Timestamp) -> (r: Result<
        Self,
        EntryError,
    >)
        ensures
            normalized_view(r) == normalized(entry@, subscription@, now as int),
    {
        let address: &str = if entry.links.len() > 0 {
            entry.links[0].href.as_str()
        } else if starts_with(entry.id.as_str(), ABSOLUTE_PREFIX) {
            entry.id.as_str()
        } else {
            return Err(EntryError::MissingUrl);
        };
        let title = match &entry.title {
            Some(title) => title.clone(),
            None => {
                return Err(EntryError::MissingTitle);
            },
        };
        let author = if entry.authors.len() > 0 {
            clone_optional(&entry.authors[0].name)
        } else {
            None
        };
        let published: Timestamp = match entry.published {
            Some(t) => t,
            None => match entry.updated {
                Some(t) => t,
                None => now,
            },
        };
        let updated: Timestamp = match entry.updated {
            Some(t) => t,
            None => published,
        };
        let content = match &entry.content {
            Some(EntryContent { body: Some(body) }) => body.clone(),
            _ => match &entry.summary {
                Some(summary) => summary.clone(),
                None => String::new(),
            },
        };
        let url = match make_url_absolute(address, subscription.feed_url.as_str()) {
            Ok(url) => url,
            Err(_) => {
                return Err(EntryError::InvalidUrl);
            },
        };
        Ok(
            NewItem {
                subscription_id: subscription.id,
                url,
                title,
                author,
                published,
                updated,
                content,
                is_read: false,
                is_starred: false,
            },
        )
    }

    /// Turns an entry of the feed of `subscription` into an item, now: the
    /// clock is read for a date that the entry does not give.
    pub fn try_from(entry: &RawEntry, subscription: &Subscription) -> (r: Result<Self, EntryError>)
        ensures
            exists|t: int| normalized_view(r) == #[trigger] normalized(entry@, subscription@, t),
    {
        let t = now();
        let r = NewItem::normalize(entry, subscription, t);
        assert(normalized_view(r) == normalized(entry@, subscription@, t as int));
        r
    }
}

} // verus!
