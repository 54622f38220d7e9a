//! Fetching a feed, reconciling its entries with what is stored, and the
//! protocol of one refresh.

use vstd::prelude::*;

use crate::db::helper::Helper;
use crate::db::models::{
    normalized, subscription_of, Item, ItemView, NewItem, NewItemView,
    NewSubscription, Subscription, SubscriptionView,
};
use crate::db::Id;
use crate::db::tables::Tables;
use crate::feed::{FeedDocument, FeedDocumentView, ParseError, RawEntry, RawEntryView};
use crate::lemmas::{lemma_filter_push, lemma_take_next};
use crate::updater::{jitter, next_refresh_at, refresh_time, Timestamp, JITTER_END, JITTER_MIN};
use crate::utils::now;

verus! {

/// Why a feed could not be had.
#[derive(Debug, Clone, Copy, PartialEq, Eq, Structural)]
pub enum FetchError {
    /// The transport failed, timed out, or the server did not answer with
    /// success.
    Network,
    /// The body of the answer is no feed in a supported format.
    Parse,
}

/// What the transport brought back for one request.
#[derive(Debug)]
pub enum Response {
    /// No answer came: the connection failed or the request timed out.
    Failed,
    /// An answer came, with its status code and with what parsing its body
    /// gave.
    Received { status: u16, parsed: Result<FeedDocument, ParseError> },
}

/// Tells whether a status code reports success.
pub open spec fn is_success(status: u16) -> bool {
    200 <= status < 300
}

/// What is made of an answer: no answer, or one without success, is a
/// network error whatever its body holds; a body that did not parse is a
/// parse error; else the document is had.
pub open spec fn classified(response: Response) -> Result<FeedDocument, FetchError> {
    match response {
        Response::Failed => Err(FetchError::Network),
        Response::Received { status, parsed } => if !is_success(status) {
            Err(FetchError::Network)
        } else {
            match parsed {
                Ok(feed) => Ok(feed),
                Err(_) => Err(FetchError::Parse),
            }
        },
    }
}

/// Classifies an answer.
pub fn classify(response: Response) -> (r: Result<FeedDocument, FetchError>)
    ensures
        r == classified(response),
{
    match response {
        Response::Failed => Err(FetchError::Network),
        Response::Received { status, parsed } => {
            if status < 200 || status >= 300 {
                Err(FetchError::Network)
            } else {
                match parsed {
                    Ok(feed) => Ok(feed),
                    Err(_) => Err(FetchError::Parse),
                }
            }
        },
    }
}

/// Tells whether a stored item has the title and the address of `candidate`.
pub open spec fn same_entry(item: ItemView, candidate: NewItemView) -> bool {
    item.title == candidate.title && item.url == candidate.url
}

/// Tells whether some stored item has the title and the address of
/// `candidate`.
pub open spec fn is_known(existing: Seq<ItemView>, candidate: NewItemView) -> bool {
    exists|i: int| 0 <= i < existing.len() && same_entry(#[trigger] existing[i], candidate)
}

/// Keeps the candidates that no stored item matches.
pub open spec fn is_new(existing: Seq<ItemView>) -> spec_fn(NewItemView) -> bool {
    |candidate: NewItemView| !is_known(existing, candidate)
}

/// The items that the entries of a feed become, in the order of the
/// entries; an entry that cannot be normalised is left out.
pub open spec fn candidates(
    entries: Seq<RawEntryView>,
    subscription: SubscriptionView,
    now: int,
) -> Seq<NewItemView>
    decreases entries.len(),
{
    if entries.len() == 0 {
        Seq::empty()
    } else {
        let rest = candidates(entries.drop_last(), subscription, now);
        match normalized(entries.last(), subscription, now) {
            Ok(item) => rest.push(item),
            Err(_) => rest,
        }
    }
}

/// Tells whether some entry can be normalised.
pub open spec fn any_entry_valid(
    entries: Seq<RawEntryView>,
    subscription: SubscriptionView,
    now: int,
) -> bool {
    exists|i: int|
        0 <= i < entries.len() && (#[trigger] normalized(entries[i], subscription, now)) is Ok
}

/// The items of a feed that are not stored yet.
pub open spec fn new_items(
    entries: Seq<RawEntryView>,
    subscription: SubscriptionView,
    existing: Seq<ItemView>,
    now: int,
) -> Seq<NewItemView> {
    candidates(entries, subscription, now).filter(is_new(existing))
}

/// Tells whether the entries make a feed that holds nothing usable: there
/// are entries, and none can be normalised.
pub open spec fn nothing_parsed(
    entries: Seq<RawEntryView>,
    subscription: SubscriptionView,
    now: int,
) -> bool {
    entries.len() > 0 && !any_entry_valid(entries, subscription, now)
}

/// Tells whether some stored item has the title and the address of
/// `candidate`.
pub fn check_known(existing: &Vec<Item>, candidate: &NewItem) -> (yes: bool)
    ensures
        yes == is_known(existing.deep_view(), candidate@),
{
    let mut i: usize = 0;
    while i < existing.len()
        invariant
            i <= existing.len(),
            forall|j: int| 0 <= j < i ==> !same_entry(#[trigger] existing.deep_view()[j], candidate@),
        decreases existing.len() - i,
    {
        if existing[i].title == candidate.title && existing[i].url == candidate.url {
            assert(same_entry(existing.deep_view()[i as int], candidate@));
            return true;
        }
        i += 1;
    }
    false
}

/// Reconciles the entries of a feed with the items that are stored for its
/// subscription: gives the items that are new, and tells whether any entry
/// could be normalised at all. An entry that cannot be normalised is
/// skipped; one whose title and address a stored item has is a duplicate.
pub fn reconcile(
    subscription: &Subscription,
    existing: &Vec<Item>,
    entries: &Vec<RawEntry>,
    now: Timestamp,
) -> (r: (Vec<NewItem>, bool))
    ensures
        r.0.deep_view() == new_items(
            entries.deep_view(),
            subscription@,
            existing.deep_view(),
            now as int,
        ),
        r.1 == any_entry_valid(entries.deep_view(), subscription@, now as int),
{
    let ghost all = entries.deep_view();
    let ghost keep = is_new(existing.deep_view());
    let mut fresh: Vec<NewItem> = Vec::new();
    let mut any_ok = false;
    let mut i: usize = 0;
    while i < entries.len()
        invariant
            i <= entries.len(),
            all == entries.deep_view(),
            keep == is_new(existing.deep_view()),
            fresh.deep_view() == candidates(all.take(i as int), subscription@, now as int).filter(
                keep,
            ),
            any_ok == any_entry_valid(all.take(i as int), subscription@, now as int),
        decreases entries.len() - i,
    {
        let ghost before = fresh.deep_view();
        let ghost head = all.take(i as int);
        let ghost next = all.take(i as int + 1);
        proof {
            lemma_take_next(all, i as int);
            assert(next.drop_last() =~= head);
            assert(next.last() == all[i as int]);
            assert(all[i as int] == entries@[i as int]@);
        }
        match NewItem::normalize(&entries[i], subscription, now) {
            Ok(item) => {
                proof {
                    lemma_filter_push(
                        candidates(head, subscription@, now as int),
                        item@,
                        keep,
                    );
                    assert(normalized(next[i as int], subscription@, now as int) is Ok);
                }
                any_ok = true;
                if !check_known(existing, &item) {
                    fresh.push(item);
                    assert(fresh.deep_view() =~= before.push(item@));
                }
            },
            Err(_) => {
                proof {
                    if any_entry_valid(next, subscription@, now as int) {
                        let k = choose|k: int|
                            0 <= k < next.len() && (#[trigger] normalized(
                                next[k],
                                subscription@,
                                now as int,
                            )) is Ok;
                        assert(head[k] == next[k]);
                    }
                    if any_ok {
                        let k = choose|k: int|
                            0 <= k < head.len() && (#[trigger] normalized(
                                head[k],
                                subscription@,
                                now as int,
                            )) is Ok;
                        assert(head[k] == next[k]);
                    }
                }
            },
        }
        i += 1;
    }
    assert(all.take(i as int) =~= all);
    (fresh, any_ok)
}

/// Why a refresh failed.
#[derive(Debug, Clone, Copy, PartialEq, Eq, Structural)]
pub enum RefreshError {
    /// The feed could not be fetched.
    FetchFailed,
    /// What was fetched is no feed.
    ParseFailed,
    /// The feed has entries, and none of them could be used.
    NoValidEntries,
    /// The store refused to record the new schedule.
    StorageError,
}

impl RefreshError {
    /// The reason, for a person to read.
    pub fn message(&self) -> (text: String)
        ensures
            text@ == match *self {
                RefreshError::FetchFailed => "Could not fetch feed."@,
                RefreshError::ParseFailed => "Could not parse content as a feed."@,
                RefreshError::NoValidEntries => "No entry could be parsed."@,
                RefreshError::StorageError => "Database error."@,
            },
    {
        match self {
            RefreshError::FetchFailed => "Could not fetch feed.".to_owned(),
            RefreshError::ParseFailed => "Could not parse content as a feed.".to_owned(),
            RefreshError::NoValidEntries => "No entry could be parsed.".to_owned(),
            RefreshError::StorageError => "Database error.".to_owned(),
        }
    }
}

/// What fetching gave, as a mathematical value.
pub open spec fn fetched_view(fetched: Result<FeedDocument, FetchError>) -> Result<
    FeedDocumentView,
    FetchError,
> {
    match fetched {
        Ok(feed) => Ok(feed@),
        Err(e) => Err(e),
    }
}

/// The store after each of `items` was handed to it in turn; an item that
/// the store refuses is passed over.
pub open spec fn insert_all(tables: Tables, items: Seq<NewItemView>) -> Tables
    decreases items.len(),
{
    if items.len() == 0 {
        tables
    } else {
        insert_all(tables, items.drop_last()).create_item(items.last()).0
    }
}

/// The subscription after a failed attempt at `now`: one more failure is
/// counted, and the next attempt is put off accordingly.
pub open spec fn after_failure(
    subscription: SubscriptionView,
    now: int,
    jitter_minutes: int,
) -> SubscriptionView {
    let error_count: nat = if subscription.error_count < u32::MAX {
        subscription.error_count + 1
    } else {
        subscription.error_count
    };
    SubscriptionView {
        error_count,
        next_refresh: refresh_time(now, error_count as int, jitter_minutes),
        ..subscription
    }
}

/// The subscription after a successful attempt at `now`: no failure is
/// counted any more.
pub open spec fn after_success(
    subscription: SubscriptionView,
    now: int,
    jitter_minutes: int,
) -> SubscriptionView {
    SubscriptionView {
        error_count: 0,
        next_refresh: refresh_time(now, 0, jitter_minutes),
        ..subscription
    }
}

/// Why the attempt counts as failed, if it does.
pub open spec fn refresh_failure(
    fetched: Result<FeedDocumentView, FetchError>,
    subscription: SubscriptionView,
    now: int,
) -> Option<RefreshError> {
    match fetched {
        Err(FetchError::Network) => Some(RefreshError::FetchFailed),
        Err(FetchError::Parse) => Some(RefreshError::ParseFailed),
        Ok(feed) => if nothing_parsed(feed.entries, subscription, now) {
            Some(RefreshError::NoValidEntries)
        } else {
            None
        },
    }
}

/// One refresh of the subscription that the store holds as `row`, given
/// what fetching its feed gave: the store afterwards, the row afterwards,
/// and the number of new items or the reason of the failure.
///
/// After a failure one more failure is counted and the next attempt is put
/// off accordingly. After a success the new items are stored, no failure is
/// counted any more, and the next attempt is scheduled. Of the row, only the
/// time of the next refresh and the count of failures are written.
pub open spec fn refreshed_row(
    tables: Tables,
    row: SubscriptionView,
    fetched: Result<FeedDocumentView, FetchError>,
    now: int,
    jitter_minutes: int,
) -> (Tables, SubscriptionView, Result<nat, RefreshError>) {
    match refresh_failure(fetched, row, now) {
        Some(e) => {
            let next = after_failure(row, now, jitter_minutes);
            (tables.reschedule(row.id, next.next_refresh, next.error_count).0, next, Err(e))
        },
        None => {
            let fresh = new_items(
                fetched->Ok_0.entries,
                row,
                tables.subscription_items(row.id),
                now,
            );
            let next = after_success(row, now, jitter_minutes);
            (
                insert_all(tables, fresh).reschedule(row.id, next.next_refresh, next.error_count).0,
                next,
                Ok(fresh.len()),
            )
        },
    }
}

/// The subscription as the store holds it under the key of the one given,
/// or the one given where the store holds none.
pub open spec fn as_stored(tables: Tables, subscription: SubscriptionView) -> SubscriptionView {
    match tables.subscription(subscription.id) {
        Ok(row) => row,
        Err(_) => subscription,
    }
}

/// One refresh of a subscription, given what fetching its feed gave: the
/// store afterwards, the subscription afterwards, and the number of new
/// items or the reason of the failure.
///
/// The subscription is taken as the store holds it under the key of the
/// one given, whatever else the one given says. Where the store holds none,
/// nothing changes: the reason of the failure is returned, or, after a
/// fetch that did not fail, that the store has nowhere to write the
/// schedule.
pub open spec fn refreshed(
    tables: Tables,
    subscription: SubscriptionView,
    fetched: Result<FeedDocumentView, FetchError>,
    now: int,
    jitter_minutes: int,
) -> (Tables, SubscriptionView, Result<nat, RefreshError>) {
    match tables.subscription(subscription.id) {
        Ok(row) => refreshed_row(tables, row, fetched, now, jitter_minutes),
        Err(_) => (
            tables,
            subscription,
            Err(
                match refresh_failure(fetched, subscription, now) {
                    Some(e) => e,
                    None => RefreshError::StorageError,
                },
            ),
        ),
    }
}

/// Handing items to the store changes no subscription, no category and no
/// membership.
pub proof fn lemma_insert_all_keeps(tables: Tables, items: Seq<NewItemView>)
    ensures
        insert_all(tables, items).subscriptions == tables.subscriptions,
        insert_all(tables, items).categories == tables.categories,
        insert_all(tables, items).memberships == tables.memberships,
    decreases items.len(),
{
    if items.len() > 0 {
        lemma_insert_all_keeps(tables, items.drop_last());
    }
}

/// Inserting items keeps the invariant of the store.
pub proof fn lemma_insert_all_wf(tables: Tables, items: Seq<NewItemView>)
    requires
        tables.wf(),
    ensures
        insert_all(tables, items).wf(),
    decreases items.len(),
{
    if items.len() > 0 {
        lemma_insert_all_wf(tables, items.drop_last());
        crate::db::tables::lemma_create_item(insert_all(tables, items.drop_last()), items.last());
    }
}

/// Why a feed could not be subscribed to.
#[derive(Debug, Clone, Copy, PartialEq, Eq, Structural)]
pub enum SubscribeError {
    /// The feed could not be fetched.
    FetchFailed,
    /// What was fetched is no feed.
    ParseFailed,
    /// The feed has entries, and none of them could be used.
    NoValidEntries,
    /// The feed is subscribed to already.
    AlreadyExists,
    /// The store refused the subscription.
    StorageError,
}

impl SubscribeError {
    /// The reason, for a person to read.
    pub fn message(&self) -> (text: String)
        ensures
            text@ == match *self {
                SubscribeError::FetchFailed => "Could not fetch feed."@,
                SubscribeError::ParseFailed => "Could not parse content as a feed."@,
                SubscribeError::NoValidEntries => "No entry could be parsed."@,
                SubscribeError::AlreadyExists => "Already subscribed to this feed."@,
                SubscribeError::StorageError => "Database error."@,
            },
    {
        match self {
            SubscribeError::FetchFailed => "Could not fetch feed.".to_owned(),
            SubscribeError::ParseFailed => "Could not parse content as a feed.".to_owned(),
            SubscribeError::NoValidEntries => "No entry could be parsed.".to_owned(),
            SubscribeError::AlreadyExists => "Already subscribed to this feed.".to_owned(),
            SubscribeError::StorageError => "Database error.".to_owned(),
        }
    }
}

/// A subscription to the feed at `feed_url` of which nothing else is known
/// yet: whether an entry can be normalised depends on the address of the
/// feed alone.
pub open spec fn provisional(feed_url: Seq<char>) -> SubscriptionView {
    SubscriptionView {
        id: Id(0),
        feed_url,
        title: Seq::empty(),
        site_url: None,
        next_refresh: 0,
        error_count: 0,
    }
}

/// Subscribing to the feed at `feed_url`, given what fetching it gave: the
/// store afterwards, and the subscription or the reason of the failure.
///
/// A failed fetch is reported first, then a feed that is subscribed to
/// already, then a feed with entries of which none can be used, then a
/// store that has no key left. After any failure the store is as it was.
/// Else the subscription is stored with the first refresh scheduled as
/// after a success, and with it every entry that can be normalised.
pub open spec fn subscribed(
    tables: Tables,
    feed_url: Seq<char>,
    fetched: Result<FeedDocumentView, FetchError>,
    now: int,
    jitter_minutes: int,
) -> (Tables, Result<SubscriptionView, SubscribeError>) {
    match fetched {
        Err(FetchError::Network) => (tables, Err(SubscribeError::FetchFailed)),
        Err(FetchError::Parse) => (tables, Err(SubscribeError::ParseFailed)),
        Ok(feed) => if tables.has_feed_url(feed_url) {
            (tables, Err(SubscribeError::AlreadyExists))
        } else if nothing_parsed(feed.entries, provisional(feed_url), now) {
            (tables, Err(SubscribeError::NoValidEntries))
        } else {
            let (created, r) = tables.create_subscription(
                subscription_of(feed_url, feed, refresh_time(now, 0, jitter_minutes)),
            );
            match r {
                Err(_) => (tables, Err(SubscribeError::StorageError)),
                Ok(row) => (
                    insert_all(
                        created,
                        new_items(feed.entries, row, created.subscription_items(row.id), now),
                    ),
                    Ok(row),
                ),
            }
        },
    }
}

/// A result of subscribing as a mathematical value.
pub open spec fn subscription_view(r: Result<Subscription, SubscribeError>) -> Result<
    SubscriptionView,
    SubscribeError,
> {
    match r {
        Ok(row) => Ok(row@),
        Err(e) => Err(e),
    }
}

/// Whether an entry can be normalised depends on the address of the feed
/// alone, not on the rest of the subscription.
pub proof fn lemma_valid_by_address(
    entries: Seq<RawEntryView>,
    a: SubscriptionView,
    b: SubscriptionView,
    now: int,
    later: int,
)
    requires
        a.feed_url == b.feed_url,
    ensures
        any_entry_valid(entries, a, now) == any_entry_valid(entries, b, later),
{
    if any_entry_valid(entries, a, now) {
        let i = choose|i: int|
            0 <= i < entries.len() && (#[trigger] normalized(entries[i], a, now)) is Ok;
        assert(normalized(entries[i], b, later) is Ok);
    }
    if any_entry_valid(entries, b, later) {
        let i = choose|i: int|
            0 <= i < entries.len() && (#[trigger] normalized(entries[i], b, later)) is Ok;
        assert(normalized(entries[i], a, now) is Ok);
    }
}

/// The engine: a store, and the protocol by which feeds are brought into it.
pub struct FeedManager {
    pub db: Helper,
}

impl FeedManager {
    /// An engine on the given store.
    pub fn new(db: Helper) -> (manager: Self)
        ensures
            manager.db == db,
    {
        FeedManager { db }
    }

    /// Makes a feed document of what the transport brought back, or says
    /// why there is none.
    pub fn fetch(&self, response: Response) -> (r: Result<FeedDocument, FetchError>)
        ensures
            r == classified(response),
    {
        classify(response)
    }

    /// Stores the entries of a feed that are new for `subscription`, and
    /// gives their number. A feed with entries of which none can be used is
    /// refused, and nothing is stored. An item that the store refuses is
    /// passed over.
    pub fn store_new_entries(
        &mut self,
        subscription: &Subscription,
        entries: &Vec<RawEntry>,
        now: Timestamp,
    ) -> (r: Result<usize, RefreshError>)
        requires
            old(self).db@.wf(),
        ensures
            final(self).db@.wf(),
            nothing_parsed(entries.deep_view(), subscription@, now as int) ==> r == Err::<
                usize,
                RefreshError,
            >(RefreshError::NoValidEntries) && final(self).db@ == old(self).db@,
            !nothing_parsed(entries.deep_view(), subscription@, now as int) ==> ({
                let fresh = new_items(
                    entries.deep_view(),
                    subscription@,
                    old(self).db@.subscription_items(subscription.id),
                    now as int,
                );
                r is Ok && r->Ok_0 == fresh.len() && final(self).db@ == insert_all(
                    old(self).db@,
                    fresh,
                )
            }),
    {
        let existing = self.db.get_subscription_items(subscription.id);
        let (fresh, any_ok) = reconcile(subscription, &existing, entries, now);
        if !any_ok && entries.len() > 0 {
            return Err(RefreshError::NoValidEntries);
        }
        let mut i: usize = 0;
        while i < fresh.len()
            invariant
                i <= fresh.len(),
                self.db@.wf(),
                self.db@ == insert_all(old(self).db@, fresh.deep_view().take(i as int)),
            decreases fresh.len() - i,
        {
            proof {
                lemma_take_next(fresh.deep_view(), i as int);
                assert(fresh.deep_view().take(i as int + 1).drop_last() =~= fresh.deep_view().take(
                    i as int,
                ));
                crate::db::tables::lemma_create_item(self.db@, fresh.deep_view()[i as int]);
            }
            let _ = self.db.create_item(fresh[i].clone());
            i += 1;
        }
        assert(fresh.deep_view().take(i as int) =~= fresh.deep_view());
        Ok(fresh.len())
    }

    /// Tells whether some entry can be normalised for `subscription`.
    pub fn has_valid_entry(entries: &Vec<RawEntry>, subscription: &Subscription, now: Timestamp) -> (yes:
        bool)
        ensures
            yes == any_entry_valid(entries.deep_view(), subscription@, now as int),
    {
        let mut i: usize = 0;
        while i < entries.len()
            invariant
                i <= entries.len(),
                forall|j: int|
                    0 <= j < i ==> !((#[trigger] normalized(
                        entries.deep_view()[j],
                        subscription@,
                        now as int,
                    )) is Ok),
            decreases entries.len() - i,
        {
            let r = NewItem::normalize(&entries[i], subscription, now);
            assert(entries.deep_view()[i as int] == entries@[i as int]@);
            if r.is_ok() {
                assert(normalized(entries.deep_view()[i as int], subscription@, now as int) is Ok);
                return true;
            }
            i += 1;
        }
        false
    }

    /// Subscribes to the feed at `url`, given what fetching it gave, the
    /// time and the jitter of the first schedule.
    pub fn apply_subscribe(
        &mut self,
        url: &str,
        fetched: Result<FeedDocument, FetchError>,
        now: Timestamp,
        jitter_minutes: i64,
    ) -> (r: Result<Subscription, SubscribeError>)
        requires
            old(self).db@.wf(),
            JITTER_MIN <= jitter_minutes < JITTER_END,
        ensures
            final(self).db@.wf(),
            (final(self).db@, subscription_view(r)) == subscribed(
                old(self).db@,
                url@,
                fetched_view(fetched),
                now as int,
                jitter_minutes as int,
            ),
    {
        let feed = match fetched {
            Err(FetchError::Network) => {
                return Err(SubscribeError::FetchFailed);
            },
            Err(FetchError::Parse) => {
                return Err(SubscribeError::ParseFailed);
            },
            Ok(feed) => feed,
        };
        if self.db.has_feed_url(url) {
            return Err(SubscribeError::AlreadyExists);
        }
        let draft = Subscription {
            id: Id::from_raw(0),
            feed_url: url.to_owned(),
            title: String::new(),
            site_url: None,
            next_refresh: 0,
            error_count: 0,
        };
        assert(draft@ == provisional(url@));
        if feed.entries.len() > 0 && !Self::has_valid_entry(&feed.entries, &draft, now) {
            return Err(SubscribeError::NoValidEntries);
        }
        let first = next_refresh_at(now, 0, jitter_minutes);
        let new_subscription = match NewSubscription::try_from(url, &feed, first) {
            Ok(new_subscription) => new_subscription,
            Err(_) => {
                return Err(SubscribeError::ParseFailed);
            },
        };
        let subscription = match self.db.create_subscription(new_subscription) {
            Ok(subscription) => subscription,
            Err(_) => {
                return Err(SubscribeError::StorageError);
            },
        };
        proof {
            lemma_valid_by_address(
                feed@.entries,
                draft@,
                subscription@,
                now as int,
                now as int,
            );
            lemma_insert_all_wf(
                self.db@,
                new_items(
                    feed@.entries,
                    subscription@,
                    self.db@.subscription_items(subscription.id),
                    now as int,
                ),
            );
        }
        let _ = self.store_new_entries(&subscription, &feed.entries, now);
        Ok(subscription)
    }

    /// Subscribes to the feed at `url` with what the transport brought back
    /// for it: the clock is read and the jitter is drawn here.
    pub fn subscribe(&mut self, url: &str, response: Response) -> (r: Result<
        Subscription,
        SubscribeError,
    >)
        requires
            old(self).db@.wf(),
        ensures
            final(self).db@.wf(),
            exists|at: int, jitter_minutes: int|
                JITTER_MIN <= jitter_minutes < JITTER_END && (
                    final(self).db@,
                    subscription_view(r),
                ) == #[trigger] subscribed(
                    old(self).db@,
                    url@,
                    fetched_view(classified(response)),
                    at,
                    jitter_minutes,
                ),
    {
        let fetched = self.fetch(response);
        let at = now();
        let minutes = jitter();
        let r = self.apply_subscribe(url, fetched, at, minutes);
        assert((self.db@, subscription_view(r)) == subscribed(
            old(self).db@,
            url@,
            fetched_view(classified(response)),
            at as int,
            minutes as int,
        ));
        r
    }

    /// Runs one refresh of `subscription`, given what fetching its feed
    /// gave, the time and the jitter of the new schedule. The subscription
    /// is read from the store by its key, and handed back as it is stored
    /// afterwards.
    pub fn apply_refresh(
        &mut self,
        subscription: &mut Subscription,
        fetched: &Result<FeedDocument, FetchError>,
        now: Timestamp,
        jitter_minutes: i64,
    ) -> (r: Result<usize, RefreshError>)
        requires
            old(self).db@.wf(),
            JITTER_MIN <= jitter_minutes < JITTER_END,
        ensures
            final(self).db@.wf(),
            (final(self).db@, final(subscription)@, count_view(r)) == refreshed(
                old(self).db@,
                old(subscription)@,
                fetched_view(*fetched),
                now as int,
                jitter_minutes as int,
            ),
    {
        let row = match self.db.get_subscription(subscription.id) {
            Ok(row) => row,
            Err(_) => {
                let e = match fetched {
                    Err(FetchError::Network) => RefreshError::FetchFailed,
                    Err(FetchError::Parse) => RefreshError::ParseFailed,
                    Ok(feed) => {
                        if feed.entries.len() > 0 && !Self::has_valid_entry(
                            &feed.entries,
                            subscription,
                            now,
                        ) {
                            RefreshError::NoValidEntries
                        } else {
                            RefreshError::StorageError
                        }
                    },
                };
                return Err(e);
            },
        };
        assert(old(self).db@.has_subscription(row.id) && row.id == subscription.id);
        let attempt = match fetched {
            Err(FetchError::Network) => Err(RefreshError::FetchFailed),
            Err(FetchError::Parse) => Err(RefreshError::ParseFailed),
            Ok(feed) => self.store_new_entries(&row, &feed.entries, now),
        };
        match attempt {
            Err(e) => {
                let error_count: u32 = if row.error_count < u32::MAX {
                    row.error_count + 1
                } else {
                    row.error_count
                };
                let at = next_refresh_at(now, error_count, jitter_minutes);
                match self.db.reschedule(row.id, at, error_count) {
                    Ok(next) => {
                        *subscription = next;
                    },
                    Err(_) => {},
                }
                Err(e)
            },
            Ok(count) => {
                proof {
                    let fresh = new_items(
                        fetched->Ok_0@.entries,
                        row@,
                        old(self).db@.subscription_items(row.id),
                        now as int,
                    );
                    lemma_insert_all_wf(old(self).db@, fresh);
                    lemma_insert_all_keeps(old(self).db@, fresh);
                }
                let at = next_refresh_at(now, 0, jitter_minutes);
                match self.db.reschedule(row.id, at, 0) {
                    Ok(next) => {
                        *subscription = next;
                    },
                    Err(_) => {},
                }
                Ok(count)
            },
        }
    }

    /// Runs one refresh of `subscription` with what the transport brought
    /// back for its feed: the clock is read and the jitter is drawn here.
    pub fn refresh(&mut self, subscription: &mut Subscription, response: Response) -> (r: Result<
        usize,
        RefreshError,
    >)
        requires
            old(self).db@.wf(),
        ensures
            final(self).db@.wf(),
            exists|at: int, jitter_minutes: int|
                JITTER_MIN <= jitter_minutes < JITTER_END && (
                    final(self).db@,
                    final(subscription)@,
                    count_view(r),
                ) == #[trigger] refreshed(
                    old(self).db@,
                    old(subscription)@,
                    fetched_view(classified(response)),
                    at,
                    jitter_minutes,
                ),
    {
        let fetched = self.fetch(response);
        let at = now();
        let minutes = jitter();
        let r = self.apply_refresh(subscription, &fetched, at, minutes);
        assert((self.db@, subscription@, count_view(r)) == refreshed(
            old(self).db@,
            old(subscription)@,
            fetched_view(classified(response)),
            at as int,
            minutes as int,
        ));
        r
    }
}

/// A number of new items, or the reason of a failure, as a mathematical
/// value.
pub open spec fn count_view(r: Result<usize, RefreshError>) -> Result<nat, RefreshError> {
    match r {
        Ok(count) => Ok(count as nat),
        Err(e) => Err(e),
    }
}

} // verus!
