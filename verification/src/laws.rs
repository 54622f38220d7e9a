//! What holds of the refresh protocol as a whole.

use vstd::prelude::*;

use crate::db::models::{normalized, ItemView, NewItemView, SubscriptionView};
use crate::db::tables::{item_of, lemma_reschedule, Error, Tables};
use crate::db::Id;
use crate::feed::{FeedDocumentView, RawEntryView};
use crate::feed_manager::{
    after_failure, after_success, as_stored, lemma_insert_all_wf, refreshed_row, candidates, insert_all, is_known, is_new, lemma_insert_all_keeps,
    lemma_valid_by_address, new_items,
    nothing_parsed, refresh_failure, refreshed, same_entry, subscribed, RefreshError,
    SubscribeError,
};
use crate::lemmas::{lemma_filter_all, lemma_filter_keeps, lemma_filter_member};

verus! {

/// A filter that nothing passes leaves nothing.
pub proof fn lemma_filter_none<A>(s: Seq<A>, pred: spec_fn(A) -> bool)
    requires
        forall|i: int| 0 <= i < s.len() ==> !pred(#[trigger] s[i]),
    ensures
        s.filter(pred) == Seq::<A>::empty(),
    decreases s.len(),
{
    reveal(Seq::filter);
    if s.len() > 0 {
        lemma_filter_none(s.drop_last(), pred);
    }
}

/// Every candidate belongs to the subscription, and what title and address
/// it has depends on the key and the feed address of the subscription
/// alone, not on the time.
pub proof fn lemma_candidates_agree(
    entries: Seq<RawEntryView>,
    a: SubscriptionView,
    b: SubscriptionView,
    now: int,
    later: int,
)
    requires
        a.id == b.id,
        a.feed_url == b.feed_url,
    ensures
        candidates(entries, a, now).len() == candidates(entries, b, later).len(),
        forall|k: int|
            0 <= k < candidates(entries, a, now).len() ==> {
                let first = #[trigger] candidates(entries, a, now)[k];
                let second = candidates(entries, b, later)[k];
                &&& first.subscription_id == a.id
                &&& second.subscription_id == a.id
                &&& first.title == second.title
                &&& first.url == second.url
            },
    decreases entries.len(),
{
    if entries.len() > 0 {
        lemma_candidates_agree(entries.drop_last(), a, b, now, later);
        assert(normalized(entries.last(), a, now) is Ok <==> normalized(entries.last(), b, later)
            is Ok);
    }
}

/// Where the subscription exists and the keys suffice, every item that is
/// handed to the store is appended, and nothing else changes.
pub proof fn lemma_insert_all_appends(tables: Tables, items: Seq<NewItemView>, id: Id)
    requires
        tables.wf(),
        tables.has_subscription(id),
        forall|k: int| 0 <= k < items.len() ==> (#[trigger] items[k]).subscription_id == id,
        tables.last_item_id + items.len() <= i32::MAX,
    ensures
        insert_all(tables, items).subscriptions == tables.subscriptions,
        insert_all(tables, items).categories == tables.categories,
        insert_all(tables, items).memberships == tables.memberships,
        insert_all(tables, items).last_item_id == tables.last_item_id + items.len(),
        insert_all(tables, items).items.len() == tables.items.len() + items.len(),
        forall|j: int|
            0 <= j < tables.items.len() ==> #[trigger] insert_all(tables, items).items[j]
                == tables.items[j],
        forall|k: int|
            0 <= k < items.len() ==> {
                let row = #[trigger] insert_all(tables, items).items[tables.items.len() + k];
                &&& row.subscription_id == id
                &&& row.title == items[k].title
                &&& row.url == items[k].url
            },
    decreases items.len(),
{
    if items.len() > 0 {
        let rest = items.drop_last();
        lemma_insert_all_appends(tables, rest, id);
        let before = insert_all(tables, rest);
        assert(before.has_subscription(id));
        assert(items.last().subscription_id == id);
        let after = insert_all(tables, items);
        assert(after == before.create_item(items.last()).0);
        assert forall|k: int| 0 <= k < items.len() implies {
            let row = #[trigger] after.items[tables.items.len() + k];
            &&& row.subscription_id == id
            &&& row.title == items[k].title
            &&& row.url == items[k].url
        } by {
            if k < rest.len() {
                assert(after.items[tables.items.len() + k] == before.items[tables.items.len() + k]);
                assert(rest[k] == items[k]);
            }
        }
    }
}

/// Once the new items of a feed are stored, none of its entries is new any
/// more: the entries are reconciled anew, at any time, for a subscription
/// with the same key and feed address, against a store that holds the items
/// that the store held with the new ones handed to it.
pub proof fn lemma_nothing_new_once_stored(
    tables: Tables,
    subscription: SubscriptionView,
    entries: Seq<RawEntryView>,
    now: int,
    stored: Tables,
    same: SubscriptionView,
    later: int,
)
    requires
        tables.wf(),
        tables.has_subscription(subscription.id),
        tables.last_item_id + new_items(
            entries,
            subscription,
            tables.subscription_items(subscription.id),
            now,
        ).len() <= i32::MAX,
        stored.items == insert_all(
            tables,
            new_items(entries, subscription, tables.subscription_items(subscription.id), now),
        ).items,
        same.id == subscription.id,
        same.feed_url == subscription.feed_url,
    ensures
        new_items(entries, same, stored.subscription_items(subscription.id), later)
            == Seq::<NewItemView>::empty(),
{
    let id = subscription.id;
    let existing = tables.subscription_items(id);
    let found = candidates(entries, subscription, now);
    let fresh = new_items(entries, subscription, existing, now);
    lemma_candidates_agree(entries, subscription, subscription, now, now);
    assert forall|k: int| 0 <= k < fresh.len() implies (#[trigger] fresh[k]).subscription_id
        == id by {
        lemma_filter_member(found, is_new(existing), k);
    }
    lemma_insert_all_appends(tables, fresh, id);
    let earlier = stored.subscription_items(id);
    let again = candidates(entries, same, later);
    lemma_candidates_agree(entries, subscription, same, now, later);
    assert forall|k: int| 0 <= k < again.len() implies !is_new(earlier)(#[trigger] again[k]) by {
        let once = found[k];
        assert(once.title == again[k].title && once.url == again[k].url);
        if is_known(existing, once) {
            let i = choose|i: int|
                0 <= i < existing.len() && same_entry(#[trigger] existing[i], once);
            lemma_filter_member(tables.items, item_of(id), i);
            let j = choose|j: int|
                0 <= j < tables.items.len() && #[trigger] tables.items[j] == existing[i];
            assert(stored.items[j] == tables.items[j]);
            lemma_filter_keeps(stored.items, item_of(id), j);
            let n = choose|n: int|
                0 <= n < earlier.len() && #[trigger] earlier[n] == stored.items[j];
            assert(same_entry(earlier[n], again[k]));
        } else {
            assert(is_new(existing)(found[k]));
            lemma_filter_keeps(found, is_new(existing), k);
            let m = choose|m: int| 0 <= m < fresh.len() && #[trigger] fresh[m] == found[k];
            let j = tables.items.len() + m;
            let kept = stored.items[j];
            assert(kept.subscription_id == id && kept.title == fresh[m].title && kept.url
                == fresh[m].url);
            lemma_filter_keeps(stored.items, item_of(id), j);
            let n = choose|n: int| 0 <= n < earlier.len() && #[trigger] earlier[n] == kept;
            assert(same_entry(earlier[n], again[k]));
        }
    }
    lemma_filter_none(again, is_new(earlier));
}

/// A second refresh with the same feed finds no new item. Whatever became
/// of the first refresh of a subscription that the store holds, in a store
/// with keys enough for what it found, the next refresh with the same
/// document, whenever it is made, stores no item; where it succeeds, it
/// reports none; and it succeeds where the first did.
pub proof fn lemma_refresh_is_idempotent(
    tables: Tables,
    subscription: SubscriptionView,
    feed: FeedDocumentView,
    now: int,
    jitter_minutes: int,
    later: int,
    later_jitter_minutes: int,
)
    requires
        tables.wf(),
        tables.has_subscription(subscription.id),
        tables.last_item_id + new_items(
            feed.entries,
            as_stored(tables, subscription),
            tables.subscription_items(subscription.id),
            now,
        ).len() <= i32::MAX,
    ensures
        ({
            let first = refreshed(tables, subscription, Ok(feed), now, jitter_minutes);
            let second = refreshed(first.0, first.1, Ok(feed), later, later_jitter_minutes);
            &&& second.0.items == first.0.items
            &&& second.2 is Ok ==> second.2 == Ok::<nat, RefreshError>(0)
            &&& first.2 is Ok ==> second.2 == Ok::<nat, RefreshError>(0)
        }),
{
    let id = subscription.id;
    let row = as_stored(tables, subscription);
    assert(row.id == id);
    let first = refreshed(tables, subscription, Ok(feed), now, jitter_minutes);
    assert(first == refreshed_row(tables, row, Ok(feed), now, jitter_minutes));
    let next = first.1;
    lemma_valid_by_address(feed.entries, row, next, now, later);
    if refresh_failure(Ok(feed), row, now) is Some {
        lemma_reschedule(tables, id, next.next_refresh, next.error_count);
        assert(first.0.subscription(id) == Ok::<SubscriptionView, Error>(next));
        assert(nothing_parsed(feed.entries, next, later));
        let again = after_failure(next, later, later_jitter_minutes);
        lemma_reschedule(first.0, id, again.next_refresh, again.error_count);
    } else {
        let fresh = new_items(feed.entries, row, tables.subscription_items(id), now);
        let inserted = insert_all(tables, fresh);
        lemma_insert_all_wf(tables, fresh);
        lemma_insert_all_keeps(tables, fresh);
        assert(inserted.has_subscription(id));
        assert(inserted.subscriptions[inserted.subscription_index(id)] == row) by {
            let i = tables.subscription_index(id);
            let j = inserted.subscription_index(id);
            if i < j {
                assert(tables.subscriptions[i].id != tables.subscriptions[j].id);
            } else if j < i {
                assert(tables.subscriptions[j].id != tables.subscriptions[i].id);
            }
        }
        lemma_reschedule(inserted, id, next.next_refresh, next.error_count);
        assert(first.0.subscription(id) == Ok::<SubscriptionView, Error>(next));
        lemma_nothing_new_once_stored(tables, row, feed.entries, now, first.0, next, later);
        assert(insert_all(first.0, Seq::<NewItemView>::empty()) == first.0);
        let again = after_success(next, later, later_jitter_minutes);
        lemma_reschedule(first.0, id, again.next_refresh, again.error_count);
    }
}

/// A refresh writes the schedule and nothing else of the subscription: the
/// row that the store holds keeps its key, its address, its title and its
/// site, whatever the subscription that is handed in says; the row is
/// handed back as it is stored; and no other subscription is touched.
pub proof fn lemma_refresh_keeps_the_rest(
    tables: Tables,
    subscription: SubscriptionView,
    fetched: Result<FeedDocumentView, crate::feed_manager::FetchError>,
    now: int,
    jitter_minutes: int,
)
    requires
        tables.wf(),
        tables.has_subscription(subscription.id),
    ensures
        ({
            let row = as_stored(tables, subscription);
            let after = refreshed(tables, subscription, fetched, now, jitter_minutes);
            &&& after.0.subscription(subscription.id) == Ok::<SubscriptionView, Error>(after.1)
            &&& after.1.id == row.id
            &&& after.1.feed_url == row.feed_url
            &&& after.1.title == row.title
            &&& after.1.site_url == row.site_url
            &&& after.0.subscriptions.len() == tables.subscriptions.len()
            &&& forall|i: int|
                0 <= i < tables.subscriptions.len() && tables.subscriptions[i].id
                    != subscription.id ==> #[trigger] after.0.subscriptions[i]
                    == tables.subscriptions[i]
        }),
{
    let id = subscription.id;
    let row = as_stored(tables, subscription);
    let after = refreshed(tables, subscription, fetched, now, jitter_minutes);
    assert(after == refreshed_row(tables, row, fetched, now, jitter_minutes));
    let i = tables.subscription_index(id);
    if refresh_failure(fetched, row, now) is Some {
        lemma_reschedule(tables, id, after.1.next_refresh, after.1.error_count);
    } else {
        let fresh = new_items(fetched->Ok_0.entries, row, tables.subscription_items(id), now);
        let inserted = insert_all(tables, fresh);
        lemma_insert_all_wf(tables, fresh);
        lemma_insert_all_keeps(tables, fresh);
        assert(inserted.has_subscription(id));
        let j = inserted.subscription_index(id);
        if i < j {
            assert(tables.subscriptions[i].id != tables.subscriptions[j].id);
        } else if j < i {
            assert(tables.subscriptions[j].id != tables.subscriptions[i].id);
        }
        lemma_reschedule(inserted, id, after.1.next_refresh, after.1.error_count);
    }
}

/// The candidates of two runs of entries, one after the other, are those of
/// the first and then those of the second.
pub proof fn lemma_candidates_concat(
    first: Seq<RawEntryView>,
    second: Seq<RawEntryView>,
    subscription: SubscriptionView,
    now: int,
)
    ensures
        candidates(first + second, subscription, now) == candidates(first, subscription, now)
            + candidates(second, subscription, now),
    decreases second.len(),
{
    if second.len() == 0 {
        assert(first + second =~= first);
        assert(candidates(first, subscription, now) + Seq::<NewItemView>::empty() =~= candidates(
            first,
            subscription,
            now,
        ));
    } else {
        lemma_candidates_concat(first, second.drop_last(), subscription, now);
        assert((first + second).drop_last() =~= first + second.drop_last());
        assert((first + second).last() == second.last());
        let head = candidates(first, subscription, now);
        let tail = candidates(second.drop_last(), subscription, now);
        match normalized(second.last(), subscription, now) {
            Ok(item) => {
                assert((head + tail).push(item) =~= head + tail.push(item));
            },
            Err(_) => {},
        }
    }
}

/// An entry that cannot be normalised is skipped, wherever it stands, and
/// the entries around it yield what they yield without it.
pub proof fn lemma_invalid_entry_is_skipped(
    before: Seq<RawEntryView>,
    entry: RawEntryView,
    after: Seq<RawEntryView>,
    subscription: SubscriptionView,
    existing: Seq<ItemView>,
    now: int,
)
    requires
        normalized(entry, subscription, now) is Err,
    ensures
        candidates(before + seq![entry] + after, subscription, now) == candidates(
            before + after,
            subscription,
            now,
        ),
        new_items(before + seq![entry] + after, subscription, existing, now) == new_items(
            before + after,
            subscription,
            existing,
            now,
        ),
{
    let one = seq![entry];
    assert(one.drop_last() =~= Seq::<RawEntryView>::empty());
    assert(candidates(one, subscription, now) =~= Seq::<NewItemView>::empty()) by {
        assert(one.last() == entry);
        assert(candidates(one.drop_last(), subscription, now) =~= Seq::<NewItemView>::empty());
    }
    lemma_candidates_concat(before, one, subscription, now);
    lemma_candidates_concat(before + one, after, subscription, now);
    lemma_candidates_concat(before, after, subscription, now);
    assert(candidates(before, subscription, now) + Seq::<NewItemView>::empty() =~= candidates(
        before,
        subscription,
        now,
    ));
}

/// A feed with entries of which none can be normalised fails the refresh,
/// and no item is stored; a feed without entries does not fail it for that
/// reason, and nothing is new.
pub proof fn lemma_feed_level_outcome(
    tables: Tables,
    subscription: SubscriptionView,
    feed: FeedDocumentView,
    now: int,
    jitter_minutes: int,
)
    requires
        tables.wf(),
    ensures
        nothing_parsed(feed.entries, as_stored(tables, subscription), now) ==> {
            let after = refreshed(tables, subscription, Ok(feed), now, jitter_minutes);
            &&& after.2 == Err::<nat, RefreshError>(RefreshError::NoValidEntries)
            &&& after.0.items == tables.items
        },
        feed.entries.len() == 0 ==> {
            let after = refreshed(tables, subscription, Ok(feed), now, jitter_minutes);
            &&& after.2 != Err::<nat, RefreshError>(RefreshError::NoValidEntries)
            &&& after.2 is Ok ==> after.2 == Ok::<nat, RefreshError>(0)
            &&& after.0.items == tables.items
        },
{
    let row = as_stored(tables, subscription);
    let after = refreshed(tables, subscription, Ok(feed), now, jitter_minutes);
    lemma_reschedule(tables, row.id, after.1.next_refresh, after.1.error_count);
    if feed.entries.len() == 0 {
        assert(candidates(feed.entries, row, now) =~= Seq::<NewItemView>::empty());
        lemma_filter_none(
            candidates(feed.entries, row, now),
            is_new(tables.subscription_items(row.id)),
        );
    }
}

/// A feed is subscribed to once: where subscribing succeeds, the
/// subscription holds the title of the feed, or the address where the feed
/// has none, and counts no failure; and subscribing to the same address
/// again is refused and changes nothing, whatever is fetched then.
pub proof fn lemma_subscribe_once(
    tables: Tables,
    feed_url: Seq<char>,
    feed: FeedDocumentView,
    now: int,
    jitter_minutes: int,
    again: FeedDocumentView,
    later: int,
    later_jitter_minutes: int,
)
    requires
        subscribed(tables, feed_url, Ok(feed), now, jitter_minutes).1 is Ok,
    ensures
        ({
            let first = subscribed(tables, feed_url, Ok(feed), now, jitter_minutes);
            let row = first.1->Ok_0;
            &&& !tables.has_feed_url(feed_url)
            &&& row.feed_url == feed_url
            &&& row.error_count == 0
            &&& row.title == match feed.title {
                Some(title) => title,
                None => feed_url,
            }
            &&& first.0.subscriptions == tables.subscriptions.push(row)
            &&& subscribed(first.0, feed_url, Ok(again), later, later_jitter_minutes) == (
                first.0,
                Err::<SubscriptionView, SubscribeError>(SubscribeError::AlreadyExists),
            )
        }),
{
    let first = subscribed(tables, feed_url, Ok(feed), now, jitter_minutes);
    let row = first.1->Ok_0;
    let created = tables.create_subscription(
        crate::db::models::subscription_of(
            feed_url,
            feed,
            crate::updater::refresh_time(now, 0, jitter_minutes),
        ),
    ).0;
    lemma_insert_all_keeps(
        created,
        new_items(feed.entries, row, created.subscription_items(row.id), now),
    );
    assert(first.0.subscriptions[tables.subscriptions.len() as int] == row);
}

/// A subscription that was just made has no item yet, so every entry of its
/// feed that can be normalised is new; and where the keys suffice, the
/// items of the subscription after subscribing are those entries, in their
/// order.
pub proof fn lemma_subscribe_stores_entries(
    tables: Tables,
    feed_url: Seq<char>,
    feed: FeedDocumentView,
    now: int,
    jitter_minutes: int,
)
    requires
        tables.wf(),
        subscribed(tables, feed_url, Ok(feed), now, jitter_minutes).1 is Ok,
        tables.last_item_id + feed.entries.len() <= i32::MAX,
    ensures
        ({
            let first = subscribed(tables, feed_url, Ok(feed), now, jitter_minutes);
            let row = first.1->Ok_0;
            let found = candidates(feed.entries, row, now);
            let stored = first.0.subscription_items(row.id);
            &&& stored.len() == found.len()
            &&& forall|k: int|
                0 <= k < found.len() ==> (#[trigger] stored[k]).title == found[k].title
                    && stored[k].url == found[k].url && stored[k].subscription_id == row.id
        }),
{
    let first = subscribed(tables, feed_url, Ok(feed), now, jitter_minutes);
    let row = first.1->Ok_0;
    let created = tables.create_subscription(
        crate::db::models::subscription_of(
            feed_url,
            feed,
            crate::updater::refresh_time(now, 0, jitter_minutes),
        ),
    ).0;
    let found = candidates(feed.entries, row, now);
    let existing = created.subscription_items(row.id);
    // No item belongs to the new subscription yet.
    assert forall|i: int| 0 <= i < created.items.len() implies !item_of(row.id)(
        #[trigger] created.items[i],
    ) by {
        let sid = tables.items[i].subscription_id;
        assert(tables.has_subscription(sid));
        let k = choose|k: int|
            0 <= k < tables.subscriptions.len() && (#[trigger] tables.subscriptions[k]).id == sid;
        assert(tables.subscriptions[k].id@ <= tables.last_subscription_id);
    }
    lemma_filter_none(created.items, item_of(row.id));
    assert forall|k: int| 0 <= k < found.len() implies is_new(existing)(#[trigger] found[k]) by {}
    lemma_filter_all(found, is_new(existing));
    // Every candidate is stored.
    lemma_candidates_agree(feed.entries, row, row, now, now);
    lemma_candidates_length(feed.entries, row, now);
    crate::db::tables::lemma_create_subscription(
        tables,
        crate::db::models::subscription_of(
            feed_url,
            feed,
            crate::updater::refresh_time(now, 0, jitter_minutes),
        ),
    );
    assert(created.subscriptions[tables.subscriptions.len() as int].id == row.id);
    lemma_insert_all_appends(created, found, row.id);
    let after = first.0;
    let old_items = after.items.take(created.items.len() as int);
    let new_rows = after.items.skip(created.items.len() as int);
    assert(after.items =~= old_items + new_rows);
    assert(old_items =~= created.items);
    Seq::filter_distributes_over_add(old_items, new_rows, item_of(row.id));
    assert forall|k: int| 0 <= k < new_rows.len() implies item_of(row.id)(#[trigger] new_rows[k]) by {
        assert(new_rows[k] == after.items[created.items.len() + k]);
    }
    lemma_filter_all(new_rows, item_of(row.id));
    assert(after.subscription_items(row.id) =~= new_rows);
    assert forall|k: int| 0 <= k < found.len() implies (
    #[trigger] after.subscription_items(row.id)[k]).title == found[k].title
        && after.subscription_items(row.id)[k].url == found[k].url && after.subscription_items(
        row.id,
    )[k].subscription_id == row.id by {
        assert(new_rows[k] == after.items[created.items.len() + k]);
    }
}

/// There are no more candidates than entries.
pub proof fn lemma_candidates_length(
    entries: Seq<RawEntryView>,
    subscription: SubscriptionView,
    now: int,
)
    ensures
        candidates(entries, subscription, now).len() <= entries.len(),
    decreases entries.len(),
{
    if entries.len() > 0 {
        lemma_candidates_length(entries.drop_last(), subscription, now);
    }
}

} // verus!
