//! The store: the four tables in memory, and the operations on them.

use vstd::prelude::*;

use crate::db::models::{
    Category, CategoryView, Item, NewCategory, NewItem, NewSubscription,
    NewSubscriptionCategory, Subscription, SubscriptionCategory,
};
use crate::db::tables::{
    category_key, highest, item_key, lemma_highest, subscription_key, category_in_use, category_is_not, category_of, has_member, item_among, item_flagged,
    item_not_of, item_of, lemma_add_category, lemma_references_kept, lemma_remove_category,
    lemma_reschedule,
    lemma_remove_subscription, membership_is_not, membership_not_of, subscription_is_due,
    subscription_is_not, Error, Tables,
};
use crate::db::Id;
use crate::lemmas::{lemma_filter_push, lemma_take_next};
use crate::updater::Timestamp;

verus! {

/// The outcome of an operation as a mathematical value.
pub open spec fn outcome<T: DeepView>(r: Result<T, Error>) -> Result<T::V, Error> {
    match r {
        Ok(row) => Ok(row.deep_view()),
        Err(e) => Err(e),
    }
}

/// The store of subscriptions, categories, memberships and items.
pub struct Helper {
    subscriptions: Vec<Subscription>,
    categories: Vec<Category>,
    memberships: Vec<SubscriptionCategory>,
    items: Vec<Item>,
    last_subscription_id: i32,
    last_category_id: i32,
    last_item_id: i32,
}

impl View for Helper {
    type V = Tables;

    closed spec fn view(&self) -> Tables {
        Tables {
            subscriptions: self.subscriptions.deep_view(),
            categories: self.categories.deep_view(),
            memberships: self.memberships@,
            items: self.items.deep_view(),
            last_subscription_id: self.last_subscription_id as int,
            last_category_id: self.last_category_id as int,
            last_item_id: self.last_item_id as int,
        }
    }
}

impl Helper {
    /// An empty store.
    pub fn new() -> (db: Self)
        ensures
            db@ == Tables::empty(),
            db@.wf(),
    {
        let db = Helper {
            subscriptions: Vec::new(),
            categories: Vec::new(),
            memberships: Vec::new(),
            items: Vec::new(),
            last_subscription_id: 0,
            last_category_id: 0,
            last_item_id: 0,
        };
        assert(db.subscriptions.deep_view() =~= Seq::empty());
        assert(db.categories.deep_view() =~= Seq::empty());
        assert(db.items.deep_view() =~= Seq::empty());
        db
    }

    /// The highest of the keys, or zero where none is above it.
    fn highest_key(ids: &Vec<Id>) -> (top: i32)
        ensures
            top == highest(ids@),
    {
        let mut top: i32 = 0;
        let mut i: usize = 0;
        while i < ids.len()
            invariant
                i <= ids.len(),
                top == highest(ids@.take(i as int)),
            decreases ids.len() - i,
        {
            assert(ids@.take(i as int + 1).drop_last() =~= ids@.take(i as int));
            if ids[i].inner() > top {
                top = ids[i].inner();
            }
            i += 1;
        }
        assert(ids@.take(i as int) =~= ids@);
        top
    }

    /// Tells whether no two subscriptions share a key or a feed address.
    fn distinct_subscriptions(&self) -> (yes: bool)
        ensures
            yes == ((forall|i: int, j: int|
                0 <= i < j < self@.subscriptions.len() ==> (#[trigger] self@.subscriptions[i]).id
                    != (#[trigger] self@.subscriptions[j]).id) && (forall|i: int, j: int|
                0 <= i < j < self@.subscriptions.len() ==> (
                #[trigger] self@.subscriptions[i]).feed_url != (
                #[trigger] self@.subscriptions[j]).feed_url)),
    {
        let n = self.subscriptions.len();
        let mut j: usize = 0;
        while j < n
            invariant
                j <= n,
                n == self.subscriptions.len(),
                forall|a: int, b: int|
                    0 <= a < b < j ==> (#[trigger] self@.subscriptions[a]).id != (
                    #[trigger] self@.subscriptions[b]).id,
                forall|a: int, b: int|
                    0 <= a < b < j ==> (#[trigger] self@.subscriptions[a]).feed_url != (
                    #[trigger] self@.subscriptions[b]).feed_url,
            decreases n - j,
        {
            let mut i: usize = 0;
            while i < j
                invariant
                    i <= j < n,
                    n == self.subscriptions.len(),
                    forall|a: int|
                        0 <= a < i ==> (#[trigger] self@.subscriptions[a]).id
                            != self@.subscriptions[j as int].id && self@.subscriptions[a].feed_url
                            != self@.subscriptions[j as int].feed_url,
                decreases j - i,
            {
                if self.subscriptions[i].id == self.subscriptions[j].id
                    || self.subscriptions[i].feed_url == self.subscriptions[j].feed_url {
                    assert(self@.subscriptions[i as int].id == self@.subscriptions[j as int].id
                        || self@.subscriptions[i as int].feed_url
                        == self@.subscriptions[j as int].feed_url);
                    return false;
                }
                i += 1;
            }
            j += 1;
        }
        true
    }

    /// Tells whether no two categories share a key or a name.
    fn distinct_categories(&self) -> (yes: bool)
        ensures
            yes == ((forall|i: int, j: int|
                0 <= i < j < self@.categories.len() ==> (#[trigger] self@.categories[i]).id != (
                #[trigger] self@.categories[j]).id) && (forall|i: int, j: int|
                0 <= i < j < self@.categories.len() ==> (#[trigger] self@.categories[i]).name != (
                #[trigger] self@.categories[j]).name)),
    {
        let n = self.categories.len();
        let mut j: usize = 0;
        while j < n
            invariant
                j <= n,
                n == self.categories.len(),
                forall|a: int, b: int|
                    0 <= a < b < j ==> (#[trigger] self@.categories[a]).id != (
                    #[trigger] self@.categories[b]).id,
                forall|a: int, b: int|
                    0 <= a < b < j ==> (#[trigger] self@.categories[a]).name != (
                    #[trigger] self@.categories[b]).name,
            decreases n - j,
        {
            let mut i: usize = 0;
            while i < j
                invariant
                    i <= j < n,
                    n == self.categories.len(),
                    forall|a: int|
                        0 <= a < i ==> (#[trigger] self@.categories[a]).id
                            != self@.categories[j as int].id && self@.categories[a].name
                            != self@.categories[j as int].name,
                decreases j - i,
            {
                if self.categories[i].id == self.categories[j].id || self.categories[i].name
                    == self.categories[j].name {
                    assert(self@.categories[i as int].id == self@.categories[j as int].id
                        || self@.categories[i as int].name == self@.categories[j as int].name);
                    return false;
                }
                i += 1;
            }
            j += 1;
        }
        true
    }

    /// Tells whether no membership occurs twice.
    fn distinct_memberships(&self) -> (yes: bool)
        ensures
            yes == (forall|i: int, j: int|
                0 <= i < j < self@.memberships.len() ==> #[trigger] self@.memberships[i]
                    != #[trigger] self@.memberships[j]),
    {
        let n = self.memberships.len();
        let mut j: usize = 0;
        while j < n
            invariant
                j <= n,
                n == self.memberships.len(),
                forall|a: int, b: int|
                    0 <= a < b < j ==> #[trigger] self@.memberships[a]
                        != #[trigger] self@.memberships[b],
            decreases n - j,
        {
            let mut i: usize = 0;
            while i < j
                invariant
                    i <= j < n,
                    n == self.memberships.len(),
                    forall|a: int|
                        0 <= a < i ==> #[trigger] self@.memberships[a] != self@.memberships[j as int],
                decreases j - i,
            {
                if self.memberships[i] == self.memberships[j] {
                    assert(self@.memberships[i as int] == self@.memberships[j as int]);
                    return false;
                }
                i += 1;
            }
            j += 1;
        }
        true
    }

    /// Tells whether no two items share a key.
    fn distinct_items(&self) -> (yes: bool)
        ensures
            yes == (forall|i: int, j: int|
                0 <= i < j < self@.items.len() ==> (#[trigger] self@.items[i]).id != (
                #[trigger] self@.items[j]).id),
    {
        let n = self.items.len();
        let mut j: usize = 0;
        while j < n
            invariant
                j <= n,
                n == self.items.len(),
                forall|a: int, b: int|
                    0 <= a < b < j ==> (#[trigger] self@.items[a]).id != (
                    #[trigger] self@.items[b]).id,
            decreases n - j,
        {
            let mut i: usize = 0;
            while i < j
                invariant
                    i <= j < n,
                    n == self.items.len(),
                    forall|a: int|
                        0 <= a < i ==> (#[trigger] self@.items[a]).id != self@.items[j as int].id,
                decreases j - i,
            {
                if self.items[i].id == self.items[j].id {
                    assert(self@.items[i as int].id == self@.items[j as int].id);
                    return false;
                }
                i += 1;
            }
            j += 1;
        }
        true
    }

    /// Finds the row of the category `id`.
    fn find_category(&self, id: Id) -> (found: Option<usize>)
        ensures
            match found {
                Some(i) => i < self@.categories.len() && self@.categories[i as int].id == id,
                None => !self@.has_category(id),
            },
    {
        let mut i: usize = 0;
        while i < self.categories.len()
            invariant
                i <= self.categories.len(),
                forall|j: int| 0 <= j < i ==> (#[trigger] self@.categories[j]).id != id,
            decreases self.categories.len() - i,
        {
            if self.categories[i].id == id {
                return Some(i);
            }
            i += 1;
        }
        None
    }

    /// Tells whether every membership and every item refers to rows that
    /// exist.
    fn references_ok(&self) -> (yes: bool)
        ensures
            yes == self@.references_wf(),
    {
        let mut i: usize = 0;
        while i < self.memberships.len()
            invariant
                i <= self.memberships.len(),
                forall|k: int|
                    0 <= k < i ==> self@.has_subscription(
                        (#[trigger] self@.memberships[k]).subscription_id,
                    ) && self@.has_category(self@.memberships[k].category_id),
            decreases self.memberships.len() - i,
        {
            let membership = self.memberships[i];
            let subscription = self.find_subscription(membership.subscription_id);
            let category = self.find_category(membership.category_id);
            if subscription.is_none() || category.is_none() {
                assert(!(self@.has_subscription(self@.memberships[i as int].subscription_id)
                    && self@.has_category(self@.memberships[i as int].category_id)));
                return false;
            }
            i += 1;
        }
        let mut k: usize = 0;
        while k < self.items.len()
            invariant
                k <= self.items.len(),
                forall|m: int|
                    0 <= m < self@.memberships.len() ==> self@.has_subscription(
                        (#[trigger] self@.memberships[m]).subscription_id,
                    ) && self@.has_category(self@.memberships[m].category_id),
                forall|m: int|
                    0 <= m < k ==> self@.has_subscription(
                        (#[trigger] self@.items[m]).subscription_id,
                    ),
            decreases self.items.len() - k,
        {
            if self.find_subscription(self.items[k].subscription_id).is_none() {
                assert(!self@.has_subscription(self@.items[k as int].subscription_id));
                return false;
            }
            k += 1;
        }
        true
    }

    /// Tells whether every category has a member.
    fn orphans_ok(&self) -> (yes: bool)
        ensures
            yes == self@.no_orphans(),
    {
        let mut i: usize = 0;
        while i < self.categories.len()
            invariant
                i <= self.categories.len(),
                forall|k: int|
                    0 <= k < i ==> has_member(self@.memberships, (#[trigger] self@.categories[k]).id),
            decreases self.categories.len() - i,
        {
            if !self.category_has_member(self.categories[i].id) {
                assert(!has_member(self@.memberships, self@.categories[i as int].id));
                return false;
            }
            i += 1;
        }
        true
    }

    /// The store with the given rows, as they are read back from where they
    /// were kept; nothing where the rows break the invariant of the store.
    pub fn restore(
        subscriptions: Vec<Subscription>,
        categories: Vec<Category>,
        memberships: Vec<SubscriptionCategory>,
        items: Vec<Item>,
    ) -> (r: Option<Self>)
        ensures
            r is Some <==> Tables::restored(
                subscriptions.deep_view(),
                categories.deep_view(),
                memberships@,
                items.deep_view(),
            ).wf(),
            r matches Some(db) ==> db@ == Tables::restored(
                subscriptions.deep_view(),
                categories.deep_view(),
                memberships@,
                items.deep_view(),
            ),
    {
        let mut keys: Vec<Id> = Vec::new();
        let mut i: usize = 0;
        while i < subscriptions.len()
            invariant
                i <= subscriptions.len(),
                keys@ == subscriptions.deep_view().take(i as int).map_values(subscription_key()),
            decreases subscriptions.len() - i,
        {
            keys.push(subscriptions[i].id);
            assert(keys@ =~= subscriptions.deep_view().take(i as int + 1).map_values(
                subscription_key(),
            ));
            i += 1;
        }
        assert(subscriptions.deep_view().take(i as int) =~= subscriptions.deep_view());
        let last_subscription_id = Self::highest_key(&keys);
        let ghost subscription_keys = keys@;

        let mut keys: Vec<Id> = Vec::new();
        let mut i: usize = 0;
        while i < categories.len()
            invariant
                i <= categories.len(),
                keys@ == categories.deep_view().take(i as int).map_values(category_key()),
            decreases categories.len() - i,
        {
            keys.push(categories[i].id);
            assert(keys@ =~= categories.deep_view().take(i as int + 1).map_values(category_key()));
            i += 1;
        }
        assert(categories.deep_view().take(i as int) =~= categories.deep_view());
        let last_category_id = Self::highest_key(&keys);
        let ghost category_keys = keys@;

        let mut keys: Vec<Id> = Vec::new();
        let mut i: usize = 0;
        while i < items.len()
            invariant
                i <= items.len(),
                keys@ == items.deep_view().take(i as int).map_values(item_key()),
            decreases items.len() - i,
        {
            keys.push(items[i].id);
            assert(keys@ =~= items.deep_view().take(i as int + 1).map_values(item_key()));
            i += 1;
        }
        assert(items.deep_view().take(i as int) =~= items.deep_view());
        let last_item_id = Self::highest_key(&keys);
        let ghost item_keys = keys@;

        let db = Helper {
            subscriptions,
            categories,
            memberships,
            items,
            last_subscription_id,
            last_category_id,
            last_item_id,
        };
        proof {
            assert forall|k: int| 0 <= k < db@.subscriptions.len() implies (
            #[trigger] db@.subscriptions[k]).id@ <= db@.last_subscription_id by {
                lemma_highest(subscription_keys, k);
            }
            assert forall|k: int| 0 <= k < db@.categories.len() implies (
            #[trigger] db@.categories[k]).id@ <= db@.last_category_id by {
                lemma_highest(category_keys, k);
            }
            assert forall|k: int| 0 <= k < db@.items.len() implies (#[trigger] db@.items[k]).id@
                <= db@.last_item_id by {
                lemma_highest(item_keys, k);
            }
            crate::db::tables::lemma_highest_bounds(subscription_keys);
            crate::db::tables::lemma_highest_bounds(category_keys);
            crate::db::tables::lemma_highest_bounds(item_keys);
        }
        if db.distinct_subscriptions() && db.distinct_categories() && db.distinct_memberships()
            && db.distinct_items() && db.references_ok() && db.orphans_ok() {
            Some(db)
        } else {
            None
        }
    }

    /// All categories, in the order in which they were stored.
    pub fn get_categories(&self) -> (rows: Vec<Category>)
        ensures
            rows.deep_view() == self@.categories,
    {
        let mut rows: Vec<Category> = Vec::new();
        let mut i: usize = 0;
        while i < self.categories.len()
            invariant
                i <= self.categories.len(),
                rows.deep_view() == self@.categories.take(i as int),
            decreases self.categories.len() - i,
        {
            rows.push(self.categories[i].clone());
            proof {
                lemma_take_next(self@.categories, i as int);
                assert(rows.deep_view() =~= self@.categories.take(i as int).push(
                    self@.categories[i as int],
                ));
            }
            i += 1;
        }
        assert(self@.categories.take(i as int) =~= self@.categories);
        rows
    }

    /// All memberships, in the order in which they were stored.
    pub fn get_memberships(&self) -> (rows: Vec<SubscriptionCategory>)
        ensures
            rows@ == self@.memberships,
    {
        let mut rows: Vec<SubscriptionCategory> = Vec::new();
        let mut i: usize = 0;
        while i < self.memberships.len()
            invariant
                i <= self.memberships.len(),
                rows@ == self@.memberships.take(i as int),
            decreases self.memberships.len() - i,
        {
            rows.push(self.memberships[i]);
            assert(rows@ =~= self@.memberships.take(i as int + 1));
            i += 1;
        }
        assert(self@.memberships.take(i as int) =~= self@.memberships);
        rows
    }

    /// All items, in the order in which they were stored.
    pub fn get_items(&self) -> (rows: Vec<Item>)
        ensures
            rows.deep_view() == self@.items,
    {
        let mut rows: Vec<Item> = Vec::new();
        let mut i: usize = 0;
        while i < self.items.len()
            invariant
                i <= self.items.len(),
                rows.deep_view() == self@.items.take(i as int),
            decreases self.items.len() - i,
        {
            rows.push(self.items[i].clone());
            proof {
                lemma_take_next(self@.items, i as int);
                assert(rows.deep_view() =~= self@.items.take(i as int).push(self@.items[i as int]));
            }
            i += 1;
        }
        assert(self@.items.take(i as int) =~= self@.items);
        rows
    }

    /// Finds the row of the subscription `id`.
    fn find_subscription(&self, id: Id) -> (found: Option<usize>)
        ensures
            match found {
                Some(i) => i < self@.subscriptions.len() && self@.subscriptions[i as int].id == id,
                None => !self@.has_subscription(id),
            },
    {
        let mut i: usize = 0;
        while i < self.subscriptions.len()
            invariant
                i <= self.subscriptions.len(),
                forall|j: int| 0 <= j < i ==> (#[trigger] self@.subscriptions[j]).id != id,
            decreases self.subscriptions.len() - i,
        {
            if self.subscriptions[i].id == id {
                return Some(i);
            }
            i += 1;
        }
        None
    }

    /// Finds the row of the subscription to the feed at `feed_url`.
    fn find_feed_url(&self, feed_url: &String) -> (found: Option<usize>)
        ensures
            match found {
                Some(i) => i < self@.subscriptions.len() && self@.subscriptions[i as int].feed_url
                    == feed_url@,
                None => !self@.has_feed_url(feed_url@),
            },
    {
        let mut i: usize = 0;
        while i < self.subscriptions.len()
            invariant
                i <= self.subscriptions.len(),
                forall|j: int| 0 <= j < i ==> (#[trigger] self@.subscriptions[j]).feed_url != feed_url@,
            decreases self.subscriptions.len() - i,
        {
            if self.subscriptions[i].feed_url == *feed_url {
                return Some(i);
            }
            i += 1;
        }
        None
    }

    /// Tells whether a subscription to the feed at `feed_url` is stored.
    pub fn has_feed_url(&self, feed_url: &str) -> (yes: bool)
        ensures
            yes == self@.has_feed_url(feed_url@),
    {
        let url = feed_url.to_owned();
        self.find_feed_url(&url).is_some()
    }

    /// Stores a new subscription under the next key.
    pub fn create_subscription(&mut self, new_subscription: NewSubscription) -> (r: Result<
        Subscription,
        Error,
    >)
        requires
            old(self)@.wf(),
        ensures
            (final(self)@, outcome(r)) == old(self)@.create_subscription(new_subscription@),
            final(self)@.wf(),
    {
        if self.find_feed_url(&new_subscription.feed_url).is_some() {
            return Err(Error::UniqueViolation);
        }
        if self.last_subscription_id == i32::MAX {
            return Err(Error::OutOfIds);
        }
        let id = Id::from_raw(self.last_subscription_id + 1);
        let row = Subscription {
            id,
            feed_url: new_subscription.feed_url,
            title: new_subscription.title,
            site_url: new_subscription.site_url,
            next_refresh: new_subscription.next_refresh,
            error_count: 0,
        };
        let copy = row.clone();
        self.subscriptions.push(row);
        self.last_subscription_id = self.last_subscription_id + 1;
        proof {
            let before = old(self)@;
            let after = self@;
            assert(after.subscriptions =~= before.subscriptions.push(copy@));
            assert forall|i: int| 0 <= i < before.subscriptions.len() implies after.has_subscription(
                (#[trigger] before.subscriptions[i]).id,
            ) by {
                assert(after.subscriptions[i].id == before.subscriptions[i].id);
            }
            assert forall|i: int| 0 <= i < before.categories.len() implies after.has_category(
                (#[trigger] before.categories[i]).id,
            ) by {
                assert(after.categories[i].id == before.categories[i].id);
            }
            lemma_references_kept(before, after);
        }
        Ok(copy)
    }

    /// Looks up the subscription `id`.
    pub fn get_subscription(&self, id: Id) -> (r: Result<Subscription, Error>)
        requires
            self@.wf(),
        ensures
            outcome(r) == self@.subscription(id),
    {
        match self.find_subscription(id) {
            Some(i) => {
                assert(self@.subscriptions[i as int].id == id);
                Ok(self.subscriptions[i].clone())
            },
            None => Err(Error::NotFound),
        }
    }

    /// All subscriptions, in the order in which they were stored.
    pub fn get_subscriptions(&self) -> (rows: Vec<Subscription>)
        ensures
            rows.deep_view() == self@.subscriptions,
    {
        let mut rows: Vec<Subscription> = Vec::new();
        let mut i: usize = 0;
        while i < self.subscriptions.len()
            invariant
                i <= self.subscriptions.len(),
                rows.deep_view() == self@.subscriptions.take(i as int),
            decreases self.subscriptions.len() - i,
        {
            rows.push(self.subscriptions[i].clone());
            proof {
                lemma_take_next(self@.subscriptions, i as int);
                assert(rows.deep_view() =~= self@.subscriptions.take(i as int).push(
                    self@.subscriptions[i as int],
                ));
            }
            i += 1;
        }
        assert(self@.subscriptions.take(i as int) =~= self@.subscriptions);
        rows
    }

    /// The subscriptions whose next refresh is due at `now`.
    pub fn find_outdated_subscriptions(&self, now: Timestamp) -> (rows: Vec<Subscription>)
        ensures
            rows.deep_view() == self@.outdated(now as int),
    {
        let mut rows: Vec<Subscription> = Vec::new();
        let mut i: usize = 0;
        while i < self.subscriptions.len()
            invariant
                i <= self.subscriptions.len(),
                rows.deep_view() == self@.subscriptions.take(i as int).filter(
                    subscription_is_due(now as int),
                ),
            decreases self.subscriptions.len() - i,
        {
            let ghost before = rows.deep_view();
            if self.subscriptions[i].next_refresh <= now {
                rows.push(self.subscriptions[i].clone());
                assert(rows.deep_view() =~= before.push(self@.subscriptions[i as int]));
            }
            proof {
                lemma_take_next(self@.subscriptions, i as int);
                lemma_filter_push(
                    self@.subscriptions.take(i as int),
                    self@.subscriptions[i as int],
                    subscription_is_due(now as int),
                );
            }
            i += 1;
        }
        assert(self@.subscriptions.take(i as int) =~= self@.subscriptions);
        rows
    }

    /// Finds the row of another subscription to the feed at `feed_url`.
    fn find_other_feed_url(&self, id: Id, feed_url: &String) -> (found: bool)
        ensures
            found == self@.other_has_feed_url(id, feed_url@),
    {
        let mut i: usize = 0;
        while i < self.subscriptions.len()
            invariant
                i <= self.subscriptions.len(),
                forall|j: int|
                    0 <= j < i ==> !((#[trigger] self@.subscriptions[j]).feed_url == feed_url@
                        && self@.subscriptions[j].id != id),
            decreases self.subscriptions.len() - i,
        {
            if self.subscriptions[i].feed_url == *feed_url && self.subscriptions[i].id != id {
                assert(self@.subscriptions[i as int].feed_url == feed_url@);
                return true;
            }
            i += 1;
        }
        false
    }

    /// Overwrites the subscription that has the key of `subscription`.
    pub fn update_subscription(&mut self, subscription: Subscription) -> (r: Result<
        Subscription,
        Error,
    >)
        requires
            old(self)@.wf(),
        ensures
            (final(self)@, outcome(r)) == old(self)@.update_subscription(subscription@),
            final(self)@.wf(),
    {
        let i = match self.find_subscription(subscription.id) {
            Some(i) => i,
            None => {
                return Ok(subscription);
            },
        };
        assert(self@.subscriptions[i as int].id == subscription.id);
        if self.find_other_feed_url(subscription.id, &subscription.feed_url) {
            return Err(Error::UniqueViolation);
        }
        let copy = subscription.clone();
        self.subscriptions.set(i, subscription);
        proof {
            let before = old(self)@;
            let after = self@;
            assert(after.subscriptions =~= before.subscriptions.update(i as int, copy@));
            assert forall|k: int| 0 <= k < before.subscriptions.len() implies after.has_subscription(
                (#[trigger] before.subscriptions[k]).id,
            ) by {
                assert(after.subscriptions[k].id == before.subscriptions[k].id);
            }
            assert forall|k: int| 0 <= k < before.categories.len() implies after.has_category(
                (#[trigger] before.categories[k]).id,
            ) by {
                assert(after.categories[k].id == before.categories[k].id);
            }
            lemma_references_kept(before, after);
            assert forall|a: int, b: int| 0 <= a < b < after.subscriptions.len() implies (
            #[trigger] after.subscriptions[a]).feed_url != (
            #[trigger] after.subscriptions[b]).feed_url by {
                assert(before.subscriptions[a].id != before.subscriptions[b].id);
                if a == i {
                    assert(before.subscriptions[b].feed_url != copy@.feed_url);
                } else if b == i {
                    assert(before.subscriptions[a].feed_url != copy@.feed_url);
                }
            }
        }
        Ok(copy)
    }

    /// Finds the row of the item `id`.
    fn find_item(&self, id: Id) -> (found: Option<usize>)
        ensures
            match found {
                Some(i) => i < self@.items.len() && self@.items[i as int].id == id,
                None => !self@.has_item(id),
            },
    {
        let mut i: usize = 0;
        while i < self.items.len()
            invariant
                i <= self.items.len(),
                forall|j: int| 0 <= j < i ==> (#[trigger] self@.items[j]).id != id,
            decreases self.items.len() - i,
        {
            if self.items[i].id == id {
                return Some(i);
            }
            i += 1;
        }
        None
    }

    /// Stores a new item under the next key.
    pub fn create_item(&mut self, new_item: NewItem) -> (r: Result<Item, Error>)
        requires
            old(self)@.wf(),
        ensures
            (final(self)@, outcome(r)) == old(self)@.create_item(new_item@),
            final(self)@.wf(),
    {
        if self.find_subscription(new_item.subscription_id).is_none() {
            return Err(Error::ForeignKeyViolation);
        }
        if self.last_item_id == i32::MAX {
            return Err(Error::OutOfIds);
        }
        let id = Id::from_raw(self.last_item_id + 1);
        let row = Item {
            id,
            subscription_id: new_item.subscription_id,
            url: new_item.url,
            title: new_item.title,
            author: new_item.author,
            published: new_item.published,
            updated: new_item.updated,
            content: new_item.content,
            is_read: new_item.is_read,
            is_starred: new_item.is_starred,
        };
        let copy = row.clone();
        self.items.push(row);
        self.last_item_id = self.last_item_id + 1;
        proof {
            let before = old(self)@;
            let after = self@;
            assert(after.items =~= before.items.push(copy@));
            assert(after.subscriptions == before.subscriptions);
            assert(after.memberships == before.memberships);
            assert(after.categories == before.categories);
            assert(after.keys_wf());
            assert(after.no_orphans());
            assert forall|i: int| 0 <= i < after.items.len() implies after.has_subscription(
                (#[trigger] after.items[i]).subscription_id,
            ) by {
                if i < before.items.len() {
                    assert(before.has_subscription(before.items[i].subscription_id));
                }
            }
        }
        Ok(copy)
    }

    /// Looks up the item `id`.
    pub fn get_item(&self, id: Id) -> (r: Result<Item, Error>)
        requires
            self@.wf(),
        ensures
            outcome(r) == self@.item(id),
    {
        match self.find_item(id) {
            Some(i) => {
                assert(self@.items[i as int].id == id);
                Ok(self.items[i].clone())
            },
            None => Err(Error::NotFound),
        }
    }

    /// Overwrites the item that has the key of `item`.
    pub fn update_item(&mut self, item: Item) -> (r: Result<Item, Error>)
        requires
            old(self)@.wf(),
        ensures
            (final(self)@, outcome(r)) == old(self)@.update_item(item@),
            final(self)@.wf(),
    {
        let i = match self.find_item(item.id) {
            Some(i) => i,
            None => {
                return Ok(item);
            },
        };
        assert(self@.items[i as int].id == item.id);
        if self.find_subscription(item.subscription_id).is_none() {
            return Err(Error::ForeignKeyViolation);
        }
        let copy = item.clone();
        self.items.set(i, item);
        proof {
            let before = old(self)@;
            let after = self@;
            assert(after.items =~= before.items.update(i as int, copy@));
            assert(after.subscriptions == before.subscriptions);
            assert(after.memberships == before.memberships);
            assert(after.categories == before.categories);
            assert(after.keys_wf());
            assert(after.no_orphans());
            assert forall|k: int| 0 <= k < after.items.len() implies after.has_subscription(
                (#[trigger] after.items[k]).subscription_id,
            ) by {
                if k != i {
                    assert(before.has_subscription(before.items[k].subscription_id));
                }
            }
        }
        Ok(copy)
    }

    /// The items of the subscription `id`, in the order in which they were
    /// stored.
    pub fn get_subscription_items(&self, id: Id) -> (rows: Vec<Item>)
        ensures
            rows.deep_view() == self@.subscription_items(id),
    {
        let mut rows: Vec<Item> = Vec::new();
        let mut i: usize = 0;
        while i < self.items.len()
            invariant
                i <= self.items.len(),
                rows.deep_view() == self@.items.take(i as int).filter(item_of(id)),
            decreases self.items.len() - i,
        {
            let ghost before = rows.deep_view();
            if self.items[i].subscription_id == id {
                rows.push(self.items[i].clone());
                assert(rows.deep_view() =~= before.push(self@.items[i as int]));
            }
            proof {
                lemma_take_next(self@.items, i as int);
                lemma_filter_push(self@.items.take(i as int), self@.items[i as int], item_of(id));
            }
            i += 1;
        }
        assert(self@.items.take(i as int) =~= self@.items);
        rows
    }

    /// Finds the row of the category with the name `name`.
    fn find_category_named(&self, name: &String) -> (found: Option<usize>)
        ensures
            match found {
                Some(i) => i < self@.categories.len() && self@.categories[i as int].name == name@,
                None => !self@.has_category_named(name@),
            },
    {
        let mut i: usize = 0;
        while i < self.categories.len()
            invariant
                i <= self.categories.len(),
                forall|j: int| 0 <= j < i ==> (#[trigger] self@.categories[j]).name != name@,
            decreases self.categories.len() - i,
        {
            if self.categories[i].name == *name {
                return Some(i);
            }
            i += 1;
        }
        None
    }

    /// Tells whether `membership` is stored.
    fn has_membership(&self, membership: SubscriptionCategory) -> (yes: bool)
        ensures
            yes == self@.memberships.contains(membership),
    {
        let mut i: usize = 0;
        while i < self.memberships.len()
            invariant
                i <= self.memberships.len(),
                forall|j: int| 0 <= j < i ==> self@.memberships[j] != membership,
            decreases self.memberships.len() - i,
        {
            if self.memberships[i] == membership {
                assert(self@.memberships[i as int] == membership);
                return true;
            }
            i += 1;
        }
        false
    }

    /// Tells whether the category `id` has a member.
    fn category_has_member(&self, id: Id) -> (yes: bool)
        ensures
            yes == has_member(self@.memberships, id),
    {
        let mut i: usize = 0;
        while i < self.memberships.len()
            invariant
                i <= self.memberships.len(),
                forall|j: int| 0 <= j < i ==> (#[trigger] self@.memberships[j]).category_id != id,
            decreases self.memberships.len() - i,
        {
            if self.memberships[i].category_id == id {
                return true;
            }
            i += 1;
        }
        false
    }

    /// Deletes one membership.
    fn delete_membership(&mut self, membership: SubscriptionCategory)
        ensures
            final(self)@ == (Tables {
                memberships: old(self)@.memberships.filter(membership_is_not(membership)),
                ..old(self)@
            }),
    {
        let mut kept: Vec<SubscriptionCategory> = Vec::new();
        let mut i: usize = 0;
        while i < self.memberships.len()
            invariant
                i <= self.memberships.len(),
                kept@ == self@.memberships.take(i as int).filter(membership_is_not(membership)),
            decreases self.memberships.len() - i,
        {
            if self.memberships[i] != membership {
                kept.push(self.memberships[i]);
            }
            proof {
                lemma_take_next(self@.memberships, i as int);
                lemma_filter_push(
                    self@.memberships.take(i as int),
                    self@.memberships[i as int],
                    membership_is_not(membership),
                );
            }
            i += 1;
        }
        assert(self@.memberships.take(i as int) =~= self@.memberships);
        self.memberships = kept;
    }

    /// Deletes the memberships of the subscription `id`.
    fn delete_memberships_of(&mut self, id: Id)
        ensures
            final(self)@ == (Tables {
                memberships: old(self)@.memberships.filter(membership_not_of(id)),
                ..old(self)@
            }),
    {
        let mut kept: Vec<SubscriptionCategory> = Vec::new();
        let mut i: usize = 0;
        while i < self.memberships.len()
            invariant
                i <= self.memberships.len(),
                kept@ == self@.memberships.take(i as int).filter(membership_not_of(id)),
            decreases self.memberships.len() - i,
        {
            if self.memberships[i].subscription_id != id {
                kept.push(self.memberships[i]);
            }
            proof {
                lemma_take_next(self@.memberships, i as int);
                lemma_filter_push(
                    self@.memberships.take(i as int),
                    self@.memberships[i as int],
                    membership_not_of(id),
                );
            }
            i += 1;
        }
        assert(self@.memberships.take(i as int) =~= self@.memberships);
        self.memberships = kept;
    }

    /// Deletes the category `id`.
    fn delete_category(&mut self, id: Id)
        ensures
            final(self)@ == (Tables {
                categories: old(self)@.categories.filter(category_is_not(id)),
                ..old(self)@
            }),
    {
        let mut kept: Vec<Category> = Vec::new();
        let mut i: usize = 0;
        while i < self.categories.len()
            invariant
                i <= self.categories.len(),
                kept.deep_view() == self@.categories.take(i as int).filter(category_is_not(id)),
            decreases self.categories.len() - i,
        {
            let ghost before = kept.deep_view();
            if self.categories[i].id != id {
                kept.push(self.categories[i].clone());
                assert(kept.deep_view() =~= before.push(self@.categories[i as int]));
            }
            proof {
                lemma_take_next(self@.categories, i as int);
                lemma_filter_push(
                    self@.categories.take(i as int),
                    self@.categories[i as int],
                    category_is_not(id),
                );
            }
            i += 1;
        }
        assert(self@.categories.take(i as int) =~= self@.categories);
        self.categories = kept;
    }

    /// Deletes the categories that have no member.
    fn delete_unused_categories(&mut self)
        ensures
            final(self)@ == (Tables {
                categories: old(self)@.categories.filter(category_in_use(old(self)@.memberships)),
                ..old(self)@
            }),
    {
        let mut kept: Vec<Category> = Vec::new();
        let mut i: usize = 0;
        while i < self.categories.len()
            invariant
                i <= self.categories.len(),
                kept.deep_view() == self@.categories.take(i as int).filter(
                    category_in_use(self@.memberships),
                ),
            decreases self.categories.len() - i,
        {
            let ghost before = kept.deep_view();
            if self.category_has_member(self.categories[i].id) {
                kept.push(self.categories[i].clone());
                assert(kept.deep_view() =~= before.push(self@.categories[i as int]));
            }
            proof {
                lemma_take_next(self@.categories, i as int);
                lemma_filter_push(
                    self@.categories.take(i as int),
                    self@.categories[i as int],
                    category_in_use(self@.memberships),
                );
            }
            i += 1;
        }
        assert(self@.categories.take(i as int) =~= self@.categories);
        self.categories = kept;
    }

    /// Deletes the items of the subscription `id`.
    fn delete_items_of(&mut self, id: Id)
        ensures
            final(self)@ == (Tables {
                items: old(self)@.items.filter(item_not_of(id)),
                ..old(self)@
            }),
    {
        let mut kept: Vec<Item> = Vec::new();
        let mut i: usize = 0;
        while i < self.items.len()
            invariant
                i <= self.items.len(),
                kept.deep_view() == self@.items.take(i as int).filter(item_not_of(id)),
            decreases self.items.len() - i,
        {
            let ghost before = kept.deep_view();
            if self.items[i].subscription_id != id {
                kept.push(self.items[i].clone());
                assert(kept.deep_view() =~= before.push(self@.items[i as int]));
            }
            proof {
                lemma_take_next(self@.items, i as int);
                lemma_filter_push(self@.items.take(i as int), self@.items[i as int], item_not_of(id));
            }
            i += 1;
        }
        assert(self@.items.take(i as int) =~= self@.items);
        self.items = kept;
    }

    /// Deletes the row of the subscription `id`.
    fn delete_subscription_row(&mut self, id: Id)
        ensures
            final(self)@ == (Tables {
                subscriptions: old(self)@.subscriptions.filter(subscription_is_not(id)),
                ..old(self)@
            }),
    {
        let mut kept: Vec<Subscription> = Vec::new();
        let mut i: usize = 0;
        while i < self.subscriptions.len()
            invariant
                i <= self.subscriptions.len(),
                kept.deep_view() == self@.subscriptions.take(i as int).filter(
                    subscription_is_not(id),
                ),
            decreases self.subscriptions.len() - i,
        {
            let ghost before = kept.deep_view();
            if self.subscriptions[i].id != id {
                kept.push(self.subscriptions[i].clone());
                assert(kept.deep_view() =~= before.push(self@.subscriptions[i as int]));
            }
            proof {
                lemma_take_next(self@.subscriptions, i as int);
                lemma_filter_push(
                    self@.subscriptions.take(i as int),
                    self@.subscriptions[i as int],
                    subscription_is_not(id),
                );
            }
            i += 1;
        }
        assert(self@.subscriptions.take(i as int) =~= self@.subscriptions);
        self.subscriptions = kept;
    }

    /// Removes a subscription together with its memberships and its items,
    /// and with every category that is left without a member.
    pub fn remove_subscription(&mut self, id: Id) -> (r: Result<(), Error>)
        requires
            old(self)@.wf(),
        ensures
            r is Ok,
            final(self)@ == old(self)@.remove_subscription(id),
            final(self)@.wf(),
    {
        self.delete_memberships_of(id);
        self.delete_unused_categories();
        self.delete_items_of(id);
        self.delete_subscription_row(id);
        proof {
            lemma_remove_subscription(old(self)@, id);
        }
        Ok(())
    }

    /// Stores a new category under the next key.
    fn create_category(&mut self, new_category: NewCategory) -> (row: Category)
        requires
            old(self)@.last_category_id < i32::MAX,
        ensures
            row@ == (CategoryView {
                id: Id((old(self)@.last_category_id + 1) as i32),
                name: new_category.name@,
            }),
            final(self)@ == (Tables {
                categories: old(self)@.categories.push(row@),
                last_category_id: old(self)@.last_category_id + 1,
                ..old(self)@
            }),
    {
        let id = Id::from_raw(self.last_category_id + 1);
        let row = Category { id, name: new_category.name.to_owned() };
        let copy = row.clone();
        self.categories.push(row);
        self.last_category_id = self.last_category_id + 1;
        assert(self@.categories =~= old(self)@.categories.push(copy@));
        copy
    }

    /// The category of a name, which is made where there is none yet.
    fn get_or_create_category(&mut self, name: &str) -> (r: Result<Category, Error>)
        requires
            old(self)@.keys_wf(),
        ensures
            old(self)@.has_category_named(name@) ==> final(self)@ == old(self)@ && outcome(r)
                == Ok::<CategoryView, Error>(
                old(self)@.categories[old(self)@.category_index(name@)],
            ),
            !old(self)@.has_category_named(name@) && old(self)@.last_category_id >= i32::MAX
                ==> final(self)@ == old(self)@ && r is Err && r->Err_0 == Error::OutOfIds,
            !old(self)@.has_category_named(name@) && old(self)@.last_category_id < i32::MAX ==> r
                is Ok && r->Ok_0@ == (CategoryView {
                id: Id((old(self)@.last_category_id + 1) as i32),
                name: name@,
            }) && final(self)@ == (Tables {
                categories: old(self)@.categories.push(r->Ok_0@),
                last_category_id: old(self)@.last_category_id + 1,
                ..old(self)@
            }),
    {
        let wanted = name.to_owned();
        match self.find_category_named(&wanted) {
            Some(c) => {
                assert(self@.categories[c as int].name == name@);
                Ok(self.categories[c].clone())
            },
            None => {
                if self.last_category_id == i32::MAX {
                    return Err(Error::OutOfIds);
                }
                Ok(self.create_category(NewCategory { name }))
            },
        }
    }

    /// Stores a membership, unless it is stored.
    fn insert_membership(&mut self, new_membership: NewSubscriptionCategory)
        ensures
            ({
                let membership = SubscriptionCategory {
                    subscription_id: *new_membership.subscription_id,
                    category_id: *new_membership.category_id,
                };
                final(self)@ == if old(self)@.memberships.contains(membership) {
                    old(self)@
                } else {
                    Tables { memberships: old(self)@.memberships.push(membership), ..old(self)@ }
                }
            }),
    {
        let membership = SubscriptionCategory {
            subscription_id: *new_membership.subscription_id,
            category_id: *new_membership.category_id,
        };
        if !self.has_membership(membership) {
            self.memberships.push(membership);
        }
    }

    /// Files a subscription under the category of a name, which is made
    /// where there is none yet. The category is returned.
    pub fn subscription_add_category(&mut self, subscription_id: Id, category: String) -> (r: Result<
        Category,
        Error,
    >)
        requires
            old(self)@.wf(),
        ensures
            (final(self)@, outcome(r)) == old(self)@.add_category(subscription_id, category@),
            final(self)@.wf(),
    {
        proof {
            lemma_add_category(self@, subscription_id, category@);
        }
        if self.find_subscription(subscription_id).is_none() {
            return Err(Error::ForeignKeyViolation);
        }
        let row = match self.get_or_create_category(category.as_str()) {
            Ok(row) => row,
            Err(e) => {
                return Err(e);
            },
        };
        proof {
            if !old(self)@.has_category_named(category@) {
                let membership = SubscriptionCategory { subscription_id, category_id: row.id };
                assert forall|i: int| 0 <= i < self@.memberships.len() implies self@.memberships[i]
                    != membership by {
                    let cid = old(self)@.memberships[i].category_id;
                    assert(old(self)@.has_category(cid));
                    let c = choose|c: int|
                        0 <= c < old(self)@.categories.len() && (
                        #[trigger] old(self)@.categories[c]).id == cid;
                    assert(cid@ <= old(self)@.last_category_id);
                }
            }
        }
        self.insert_membership(
            NewSubscriptionCategory { subscription_id: &subscription_id, category_id: &row.id },
        );
        Ok(row)
    }

    /// Takes a subscription out of the category of a name, and removes the
    /// category where no member is left.
    pub fn subscription_remove_category(&mut self, subscription_id: Id, category: String) -> (r:
        Result<(), Error>)
        requires
            old(self)@.wf(),
        ensures
            r is Ok,
            final(self)@ == old(self)@.remove_category(subscription_id, category@),
            final(self)@.wf(),
    {
        proof {
            lemma_remove_category(self@, subscription_id, category@);
        }
        match self.find_category_named(&category) {
            Some(c) => {
                assert(self@.categories[c as int].name == category@);
                let category_id = self.categories[c].id;
                self.delete_membership(SubscriptionCategory { subscription_id, category_id });
                if !self.category_has_member(category_id) {
                    self.delete_category(category_id);
                }
            },
            None => {},
        }
        Ok(())
    }

    /// The categories that a subscription is a member of.
    pub fn get_subscription_categories(&self, subscription_id: Id) -> (rows: Vec<Category>)
        ensures
            rows.deep_view() == self@.subscription_categories(subscription_id),
    {
        let mut rows: Vec<Category> = Vec::new();
        let mut i: usize = 0;
        while i < self.categories.len()
            invariant
                i <= self.categories.len(),
                rows.deep_view() == self@.categories.take(i as int).filter(
                    category_of(self@.memberships, subscription_id),
                ),
            decreases self.categories.len() - i,
        {
            let ghost before = rows.deep_view();
            let membership = SubscriptionCategory {
                subscription_id,
                category_id: self.categories[i].id,
            };
            if self.has_membership(membership) {
                rows.push(self.categories[i].clone());
                assert(rows.deep_view() =~= before.push(self@.categories[i as int]));
            }
            proof {
                lemma_take_next(self@.categories, i as int);
                lemma_filter_push(
                    self@.categories.take(i as int),
                    self@.categories[i as int],
                    category_of(self@.memberships, subscription_id),
                );
            }
            i += 1;
        }
        assert(self@.categories.take(i as int) =~= self@.categories);
        rows
    }

    /// Puts off the subscription `id`: its row gets another time of refresh
    /// and another count of failures, and keeps the rest.
    pub fn reschedule(&mut self, id: Id, next_refresh: Timestamp, error_count: u32) -> (r: Result<
        Subscription,
        Error,
    >)
        requires
            old(self)@.wf(),
        ensures
            (final(self)@, outcome(r)) == old(self)@.reschedule(
                id,
                next_refresh as int,
                error_count as nat,
            ),
            final(self)@.wf(),
    {
        proof {
            lemma_reschedule(self@, id, next_refresh as int, error_count as nat);
        }
        let i = match self.find_subscription(id) {
            Some(i) => i,
            None => {
                return Err(Error::NotFound);
            },
        };
        assert(self@.subscriptions[i as int].id == id);
        let mut row = self.subscriptions[i].clone();
        row.next_refresh = next_refresh;
        row.error_count = error_count;
        let copy = row.clone();
        self.subscriptions.set(i, row);
        assert(self@.subscriptions =~= old(self)@.subscriptions.update(i as int, copy@));
        Ok(copy)
    }

    /// Gives the subscription `id` another title.
    pub fn transform_subscription(&mut self, id: Id, title: String) -> (r: Result<Subscription, Error>)
        requires
            old(self)@.wf(),
        ensures
            (final(self)@, outcome(r)) == old(self)@.rename_subscription(id, title@),
            final(self)@.wf(),
    {
        let i = match self.find_subscription(id) {
            Some(i) => i,
            None => {
                return Err(Error::NotFound);
            },
        };
        assert(self@.subscriptions[i as int].id == id);
        let mut row = self.subscriptions[i].clone();
        row.title = title;
        let copy = row.clone();
        self.subscriptions.set(i, row);
        proof {
            let before = old(self)@;
            let after = self@;
            assert(after.subscriptions =~= before.subscriptions.update(i as int, copy@));
            assert(after.memberships == before.memberships);
            assert(after.categories == before.categories);
            assert(after.items == before.items);
            assert forall|k: int| 0 <= k < before.subscriptions.len() implies after.has_subscription(
                (#[trigger] before.subscriptions[k]).id,
            ) by {
                assert(after.subscriptions[k].id == before.subscriptions[k].id);
            }
            assert forall|k: int| 0 <= k < before.categories.len() implies after.has_category(
                (#[trigger] before.categories[k]).id,
            ) by {
                assert(after.categories[k].id == before.categories[k].id);
            }
            lemma_references_kept(before, after);
            assert(after.keys_wf());
            assert(after.no_orphans());
        }
        Ok(copy)
    }

    /// The items whose flags are as asked, `max_items` of them at most. A
    /// flag that is `None` is not looked at.
    pub fn find_items(&self, read: Option<bool>, starred: Option<bool>, max_items: usize) -> (rows:
        Vec<Item>)
        ensures
            rows.deep_view() == self@.find_items(read, starred, max_items as nat),
    {
        let ghost keep = item_flagged(read, starred);
        let mut rows: Vec<Item> = Vec::new();
        let mut i: usize = 0;
        while i < self.items.len() && rows.len() < max_items
            invariant
                i <= self.items.len(),
                rows.len() <= max_items,
                keep == item_flagged(read, starred),
                rows.deep_view() == self@.items.take(i as int).filter(keep),
            decreases self.items.len() - i,
        {
            let ghost before = rows.deep_view();
            let by_read = match read {
                Some(flag) => self.items[i].is_read == flag,
                None => true,
            };
            let by_starred = match starred {
                Some(flag) => self.items[i].is_starred == flag,
                None => true,
            };
            if by_read && by_starred {
                rows.push(self.items[i].clone());
                assert(rows.deep_view() =~= before.push(self@.items[i as int]));
            }
            proof {
                lemma_take_next(self@.items, i as int);
                lemma_filter_push(self@.items.take(i as int), self@.items[i as int], keep);
            }
            i += 1;
        }
        proof {
            let all = self@.items;
            let head = all.take(i as int);
            let tail = all.skip(i as int);
            assert(head + tail =~= all);
            Seq::filter_distributes_over_add(head, tail, keep);
            if i < self.items.len() {
                assert(all.filter(keep).take(max_items as int) =~= head.filter(keep));
            } else {
                assert(tail.filter(keep) =~= Seq::empty()) by {
                    tail.lemma_filter_len(keep);
                }
                assert(all.filter(keep) =~= head.filter(keep));
            }
        }
        rows
    }

    /// Tells whether `id` is among `ids`.
    fn id_among(ids: &Vec<Id>, id: Id) -> (yes: bool)
        ensures
            yes == ids@.contains(id),
    {
        let mut i: usize = 0;
        while i < ids.len()
            invariant
                i <= ids.len(),
                forall|j: int| 0 <= j < i ==> ids@[j] != id,
            decreases ids.len() - i,
        {
            if ids[i] == id {
                assert(ids@[i as int] == id);
                return true;
            }
            i += 1;
        }
        false
    }

    /// The items whose key is among `item_ids`, each with the subscription
    /// that it belongs to.
    pub fn get_items_and_subscriptions(&self, item_ids: Vec<Id>) -> (rows: Vec<(Item, Subscription)>)
        requires
            self@.wf(),
        ensures
            rows.deep_view() == self@.items_and_subscriptions(item_ids@),
    {
        let ghost keep = item_among(item_ids@);
        let ghost pair = self@.with_subscription();
        let mut rows: Vec<(Item, Subscription)> = Vec::new();
        let mut i: usize = 0;
        while i < self.items.len()
            invariant
                i <= self.items.len(),
                self@.wf(),
                keep == item_among(item_ids@),
                pair == self@.with_subscription(),
                rows.deep_view() == self@.items.take(i as int).filter(keep).map_values(pair),
            decreases self.items.len() - i,
        {
            let ghost before = rows.deep_view();
            let ghost kept = self@.items.take(i as int).filter(keep);
            if Self::id_among(&item_ids, self.items[i].id) {
                assert(self@.has_subscription(self@.items[i as int].subscription_id));
                match self.find_subscription(self.items[i].subscription_id) {
                    Some(k) => {
                        rows.push((self.items[i].clone(), self.subscriptions[k].clone()));
                        assert(self@.subscriptions[k as int].id
                            == self@.items[i as int].subscription_id);
                        assert(rows.deep_view() =~= before.push(pair(self@.items[i as int])));
                        assert(kept.push(self@.items[i as int]).map_values(pair) =~= before.push(
                            pair(self@.items[i as int]),
                        ));
                    },
                    None => {},
                }
            }
            proof {
                lemma_take_next(self@.items, i as int);
                lemma_filter_push(self@.items.take(i as int), self@.items[i as int], keep);
            }
            i += 1;
        }
        assert(self@.items.take(i as int) =~= self@.items);
        rows
    }
}

} // verus!
