//! The four tables as mathematical values, their invariant, and what each
//! operation of the store makes of them.

use vstd::prelude::*;

use crate::db::models::{
    CategoryView, ItemView, NewItemView, NewSubscriptionView, SubscriptionCategory,
    SubscriptionView,
};
use crate::db::Id;
use crate::lemmas::{lemma_filter_keeps, lemma_filter_member, lemma_filter_order};

verus! {

/// Why the store refuses an operation.
#[derive(Debug, Clone, Copy, PartialEq, Eq, Structural)]
pub enum Error {
    /// No row has the key that was asked for.
    NotFound,
    /// Another subscription already has this feed address.
    UniqueViolation,
    /// The row refers to a subscription that does not exist.
    ForeignKeyViolation,
    /// The table has used up its keys.
    OutOfIds,
}

impl Error {
    /// The reason, as text.
    pub open spec fn reason(self) -> Seq<char> {
        match self {
            Error::NotFound => "Record not found"@,
            Error::UniqueViolation => "Unique constraint violated"@,
            Error::ForeignKeyViolation => "Foreign key constraint violated"@,
            Error::OutOfIds => "No key left"@,
        }
    }

    /// The reason, for a person to read.
    pub fn message(&self) -> (text: String)
        ensures
            text@ == self.reason(),
    {
        match self {
            Error::NotFound => "Record not found".to_owned(),
            Error::UniqueViolation => "Unique constraint violated".to_owned(),
            Error::ForeignKeyViolation => "Foreign key constraint violated".to_owned(),
            Error::OutOfIds => "No key left".to_owned(),
        }
    }
}

/// The state of the store.
pub ghost struct Tables {
    pub subscriptions: Seq<SubscriptionView>,
    pub categories: Seq<CategoryView>,
    pub memberships: Seq<SubscriptionCategory>,
    pub items: Seq<ItemView>,
    /// The highest key ever given to a subscription, a category, an item.
    pub last_subscription_id: int,
    pub last_category_id: int,
    pub last_item_id: int,
}

/// Keeps the subscriptions other than `id`.
pub open spec fn subscription_is_not(id: Id) -> spec_fn(SubscriptionView) -> bool {
    |s: SubscriptionView| s.id != id
}

/// Keeps the subscriptions that are due at `now`.
pub open spec fn subscription_is_due(now: int) -> spec_fn(SubscriptionView) -> bool {
    |s: SubscriptionView| s.next_refresh <= now
}

/// Keeps the categories other than `id`.
pub open spec fn category_is_not(id: Id) -> spec_fn(CategoryView) -> bool {
    |c: CategoryView| c.id != id
}

/// Keeps the memberships of subscriptions other than `id`.
pub open spec fn membership_not_of(id: Id) -> spec_fn(SubscriptionCategory) -> bool {
    |m: SubscriptionCategory| m.subscription_id != id
}

/// Keeps the memberships other than `membership`.
pub open spec fn membership_is_not(membership: SubscriptionCategory) -> spec_fn(
    SubscriptionCategory,
) -> bool {
    |m: SubscriptionCategory| m != membership
}

/// Keeps the items of the subscription `id`.
pub open spec fn item_of(id: Id) -> spec_fn(ItemView) -> bool {
    |i: ItemView| i.subscription_id == id
}

/// Keeps the items of subscriptions other than `id`.
pub open spec fn item_not_of(id: Id) -> spec_fn(ItemView) -> bool {
    |i: ItemView| i.subscription_id != id
}

/// Tells whether some membership is one in the category `id`.
pub open spec fn has_member(memberships: Seq<SubscriptionCategory>, id: Id) -> bool {
    exists|i: int| 0 <= i < memberships.len() && (#[trigger] memberships[i]).category_id == id
}

/// Keeps the categories that have a member.
pub open spec fn category_in_use(memberships: Seq<SubscriptionCategory>) -> spec_fn(
    CategoryView,
) -> bool {
    |c: CategoryView| has_member(memberships, c.id)
}

/// Keeps the categories that `subscription_id` is a member of.
pub open spec fn category_of(
    memberships: Seq<SubscriptionCategory>,
    subscription_id: Id,
) -> spec_fn(CategoryView) -> bool {
    |c: CategoryView|
        memberships.contains(SubscriptionCategory { subscription_id, category_id: c.id })
}

/// Keeps the items whose key is among `ids`.
pub open spec fn item_among(ids: Seq<Id>) -> spec_fn(ItemView) -> bool {
    |i: ItemView| ids.contains(i.id)
}

/// Keeps the items whose flags are as asked; a flag that is not asked for
/// is not looked at.
pub open spec fn item_flagged(read: Option<bool>, starred: Option<bool>) -> spec_fn(
    ItemView,
) -> bool {
    |i: ItemView|
        (read matches Some(flag) ==> i.is_read == flag) && (starred matches Some(flag)
            ==> i.is_starred == flag)
}

/// The key of a subscription.
pub open spec fn subscription_key() -> spec_fn(SubscriptionView) -> Id {
    |s: SubscriptionView| s.id
}

/// The key of a category.
pub open spec fn category_key() -> spec_fn(CategoryView) -> Id {
    |c: CategoryView| c.id
}

/// The key of an item.
pub open spec fn item_key() -> spec_fn(ItemView) -> Id {
    |i: ItemView| i.id
}

/// The highest of the keys, or zero where none is above it.
pub open spec fn highest(ids: Seq<Id>) -> int
    decreases ids.len(),
{
    if ids.len() == 0 {
        0
    } else {
        let rest = highest(ids.drop_last());
        if ids.last()@ > rest {
            ids.last()@
        } else {
            rest
        }
    }
}

/// No key is above the highest.
pub proof fn lemma_highest(ids: Seq<Id>, i: int)
    requires
        0 <= i < ids.len(),
    ensures
        ids[i]@ <= highest(ids),
    decreases ids.len(),
{
    if i < ids.len() - 1 {
        lemma_highest(ids.drop_last(), i);
    }
}

/// The highest key is none that the machine cannot hold.
pub proof fn lemma_highest_bounds(ids: Seq<Id>)
    ensures
        0 <= highest(ids) <= i32::MAX,
    decreases ids.len(),
{
    if ids.len() > 0 {
        lemma_highest_bounds(ids.drop_last());
    }
}

impl Tables {
    /// The store with nothing in it.
    pub open spec fn empty() -> Tables {
        Tables {
            subscriptions: Seq::empty(),
            categories: Seq::empty(),
            memberships: Seq::empty(),
            items: Seq::empty(),
            last_subscription_id: 0,
            last_category_id: 0,
            last_item_id: 0,
        }
    }

    /// Tells whether a subscription has the key `id`.
    pub open spec fn has_subscription(self, id: Id) -> bool {
        exists|i: int|
            0 <= i < self.subscriptions.len() && (#[trigger] self.subscriptions[i]).id == id
    }

    /// Tells whether a subscription has the feed address `feed_url`.
    pub open spec fn has_feed_url(self, feed_url: Seq<char>) -> bool {
        exists|i: int|
            0 <= i < self.subscriptions.len() && (#[trigger] self.subscriptions[i]).feed_url
                == feed_url
    }

    /// Tells whether a subscription other than `id` has the feed address
    /// `feed_url`.
    pub open spec fn other_has_feed_url(self, id: Id, feed_url: Seq<char>) -> bool {
        exists|i: int|
            0 <= i < self.subscriptions.len() && (#[trigger] self.subscriptions[i]).feed_url
                == feed_url && self.subscriptions[i].id != id
    }

    /// Tells whether a category has the key `id`.
    pub open spec fn has_category(self, id: Id) -> bool {
        exists|i: int| 0 <= i < self.categories.len() && (#[trigger] self.categories[i]).id == id
    }

    /// Tells whether a category has the name `name`.
    pub open spec fn has_category_named(self, name: Seq<char>) -> bool {
        exists|i: int|
            0 <= i < self.categories.len() && (#[trigger] self.categories[i]).name == name
    }

    /// Tells whether an item has the key `id`.
    pub open spec fn has_item(self, id: Id) -> bool {
        exists|i: int| 0 <= i < self.items.len() && (#[trigger] self.items[i]).id == id
    }

    /// The keys are within what was given out, and no key, feed address,
    /// category name or membership occurs twice.
    pub open spec fn keys_wf(self) -> bool {
        &&& 0 <= self.last_subscription_id <= i32::MAX
        &&& 0 <= self.last_category_id <= i32::MAX
        &&& 0 <= self.last_item_id <= i32::MAX
        &&& forall|i: int|
            0 <= i < self.subscriptions.len() ==> (#[trigger] self.subscriptions[i]).id@
                <= self.last_subscription_id
        &&& forall|i: int, j: int|
            0 <= i < j < self.subscriptions.len() ==> (#[trigger] self.subscriptions[i]).id != (
            #[trigger] self.subscriptions[j]).id
        &&& forall|i: int, j: int|
            0 <= i < j < self.subscriptions.len() ==> (#[trigger] self.subscriptions[i]).feed_url
                != (#[trigger] self.subscriptions[j]).feed_url
        &&& forall|i: int|
            0 <= i < self.categories.len() ==> (#[trigger] self.categories[i]).id@
                <= self.last_category_id
        &&& forall|i: int, j: int|
            0 <= i < j < self.categories.len() ==> (#[trigger] self.categories[i]).id != (
            #[trigger] self.categories[j]).id
        &&& forall|i: int, j: int|
            0 <= i < j < self.categories.len() ==> (#[trigger] self.categories[i]).name != (
            #[trigger] self.categories[j]).name
        &&& forall|i: int, j: int|
            0 <= i < j < self.memberships.len() ==> #[trigger] self.memberships[i]
                != #[trigger] self.memberships[j]
        &&& forall|i: int|
            0 <= i < self.items.len() ==> (#[trigger] self.items[i]).id@ <= self.last_item_id
        &&& forall|i: int, j: int|
            0 <= i < j < self.items.len() ==> (#[trigger] self.items[i]).id != (
            #[trigger] self.items[j]).id
    }

    /// Every membership joins a subscription and a category that exist, and
    /// every item belongs to a subscription that exists.
    pub open spec fn references_wf(self) -> bool {
        &&& forall|i: int|
            0 <= i < self.memberships.len() ==> self.has_subscription(
                (#[trigger] self.memberships[i]).subscription_id,
            ) && self.has_category(self.memberships[i].category_id)
        &&& forall|i: int|
            0 <= i < self.items.len() ==> self.has_subscription(
                (#[trigger] self.items[i]).subscription_id,
            )
    }

    /// Every category has a member.
    pub open spec fn no_orphans(self) -> bool {
        forall|i: int|
            0 <= i < self.categories.len() ==> has_member(
                self.memberships,
                (#[trigger] self.categories[i]).id,
            )
    }

    /// The invariant of the store.
    pub open spec fn wf(self) -> bool {
        &&& self.keys_wf()
        &&& self.references_wf()
        &&& self.no_orphans()
    }

    /// The tables with the given rows, as they are read back from where
    /// they were kept: the highest key of each table is the highest that
    /// occurs in it, or zero.
    pub open spec fn restored(
        subscriptions: Seq<SubscriptionView>,
        categories: Seq<CategoryView>,
        memberships: Seq<SubscriptionCategory>,
        items: Seq<ItemView>,
    ) -> Tables {
        Tables {
            subscriptions,
            categories,
            memberships,
            items,
            last_subscription_id: highest(subscriptions.map_values(subscription_key())),
            last_category_id: highest(categories.map_values(category_key())),
            last_item_id: highest(items.map_values(item_key())),
        }
    }

    /// The position of the subscription with the key `id`.
    pub open spec fn subscription_index(self, id: Id) -> int {
        choose|i: int|
            0 <= i < self.subscriptions.len() && (#[trigger] self.subscriptions[i]).id == id
    }

    /// The position of the category with the name `name`.
    pub open spec fn category_index(self, name: Seq<char>) -> int {
        choose|i: int|
            0 <= i < self.categories.len() && (#[trigger] self.categories[i]).name == name
    }

    /// The position of the item with the key `id`.
    pub open spec fn item_index(self, id: Id) -> int {
        choose|i: int| 0 <= i < self.items.len() && (#[trigger] self.items[i]).id == id
    }

    /// What looking up the subscription `id` gives.
    pub open spec fn subscription(self, id: Id) -> Result<SubscriptionView, Error> {
        if self.has_subscription(id) {
            Ok(self.subscriptions[self.subscription_index(id)])
        } else {
            Err(Error::NotFound)
        }
    }

    /// What looking up the item `id` gives.
    pub open spec fn item(self, id: Id) -> Result<ItemView, Error> {
        if self.has_item(id) {
            Ok(self.items[self.item_index(id)])
        } else {
            Err(Error::NotFound)
        }
    }

    /// The subscriptions that are due at `now`.
    pub open spec fn outdated(self, now: int) -> Seq<SubscriptionView> {
        self.subscriptions.filter(subscription_is_due(now))
    }

    /// The items of the subscription `id`.
    pub open spec fn subscription_items(self, id: Id) -> Seq<ItemView> {
        self.items.filter(item_of(id))
    }

    /// The categories that the subscription `id` is a member of.
    pub open spec fn subscription_categories(self, id: Id) -> Seq<CategoryView> {
        self.categories.filter(category_of(self.memberships, id))
    }

    /// Puts an item beside the subscription that it belongs to.
    pub open spec fn with_subscription(self) -> spec_fn(ItemView) -> (ItemView, SubscriptionView) {
        |i: ItemView| (i, self.subscriptions[self.subscription_index(i.subscription_id)])
    }

    /// The items whose key is among `ids`, each with its subscription.
    pub open spec fn items_and_subscriptions(self, ids: Seq<Id>) -> Seq<
        (ItemView, SubscriptionView),
    > {
        self.items.filter(item_among(ids)).map_values(self.with_subscription())
    }

    /// The first `max_items` of the items whose flags are as asked.
    pub open spec fn find_items(
        self,
        read: Option<bool>,
        starred: Option<bool>,
        max_items: nat,
    ) -> Seq<ItemView> {
        let found = self.items.filter(item_flagged(read, starred));
        if found.len() <= max_items {
            found
        } else {
            found.take(max_items as int)
        }
    }

    /// Putting off a subscription: its row gets another time of refresh
    /// and another count of failures, and keeps the rest; refused where no
    /// row has the key.
    pub open spec fn reschedule(self, id: Id, next_refresh: int, error_count: nat) -> (
        Tables,
        Result<SubscriptionView, Error>,
    ) {
        if !self.has_subscription(id) {
            (self, Err(Error::NotFound))
        } else {
            let i = self.subscription_index(id);
            let row = SubscriptionView { next_refresh, error_count, ..self.subscriptions[i] };
            (Tables { subscriptions: self.subscriptions.update(i, row), ..self }, Ok(row))
        }
    }

    /// Giving a subscription another title: refused where no row has the
    /// key.
    pub open spec fn rename_subscription(self, id: Id, title: Seq<char>) -> (
        Tables,
        Result<SubscriptionView, Error>,
    ) {
        if !self.has_subscription(id) {
            (self, Err(Error::NotFound))
        } else {
            let i = self.subscription_index(id);
            let row = SubscriptionView { title, ..self.subscriptions[i] };
            (Tables { subscriptions: self.subscriptions.update(i, row), ..self }, Ok(row))
        }
    }

    /// Storing a new subscription: refused where its feed address is taken
    /// or the keys are used up; else it is appended under the next key, with
    /// no failed attempt counted.
    pub open spec fn create_subscription(self, new: NewSubscriptionView) -> (
        Tables,
        Result<SubscriptionView, Error>,
    ) {
        if self.has_feed_url(new.feed_url) {
            (self, Err(Error::UniqueViolation))
        } else if self.last_subscription_id >= i32::MAX {
            (self, Err(Error::OutOfIds))
        } else {
            let row = SubscriptionView {
                id: Id((self.last_subscription_id + 1) as i32),
                feed_url: new.feed_url,
                title: new.title,
                site_url: new.site_url,
                next_refresh: new.next_refresh,
                error_count: 0,
            };
            (
                Tables {
                    subscriptions: self.subscriptions.push(row),
                    last_subscription_id: self.last_subscription_id + 1,
                    ..self
                },
                Ok(row),
            )
        }
    }

    /// Removing a subscription: its memberships and its items go with it,
    /// and so does every category that is left without a member.
    pub open spec fn remove_subscription(self, id: Id) -> Tables {
        let memberships = self.memberships.filter(membership_not_of(id));
        Tables {
            subscriptions: self.subscriptions.filter(subscription_is_not(id)),
            categories: self.categories.filter(category_in_use(memberships)),
            memberships,
            items: self.items.filter(item_not_of(id)),
            ..self
        }
    }

    /// Overwriting a subscription: nothing happens where no row has its
    /// key; it is refused where another row has its feed address.
    pub open spec fn update_subscription(self, row: SubscriptionView) -> (
        Tables,
        Result<SubscriptionView, Error>,
    ) {
        if !self.has_subscription(row.id) {
            (self, Ok(row))
        } else if self.other_has_feed_url(row.id, row.feed_url) {
            (self, Err(Error::UniqueViolation))
        } else {
            (
                Tables {
                    subscriptions: self.subscriptions.update(self.subscription_index(row.id), row),
                    ..self
                },
                Ok(row),
            )
        }
    }

    /// Filing a subscription under a name: refused where the subscription
    /// does not exist, or where the name is new and the keys are used up.
    /// The category is made where none has the name, and the membership is
    /// added unless it is there.
    pub open spec fn add_category(self, subscription_id: Id, name: Seq<char>) -> (
        Tables,
        Result<CategoryView, Error>,
    ) {
        if !self.has_subscription(subscription_id) {
            (self, Err(Error::ForeignKeyViolation))
        } else if self.has_category_named(name) {
            let category = self.categories[self.category_index(name)];
            let membership = SubscriptionCategory { subscription_id, category_id: category.id };
            if self.memberships.contains(membership) {
                (self, Ok(category))
            } else {
                (Tables { memberships: self.memberships.push(membership), ..self }, Ok(category))
            }
        } else if self.last_category_id >= i32::MAX {
            (self, Err(Error::OutOfIds))
        } else {
            let category = CategoryView { id: Id((self.last_category_id + 1) as i32), name };
            let membership = SubscriptionCategory { subscription_id, category_id: category.id };
            (
                Tables {
                    categories: self.categories.push(category),
                    memberships: self.memberships.push(membership),
                    last_category_id: self.last_category_id + 1,
                    ..self
                },
                Ok(category),
            )
        }
    }

    /// Taking a subscription out of the category of a name: the membership
    /// goes, and the category with it where it was the last.
    pub open spec fn remove_category(self, subscription_id: Id, name: Seq<char>) -> Tables {
        if !self.has_category_named(name) {
            self
        } else {
            let category = self.categories[self.category_index(name)];
            let membership = SubscriptionCategory { subscription_id, category_id: category.id };
            let memberships = self.memberships.filter(membership_is_not(membership));
            if has_member(memberships, category.id) {
                Tables { memberships, ..self }
            } else {
                Tables {
                    categories: self.categories.filter(category_is_not(category.id)),
                    memberships,
                    ..self
                }
            }
        }
    }

    /// Storing a new item: refused where its subscription does not exist or
    /// the keys are used up; else it is appended under the next key.
    pub open spec fn create_item(self, new: NewItemView) -> (Tables, Result<ItemView, Error>) {
        if !self.has_subscription(new.subscription_id) {
            (self, Err(Error::ForeignKeyViolation))
        } else if self.last_item_id >= i32::MAX {
            (self, Err(Error::OutOfIds))
        } else {
            let row = ItemView {
                id: Id((self.last_item_id + 1) as i32),
                subscription_id: new.subscription_id,
                url: new.url,
                title: new.title,
                author: new.author,
                published: new.published,
                updated: new.updated,
                content: new.content,
                is_read: new.is_read,
                is_starred: new.is_starred,
            };
            (Tables { items: self.items.push(row), last_item_id: self.last_item_id + 1, ..self }, Ok(row))
        }
    }

    /// Overwriting an item: nothing happens where no row has its key; it is
    /// refused where its subscription does not exist.
    pub open spec fn update_item(self, row: ItemView) -> (Tables, Result<ItemView, Error>) {
        if !self.has_item(row.id) {
            (self, Ok(row))
        } else if !self.has_subscription(row.subscription_id) {
            (self, Err(Error::ForeignKeyViolation))
        } else {
            (Tables { items: self.items.update(self.item_index(row.id), row), ..self }, Ok(row))
        }
    }
}

/// References stay sound where the memberships and the items are as they
/// were and no key of a subscription or a category went away.
pub proof fn lemma_references_kept(before: Tables, after: Tables)
    requires
        before.references_wf(),
        after.memberships == before.memberships,
        after.items == before.items,
        forall|i: int|
            0 <= i < before.subscriptions.len() ==> after.has_subscription(
                (#[trigger] before.subscriptions[i]).id,
            ),
        forall|i: int|
            0 <= i < before.categories.len() ==> after.has_category(
                (#[trigger] before.categories[i]).id,
            ),
    ensures
        after.references_wf(),
{
    assert forall|i: int| 0 <= i < after.memberships.len() implies after.has_subscription(
        (#[trigger] after.memberships[i]).subscription_id,
    ) && after.has_category(after.memberships[i].category_id) by {
        let sid = before.memberships[i].subscription_id;
        let k = choose|k: int|
            0 <= k < before.subscriptions.len() && (#[trigger] before.subscriptions[k]).id == sid;
        assert(after.has_subscription(before.subscriptions[k].id));
        let cid = before.memberships[i].category_id;
        let c = choose|c: int|
            0 <= c < before.categories.len() && (#[trigger] before.categories[c]).id == cid;
        assert(after.has_category(before.categories[c].id));
    }
    assert forall|i: int| 0 <= i < after.items.len() implies after.has_subscription(
        (#[trigger] after.items[i]).subscription_id,
    ) by {
        let sid = before.items[i].subscription_id;
        let k = choose|k: int|
            0 <= k < before.subscriptions.len() && (#[trigger] before.subscriptions[k]).id == sid;
        assert(after.has_subscription(before.subscriptions[k].id));
    }
}

/// A filter takes no key beyond what was given out and repeats none.
pub proof fn lemma_filtered_keys_wf(before: Tables, after: Tables)
    requires
        before.keys_wf(),
        after.last_subscription_id == before.last_subscription_id,
        after.last_category_id == before.last_category_id,
        after.last_item_id == before.last_item_id,
        exists|p: spec_fn(SubscriptionView) -> bool|
            after.subscriptions == #[trigger] before.subscriptions.filter(p),
        exists|p: spec_fn(CategoryView) -> bool|
            after.categories == #[trigger] before.categories.filter(p),
        exists|p: spec_fn(SubscriptionCategory) -> bool|
            after.memberships == #[trigger] before.memberships.filter(p),
        exists|p: spec_fn(ItemView) -> bool| after.items == #[trigger] before.items.filter(p),
    ensures
        after.keys_wf(),
{
    let ps = choose|p: spec_fn(SubscriptionView) -> bool|
        after.subscriptions == #[trigger] before.subscriptions.filter(p);
    let pc = choose|p: spec_fn(CategoryView) -> bool|
        after.categories == #[trigger] before.categories.filter(p);
    let pm = choose|p: spec_fn(SubscriptionCategory) -> bool|
        after.memberships == #[trigger] before.memberships.filter(p);
    let pi = choose|p: spec_fn(ItemView) -> bool| after.items == #[trigger] before.items.filter(p);
    assert forall|i: int| 0 <= i < after.subscriptions.len() implies (
    #[trigger] after.subscriptions[i]).id@ <= after.last_subscription_id by {
        lemma_filter_member(before.subscriptions, ps, i);
    }
    assert forall|i: int, j: int| 0 <= i < j < after.subscriptions.len() implies (
    #[trigger] after.subscriptions[i]).id != (#[trigger] after.subscriptions[j]).id && (
    after.subscriptions[i]).feed_url != (after.subscriptions[j]).feed_url by {
        lemma_filter_order(before.subscriptions, ps, i, j);
    }
    assert forall|i: int| 0 <= i < after.categories.len() implies (
    #[trigger] after.categories[i]).id@ <= after.last_category_id by {
        lemma_filter_member(before.categories, pc, i);
    }
    assert forall|i: int, j: int| 0 <= i < j < after.categories.len() implies (
    #[trigger] after.categories[i]).id != (#[trigger] after.categories[j]).id && (
    after.categories[i]).name != (after.categories[j]).name by {
        lemma_filter_order(before.categories, pc, i, j);
    }
    assert forall|i: int, j: int| 0 <= i < j < after.memberships.len() implies (
    #[trigger] after.memberships[i]) != (#[trigger] after.memberships[j]) by {
        lemma_filter_order(before.memberships, pm, i, j);
    }
    assert forall|i: int| 0 <= i < after.items.len() implies (#[trigger] after.items[i]).id@
        <= after.last_item_id by {
        lemma_filter_member(before.items, pi, i);
    }
    assert forall|i: int, j: int| 0 <= i < j < after.items.len() implies (
    #[trigger] after.items[i]).id != (#[trigger] after.items[j]).id by {
        lemma_filter_order(before.items, pi, i, j);
    }
}

/// Filtering by a predicate that everything passes.
pub open spec fn keep_all<A>() -> spec_fn(A) -> bool {
    |a: A| true
}

/// A sequence is itself filtered by `keep_all`.
pub proof fn lemma_keep_all<A>(s: Seq<A>)
    ensures
        s == s.filter(keep_all::<A>()),
{
    crate::lemmas::lemma_filter_all(s, keep_all::<A>());
}

/// Removing a subscription keeps the invariant, and nothing of the
/// subscription stays behind.
pub proof fn lemma_remove_subscription(before: Tables, id: Id)
    requires
        before.wf(),
    ensures
        before.remove_subscription(id).wf(),
        !before.remove_subscription(id).has_subscription(id),
        forall|i: int|
            0 <= i < before.remove_subscription(id).items.len() ==> (
            #[trigger] before.remove_subscription(id).items[i]).subscription_id != id,
        forall|i: int|
            0 <= i < before.remove_subscription(id).memberships.len() ==> (
            #[trigger] before.remove_subscription(id).memberships[i]).subscription_id != id,
{
    let after = before.remove_subscription(id);
    lemma_filtered_keys_wf(before, after);
    assert forall|i: int| 0 <= i < after.subscriptions.len() implies (
    #[trigger] after.subscriptions[i]).id != id by {
        lemma_filter_member(before.subscriptions, subscription_is_not(id), i);
    }
    assert forall|i: int| 0 <= i < after.items.len() implies (
    #[trigger] after.items[i]).subscription_id != id && after.has_subscription(
        after.items[i].subscription_id,
    ) by {
        lemma_filter_member(before.items, item_not_of(id), i);
        let k = choose|k: int|
            0 <= k < before.items.len() && #[trigger] before.items[k] == after.items[i];
        lemma_subscription_stays(before, id, before.items[k].subscription_id);
    }
    assert forall|i: int| 0 <= i < after.memberships.len() implies (
    #[trigger] after.memberships[i]).subscription_id != id && after.has_subscription(
        after.memberships[i].subscription_id,
    ) && after.has_category(after.memberships[i].category_id) by {
        lemma_filter_member(before.memberships, membership_not_of(id), i);
        let k = choose|k: int|
            0 <= k < before.memberships.len() && #[trigger] before.memberships[k]
                == after.memberships[i];
        lemma_subscription_stays(before, id, before.memberships[k].subscription_id);
        let cid = before.memberships[k].category_id;
        let c = choose|c: int|
            0 <= c < before.categories.len() && (#[trigger] before.categories[c]).id == cid;
        assert(after.memberships[i].category_id == cid);
        assert(has_member(after.memberships, cid));
        assert(category_in_use(after.memberships)(before.categories[c]));
        lemma_filter_keeps(before.categories, category_in_use(after.memberships), c);
        let n = choose|n: int|
            0 <= n < after.categories.len() && #[trigger] after.categories[n]
                == before.categories[c];
        assert(after.categories[n].id == cid);
    }
    assert forall|i: int| 0 <= i < after.categories.len() implies has_member(
        after.memberships,
        (#[trigger] after.categories[i]).id,
    ) by {
        lemma_filter_member(before.categories, category_in_use(after.memberships), i);
    }
}

/// A subscription other than the one removed is still there.
pub proof fn lemma_subscription_stays(before: Tables, removed: Id, other: Id)
    requires
        before.has_subscription(other),
        other != removed,
    ensures
        before.remove_subscription(removed).has_subscription(other),
{
    let k = choose|k: int|
        0 <= k < before.subscriptions.len() && (#[trigger] before.subscriptions[k]).id == other;
    lemma_filter_keeps(before.subscriptions, subscription_is_not(removed), k);
    let after = before.remove_subscription(removed);
    let n = choose|n: int|
        0 <= n < after.subscriptions.len() && #[trigger] after.subscriptions[n]
            == before.subscriptions[k];
    assert(after.subscriptions[n].id == other);
}

/// Taking a subscription out of a category keeps the invariant.
pub proof fn lemma_remove_category(before: Tables, subscription_id: Id, name: Seq<char>)
    requires
        before.wf(),
    ensures
        before.remove_category(subscription_id, name).wf(),
{
    let after = before.remove_category(subscription_id, name);
    if before.has_category_named(name) {
        let category = before.categories[before.category_index(name)];
        let membership = SubscriptionCategory { subscription_id, category_id: category.id };
        let keep = membership_is_not(membership);
        lemma_keep_all(before.subscriptions);
        lemma_keep_all(before.categories);
        lemma_keep_all(before.items);
        lemma_filtered_keys_wf(before, after);
        assert forall|i: int| 0 <= i < after.items.len() implies after.has_subscription(
            (#[trigger] after.items[i]).subscription_id,
        ) by {
            assert(before.has_subscription(before.items[i].subscription_id));
        }
        assert forall|i: int| 0 <= i < after.memberships.len() implies after.has_subscription(
            (#[trigger] after.memberships[i]).subscription_id,
        ) && after.has_category(after.memberships[i].category_id) by {
            lemma_filter_member(before.memberships, keep, i);
            let k = choose|k: int|
                0 <= k < before.memberships.len() && #[trigger] before.memberships[k]
                    == after.memberships[i];
            assert(before.has_subscription(before.memberships[k].subscription_id));
            let cid = before.memberships[k].category_id;
            let c = choose|c: int|
                0 <= c < before.categories.len() && (#[trigger] before.categories[c]).id == cid;
            if !has_member(after.memberships, category.id) {
                assert(after.memberships[i].category_id == cid);
                assert(cid != category.id);
                lemma_filter_keeps(before.categories, category_is_not(category.id), c);
                let n = choose|n: int|
                    0 <= n < after.categories.len() && #[trigger] after.categories[n]
                        == before.categories[c];
                assert(after.categories[n].id == cid);
            } else {
                assert(after.categories[c].id == cid);
            }
        }
        assert forall|i: int| 0 <= i < after.categories.len() implies has_member(
            after.memberships,
            (#[trigger] after.categories[i]).id,
        ) by {
            let cid = after.categories[i].id;
            if has_member(after.memberships, category.id) {
                assert(after.categories[i] == before.categories[i]);
            } else {
                lemma_filter_member(before.categories, category_is_not(category.id), i);
            }
            if cid != category.id {
                let c = choose|c: int|
                    0 <= c < before.categories.len() && #[trigger] before.categories[c]
                        == after.categories[i];
                assert(has_member(before.memberships, before.categories[c].id));
                let j = choose|j: int|
                    0 <= j < before.memberships.len() && (#[trigger] before.memberships[j]).category_id
                        == cid;
                lemma_filter_keeps(before.memberships, keep, j);
                let n = choose|n: int|
                    0 <= n < after.memberships.len() && #[trigger] after.memberships[n]
                        == before.memberships[j];
                assert(after.memberships[n].category_id == cid);
            }
        }
    }
}

/// Filing a subscription under a name keeps the invariant.
pub proof fn lemma_add_category(before: Tables, subscription_id: Id, name: Seq<char>)
    requires
        before.wf(),
    ensures
        before.add_category(subscription_id, name).0.wf(),
{
    let after = before.add_category(subscription_id, name).0;
    if after != before {
        let membership = after.memberships.last();
        assert(after.memberships[after.memberships.len() - 1] == membership);
        if before.has_category_named(name) {
            let c = before.category_index(name);
            assert(before.categories[c].id == membership.category_id);
            assert forall|i: int| 0 <= i < before.memberships.len() implies before.memberships[i]
                != membership by {
                assert(before.memberships.contains(before.memberships[i]));
            }
        } else {
            assert(after.categories[after.categories.len() - 1].id == membership.category_id);
            assert forall|i: int| 0 <= i < before.memberships.len() implies (
            #[trigger] before.memberships[i]) != membership by {
                let cid = before.memberships[i].category_id;
                assert(before.has_category(cid));
                let c = choose|c: int|
                    0 <= c < before.categories.len() && (#[trigger] before.categories[c]).id
                        == cid;
                assert(cid@ <= before.last_category_id);
            }
        }
        let inner = Tables { memberships: before.memberships, ..after };
        assert forall|i: int| 0 <= i < before.subscriptions.len() implies inner.has_subscription(
            (#[trigger] before.subscriptions[i]).id,
        ) by {
            assert(inner.subscriptions[i].id == before.subscriptions[i].id);
        }
        assert forall|i: int| 0 <= i < before.categories.len() implies inner.has_category(
            (#[trigger] before.categories[i]).id,
        ) by {
            assert(inner.categories[i].id == before.categories[i].id);
        }
        lemma_references_kept(before, inner);
        assert(after.has_subscription(subscription_id));
        assert(after.has_category(membership.category_id));
        assert forall|i: int| 0 <= i < after.memberships.len() implies after.has_subscription(
            (#[trigger] after.memberships[i]).subscription_id,
        ) && after.has_category(after.memberships[i].category_id) by {
            if i < before.memberships.len() {
                assert(after.memberships[i] == before.memberships[i]);
                assert(inner.has_subscription(inner.memberships[i].subscription_id));
                assert(inner.has_category(inner.memberships[i].category_id));
            }
        }
        assert forall|i: int| 0 <= i < after.items.len() implies after.has_subscription(
            (#[trigger] after.items[i]).subscription_id,
        ) by {
            assert(inner.has_subscription(inner.items[i].subscription_id));
        }
        assert forall|i: int| 0 <= i < after.categories.len() implies has_member(
            after.memberships,
            (#[trigger] after.categories[i]).id,
        ) by {
            if i < before.categories.len() {
                let cid = before.categories[i].id;
                let j = choose|j: int|
                    0 <= j < before.memberships.len() && (#[trigger] before.memberships[j]).category_id
                        == cid;
                assert(after.memberships[j].category_id == cid);
            }
        }
    }
}

/// Storing an item keeps the invariant.
pub proof fn lemma_create_item(before: Tables, new: NewItemView)
    requires
        before.wf(),
    ensures
        before.create_item(new).0.wf(),
{
    let after = before.create_item(new).0;
    if after != before {
        assert forall|i: int| 0 <= i < after.items.len() implies after.has_subscription(
            (#[trigger] after.items[i]).subscription_id,
        ) by {
            let sid = after.items[i].subscription_id;
            if i < before.items.len() {
                assert(before.has_subscription(before.items[i].subscription_id));
            }
            let k = choose|k: int|
                0 <= k < before.subscriptions.len() && (#[trigger] before.subscriptions[k]).id == sid;
            assert(after.subscriptions[k].id == sid);
        }
        assert forall|i: int| 0 <= i < after.memberships.len() implies after.has_subscription(
            (#[trigger] after.memberships[i]).subscription_id,
        ) && after.has_category(after.memberships[i].category_id) by {
            let sid = before.memberships[i].subscription_id;
            let k = choose|k: int|
                0 <= k < before.subscriptions.len() && (#[trigger] before.subscriptions[k]).id == sid;
            assert(after.subscriptions[k].id == sid);
            let cid = before.memberships[i].category_id;
            let c = choose|c: int|
                0 <= c < before.categories.len() && (#[trigger] before.categories[c]).id == cid;
            assert(after.categories[c].id == cid);
        }
    }
}

/// Tells whether a subscription other than `id` is a member of `category`.
pub open spec fn has_other_member(
    memberships: Seq<SubscriptionCategory>,
    category: Id,
    id: Id,
) -> bool {
    exists|i: int|
        0 <= i < memberships.len() && (#[trigger] memberships[i]).category_id == category
            && memberships[i].subscription_id != id
}

/// When a subscription is removed, a category goes with it exactly where
/// the subscription was its only member.
pub proof fn lemma_remove_subscription_collects(before: Tables, id: Id, category: Id)
    requires
        before.wf(),
        before.has_category(category),
    ensures
        before.remove_subscription(id).has_category(category) <==> has_other_member(
            before.memberships,
            category,
            id,
        ),
{
    let after = before.remove_subscription(id);
    let keep = category_in_use(after.memberships);
    let c = choose|c: int|
        0 <= c < before.categories.len() && (#[trigger] before.categories[c]).id == category;
    if has_other_member(before.memberships, category, id) {
        let j = choose|j: int|
            0 <= j < before.memberships.len() && (#[trigger] before.memberships[j]).category_id
                == category && before.memberships[j].subscription_id != id;
        lemma_filter_keeps(before.memberships, membership_not_of(id), j);
        let n = choose|n: int|
            0 <= n < after.memberships.len() && #[trigger] after.memberships[n]
                == before.memberships[j];
        assert(after.memberships[n].category_id == category);
        assert(keep(before.categories[c]));
        lemma_filter_keeps(before.categories, keep, c);
        let m = choose|m: int|
            0 <= m < after.categories.len() && #[trigger] after.categories[m]
                == before.categories[c];
        assert(after.categories[m].id == category);
    }
    if after.has_category(category) {
        let m = choose|m: int|
            0 <= m < after.categories.len() && (#[trigger] after.categories[m]).id == category;
        lemma_filter_member(before.categories, keep, m);
        let n = choose|n: int|
            0 <= n < after.memberships.len() && (#[trigger] after.memberships[n]).category_id
                == category;
        lemma_filter_member(before.memberships, membership_not_of(id), n);
        let j = choose|j: int|
            0 <= j < before.memberships.len() && #[trigger] before.memberships[j]
                == after.memberships[n];
        assert(before.memberships[j].category_id == category);
    }
}

/// When a subscription is taken out of the category of a name, the
/// category goes exactly where the subscription was its only member, or it
/// had none.
pub proof fn lemma_remove_category_collects(before: Tables, id: Id, name: Seq<char>)
    requires
        before.wf(),
        before.has_category_named(name),
    ensures
        before.remove_category(id, name).has_category_named(name) <==> has_other_member(
            before.memberships,
            before.categories[before.category_index(name)].id,
            id,
        ),
{
    let after = before.remove_category(id, name);
    let c = before.category_index(name);
    let category = before.categories[c];
    let membership = SubscriptionCategory { subscription_id: id, category_id: category.id };
    let keep = membership_is_not(membership);
    let left = before.memberships.filter(keep);
    if has_other_member(before.memberships, category.id, id) {
        let j = choose|j: int|
            0 <= j < before.memberships.len() && (#[trigger] before.memberships[j]).category_id
                == category.id && before.memberships[j].subscription_id != id;
        lemma_filter_keeps(before.memberships, keep, j);
        let n = choose|n: int| 0 <= n < left.len() && #[trigger] left[n] == before.memberships[j];
        assert(left[n].category_id == category.id);
        assert(after.categories[c].name == name);
    }
    if has_member(left, category.id) {
        let n = choose|n: int| 0 <= n < left.len() && (#[trigger] left[n]).category_id == category.id;
        lemma_filter_member(before.memberships, keep, n);
        let j = choose|j: int|
            0 <= j < before.memberships.len() && #[trigger] before.memberships[j] == left[n];
        assert(before.memberships[j].subscription_id != id);
    } else {
        if after.has_category_named(name) {
            let m = choose|m: int|
                0 <= m < after.categories.len() && (#[trigger] after.categories[m]).name == name;
            lemma_filter_member(before.categories, category_is_not(category.id), m);
            let k = choose|k: int|
                0 <= k < before.categories.len() && #[trigger] before.categories[k]
                    == after.categories[m];
            assert(before.categories[k].name == name);
            if k < c {
                assert(before.categories[k].name != before.categories[c].name);
            } else if c < k {
                assert(before.categories[c].name != before.categories[k].name);
            }
        }
    }
}

/// Removing a subscription leaves the items of every other subscription as
/// they were.
pub proof fn lemma_remove_subscription_spares(before: Tables, id: Id, other: Id)
    requires
        other != id,
    ensures
        before.remove_subscription(id).subscription_items(other) == before.subscription_items(
            other,
        ),
{
    lemma_filter_twice(before.items, item_not_of(id), item_of(other));
}

/// Filtering by a predicate that is implied by a second one changes nothing
/// for the second.
pub proof fn lemma_filter_twice<A>(s: Seq<A>, first: spec_fn(A) -> bool, second: spec_fn(A) -> bool)
    requires
        forall|a: A| #[trigger] second(a) ==> first(a),
    ensures
        s.filter(first).filter(second) == s.filter(second),
    decreases s.len(),
{
    reveal(Seq::filter);
    if s.len() > 0 {
        lemma_filter_twice(s.drop_last(), first, second);
        if first(s.last()) {
            crate::lemmas::lemma_filter_push(s.drop_last().filter(first), s.last(), second);
        }
    }
}

/// Storing a subscription keeps the invariant.
pub proof fn lemma_create_subscription(before: Tables, new: NewSubscriptionView)
    requires
        before.wf(),
    ensures
        before.create_subscription(new).0.wf(),
{
    let after = before.create_subscription(new).0;
    if after != before {
        assert forall|i: int| 0 <= i < before.subscriptions.len() implies after.has_subscription(
            (#[trigger] before.subscriptions[i]).id,
        ) by {
            assert(after.subscriptions[i].id == before.subscriptions[i].id);
        }
        assert forall|i: int| 0 <= i < before.categories.len() implies after.has_category(
            (#[trigger] before.categories[i]).id,
        ) by {
            assert(after.categories[i].id == before.categories[i].id);
        }
        lemma_references_kept(before, after);
    }
}

/// Putting off a subscription keeps the invariant, leaves every other row
/// as it was, and the row is then found as it was written.
pub proof fn lemma_reschedule(before: Tables, id: Id, next_refresh: int, error_count: nat)
    requires
        before.wf(),
    ensures
        before.reschedule(id, next_refresh, error_count).0.wf(),
        before.reschedule(id, next_refresh, error_count).0.items == before.items,
        before.has_subscription(id) ==> before.reschedule(id, next_refresh, error_count).0.subscription(
            id,
        ) == before.reschedule(id, next_refresh, error_count).1,
{
    let after = before.reschedule(id, next_refresh, error_count).0;
    if before.has_subscription(id) {
        let i = before.subscription_index(id);
        assert forall|k: int| 0 <= k < before.subscriptions.len() implies after.has_subscription(
            (#[trigger] before.subscriptions[k]).id,
        ) by {
            assert(after.subscriptions[k].id == before.subscriptions[k].id);
        }
        assert forall|k: int| 0 <= k < before.categories.len() implies after.has_category(
            (#[trigger] before.categories[k]).id,
        ) by {
            assert(after.categories[k].id == before.categories[k].id);
        }
        lemma_references_kept(before, after);
        assert(after.keys_wf()) by {
            assert forall|a: int, b: int| 0 <= a < b < after.subscriptions.len() implies (
            #[trigger] after.subscriptions[a]).id != (#[trigger] after.subscriptions[b]).id && (
            after.subscriptions[a]).feed_url != (after.subscriptions[b]).feed_url by {
                assert(before.subscriptions[a].id != before.subscriptions[b].id);
                assert(before.subscriptions[a].feed_url != before.subscriptions[b].feed_url);
            }
        }
        assert(after.subscriptions[i].id == id);
        assert(after.has_subscription(id));
        let j = after.subscription_index(id);
        if j < i {
            assert(after.subscriptions[j].id != after.subscriptions[i].id);
        } else if i < j {
            assert(after.subscriptions[i].id != after.subscriptions[j].id);
        }
    }
}

} // verus!
