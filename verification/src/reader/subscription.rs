//! The names of feeds and of labels.

use vstd::prelude::*;
use vstd::string::StrSliceExecFns;
use vstd::string::StringExecFns;

use crate::db::helper::Helper;
use crate::db::models::{Category, CategoryView, Subscription, SubscriptionView};
use crate::db::tables::{Error, Tables};
use crate::lemmas::lemma_take_next;
use crate::db::Id;
use crate::number::{decimal, decimal_text, lemma_decimal_round_trip, parse_integer, parsed};
use crate::reader::InvalidId;
use crate::utils::starts_with;

verus! {

/// What the name of a feed begins with.
pub const SUBSCRIPTION_ID_PREFIX: &'static str = "feed/";

/// What the name of a label begins with.
pub const LABEL_ID_PREFIX: &'static str = "user/-/label/";

/// The text after the first `n` characters of `text`.
pub fn text_after(text: &str, n: usize) -> (rest: &str)
    requires
        n <= text@.len(),
    ensures
        rest@ == text@.skip(n as int),
{
    let rest = text.substring_char(n, text.unicode_len());
    assert(text@.subrange(n as int, text@.len() as int) =~= text@.skip(n as int));
    rest
}

/// A subscription is a feed.
#[derive(Debug, Clone, Copy, Hash, PartialEq, Eq, Structural)]
pub struct SubscriptionId(pub Id);

/// The feed that a text names.
pub open spec fn subscription_named(value: Seq<char>) -> Result<SubscriptionId, InvalidId> {
    if SUBSCRIPTION_ID_PREFIX@.is_prefix_of(value) {
        match parsed(
            value.skip(SUBSCRIPTION_ID_PREFIX@.len() as int),
            10,
            i32::MIN as int,
            i32::MAX as int,
        ) {
            Ok(number) => Ok(SubscriptionId(Id(number as i32))),
            Err(e) => Err(InvalidId::Number(e)),
        }
    } else {
        Err(InvalidId::Feed)
    }
}

impl SubscriptionId {
    /// The name of the feed: `feed/` and its key in decimal notation.
    pub fn into(self) -> (text: String)
        ensures
            text@ == SUBSCRIPTION_ID_PREFIX@ + decimal(self.0@),
    {
        let number = decimal_text(self.0.inner());
        SUBSCRIPTION_ID_PREFIX.to_owned().concat(number.as_str())
    }

    /// Reads the name of a feed.
    pub fn try_from(value: &str) -> (r: Result<Self, InvalidId>)
        ensures
            r == subscription_named(value@),
    {
        if starts_with(value, SUBSCRIPTION_ID_PREFIX) {
            let rest = text_after(value, SUBSCRIPTION_ID_PREFIX.unicode_len());
            match parse_integer(rest, 10, -0x8000_0000, 0x7fff_ffff) {
                Ok(number) => Ok(SubscriptionId(Id::from_raw(number as i32))),
                Err(e) => Err(InvalidId::Number(e)),
            }
        } else {
            Err(InvalidId::Feed)
        }
    }
}

/// A label identifies a folder or a tag.
#[derive(Debug)]
pub struct LabelId(pub String);

impl View for LabelId {
    type V = Seq<char>;

    open spec fn view(&self) -> Seq<char> {
        self.0@
    }
}

impl Clone for LabelId {
    fn clone(&self) -> (copy: Self)
        ensures
            copy == *self,
    {
        LabelId(self.0.clone())
    }
}

/// The label that a text names.
pub open spec fn label_named(value: Seq<char>) -> Result<Seq<char>, InvalidId> {
    if LABEL_ID_PREFIX@.is_prefix_of(value) {
        Ok(value.skip(LABEL_ID_PREFIX@.len() as int))
    } else {
        Err(InvalidId::Label)
    }
}

impl LabelId {
    /// The name of the label: `user/-/label/` and its text.
    pub fn into(self) -> (text: String)
        ensures
            text@ == LABEL_ID_PREFIX@ + self@,
    {
        LABEL_ID_PREFIX.to_owned().concat(self.0.as_str())
    }

    /// Reads the name of a label.
    pub fn try_from(value: &str) -> (r: Result<Self, InvalidId>)
        ensures
            match label_named(value@) {
                Ok(label) => r is Ok && r->Ok_0@ == label,
                Err(e) => r is Err && r->Err_0 == e,
            },
    {
        if starts_with(value, LABEL_ID_PREFIX) {
            let rest = text_after(value, LABEL_ID_PREFIX.unicode_len());
            Ok(LabelId(rest.to_owned()))
        } else {
            Err(InvalidId::Label)
        }
    }

    /// Tells whether two labels are the same.
    pub fn same(&self, other: &LabelId) -> (yes: bool)
        ensures
            yes == (self@ == other@),
    {
        self.0 == other.0
    }
}

/// The name of a feed is read back as the feed.
pub proof fn lemma_subscription_id_round_trip(id: SubscriptionId)
    ensures
        subscription_named(SUBSCRIPTION_ID_PREFIX@ + decimal(id.0@)) == Ok::<
            SubscriptionId,
            InvalidId,
        >(id),
{
    let name = SUBSCRIPTION_ID_PREFIX@ + decimal(id.0@);
    let n = SUBSCRIPTION_ID_PREFIX@.len() as int;
    assert(name.subrange(0, n) =~= SUBSCRIPTION_ID_PREFIX@);
    assert(name.skip(n) =~= decimal(id.0@));
    lemma_decimal_round_trip(id.0@, i32::MIN as int, i32::MAX as int);
}

/// The name of a label is read back as the label.
pub proof fn lemma_label_id_round_trip(label: Seq<char>)
    ensures
        label_named(LABEL_ID_PREFIX@ + label) == Ok::<Seq<char>, InvalidId>(label),
{
    let name = LABEL_ID_PREFIX@ + label;
    let n = LABEL_ID_PREFIX@.len() as int;
    assert(name.subrange(0, n) =~= LABEL_ID_PREFIX@);
    assert(name.skip(n) =~= label);
}

/// The action that edits a subscription.
pub const ACTION_EDIT: &'static str = "edit";

/// The action that removes a subscription.
pub const ACTION_UNSUBSCRIBE: &'static str = "unsubscribe";

/// Why a subscription was not edited.
#[derive(Debug, Clone, Copy, PartialEq, Eq, Structural)]
pub enum EditError {
    /// The action is none that is known.
    BadAction,
    /// The store refused.
    Storage(Error),
}

impl EditError {
    /// The reason, for a person to read.
    pub fn message(&self) -> (text: String)
        ensures
            text@ == match *self {
                EditError::BadAction => "Bad value for ac"@,
                EditError::Storage(e) => e.reason(),
            },
    {
        match self {
            EditError::BadAction => "Bad value for ac".to_owned(),
            EditError::Storage(e) => e.message(),
        }
    }
}

/// An optional label as a mathematical value.
pub open spec fn optional_label(label: Option<LabelId>) -> Option<Seq<char>> {
    match label {
        Some(label) => Some(label@),
        None => None,
    }
}

/// The error of an operation, if it failed.
pub open spec fn failure<T>(r: Result<T, Error>) -> Option<Error> {
    match r {
        Ok(_) => None,
        Err(e) => Some(e),
    }
}

/// Giving a subscription another title, where one is given.
pub open spec fn retitled(tables: Tables, id: Id, title: Option<Seq<char>>) -> (
    Tables,
    Option<Error>,
) {
    match title {
        Some(title) => {
            let (after, r) = tables.rename_subscription(id, title);
            (after, failure(r))
        },
        None => (tables, None),
    }
}

/// Filing a subscription under one label and taking it out of another;
/// nothing happens where both are the same. The subscription is filed
/// first, and where that fails it is taken out of nothing.
pub open spec fn refiled(
    tables: Tables,
    id: Id,
    add: Option<Seq<char>>,
    remove: Option<Seq<char>>,
) -> (Tables, Option<Error>) {
    if add == remove {
        (tables, None)
    } else {
        let (filed, e) = match add {
            Some(name) => {
                let (after, r) = tables.add_category(id, name);
                (after, failure(r))
            },
            None => (tables, None),
        };
        if e is Some {
            (filed, e)
        } else {
            match remove {
                Some(name) => (filed.remove_category(id, name), None),
                None => (filed, None),
            }
        }
    }
}

/// Editing a subscription: the action `edit` gives it another title, then
/// files it anew; the action `unsubscribe` removes it; any other action is
/// refused. What was done before the store refuses stays done.
pub open spec fn edited(
    tables: Tables,
    id: Id,
    action: Seq<char>,
    title: Option<Seq<char>>,
    add: Option<Seq<char>>,
    remove: Option<Seq<char>>,
) -> (Tables, Result<(), EditError>) {
    if action == ACTION_EDIT@ {
        let (named, e) = retitled(tables, id, title);
        match e {
            Some(e) => (named, Err(EditError::Storage(e))),
            None => {
                let (filed, e) = refiled(named, id, add, remove);
                match e {
                    Some(e) => (filed, Err(EditError::Storage(e))),
                    None => (filed, Ok(())),
                }
            },
        }
    } else if action == ACTION_UNSUBSCRIBE@ {
        (tables.remove_subscription(id), Ok(()))
    } else {
        (tables, Err(EditError::BadAction))
    }
}

/// Tells whether two optional labels are the same.
pub fn same_label(a: &Option<LabelId>, b: &Option<LabelId>) -> (yes: bool)
    ensures
        yes == (optional_label(*a) == optional_label(*b)),
{
    match (a, b) {
        (None, None) => true,
        (Some(x), Some(y)) => x.same(y),
        _ => false,
    }
}

/// Edits the subscription `id` as the action says.
pub fn edit(
    db: &mut Helper,
    id: SubscriptionId,
    action: &str,
    title: Option<String>,
    add_category: Option<LabelId>,
    remove_category: Option<LabelId>,
) -> (r: Result<(), EditError>)
    requires
        old(db)@.wf(),
    ensures
        final(db)@.wf(),
        (final(db)@, r) == edited(
            old(db)@,
            id.0,
            action@,
            title.deep_view(),
            optional_label(add_category),
            optional_label(remove_category),
        ),
{
    if crate::utils::same_text(action, ACTION_EDIT) {
        match title {
            Some(title) => {
                match db.transform_subscription(id.0, title) {
                    Ok(_) => {},
                    Err(e) => {
                        return Err(EditError::Storage(e));
                    },
                }
            },
            None => {},
        }
        if !same_label(&add_category, &remove_category) {
            match add_category {
                Some(label) => {
                    match db.subscription_add_category(id.0, label.0) {
                        Ok(_) => {},
                        Err(e) => {
                            return Err(EditError::Storage(e));
                        },
                    }
                },
                None => {},
            }
            match remove_category {
                Some(label) => {
                    let _ = db.subscription_remove_category(id.0, label.0);
                },
                None => {},
            }
        }
        Ok(())
    } else if crate::utils::same_text(action, ACTION_UNSUBSCRIBE) {
        let _ = db.remove_subscription(id.0);
        Ok(())
    } else {
        Err(EditError::BadAction)
    }
}

/// Puts a subscription beside the categories that it is a member of.
pub open spec fn with_categories(tables: Tables) -> spec_fn(SubscriptionView) -> (
    SubscriptionView,
    Seq<CategoryView>,
) {
    |s: SubscriptionView| (s, tables.subscription_categories(s.id))
}

/// All subscriptions, each with the categories that it is a member of.
pub fn list(db: &Helper) -> (rows: Vec<(Subscription, Vec<Category>)>)
    ensures
        rows.deep_view() == db@.subscriptions.map_values(with_categories(db@)),
{
    let subscriptions = db.get_subscriptions();
    let ghost all = subscriptions.deep_view();
    let ghost pair = with_categories(db@);
    let mut rows: Vec<(Subscription, Vec<Category>)> = Vec::new();
    let mut i: usize = 0;
    while i < subscriptions.len()
        invariant
            i <= subscriptions.len(),
            all == subscriptions.deep_view(),
            all == db@.subscriptions,
            pair == with_categories(db@),
            rows.deep_view() == all.take(i as int).map_values(pair),
        decreases subscriptions.len() - i,
    {
        let ghost before = rows.deep_view();
        let categories = db.get_subscription_categories(subscriptions[i].id);
        rows.push((subscriptions[i].clone(), categories));
        proof {
            lemma_take_next(all, i as int);
            assert(rows.deep_view() =~= before.push(pair(all[i as int])));
            assert(all.take(i as int).push(all[i as int]).map_values(pair) =~= before.push(
                pair(all[i as int]),
            ));
        }
        i += 1;
    }
    assert(all.take(i as int) =~= all);
    rows
}

} // verus!
