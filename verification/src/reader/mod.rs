//! The identifiers by which the reader protocol names streams, feeds,
//! labels and items.

use vstd::prelude::*;

use crate::db::helper::Helper;
use crate::db::models::{Item, ItemView, Subscription};
use crate::db::tables::{Error, Tables};
use crate::db::Id;
use crate::number::ParseIntError;
use crate::reader::stream::{item_named, stream_named, ItemId, StreamId, StreamIdView};
use crate::utils::same_text;

pub mod stream;
pub mod subscription;
pub mod utils;

verus! {

/// Why a text names nothing.
#[derive(Debug, Clone, Copy, PartialEq, Eq, Structural)]
pub enum InvalidId {
    /// The text does not begin as the name of a feed does.
    Feed,
    /// The text does not begin as the name of a label does.
    Label,
    /// The text names no stream.
    Stream,
    /// The number in the text cannot be read.
    Number(ParseIntError),
}

impl InvalidId {
    /// The reason, for a person to read; `value` is the text that was
    /// refused.
    pub fn message(&self, value: &str) -> (text: String)
        ensures
            text@ == match *self {
                InvalidId::Feed => "Invalid feed ID: "@ + value@,
                InvalidId::Label => "Invalid tag/folder ID: "@ + value@,
                InvalidId::Stream => "Invalid stream ID: "@ + value@,
                InvalidId::Number(ParseIntError::Empty) => "cannot parse integer from empty string"@,
                InvalidId::Number(ParseIntError::InvalidDigit) => "invalid digit found in string"@,
                InvalidId::Number(ParseIntError::PosOverflow) => "number too large to fit in target type"@,
                InvalidId::Number(ParseIntError::NegOverflow) => "number too small to fit in target type"@,
            },
    {
        match self {
            InvalidId::Feed => "Invalid feed ID: ".to_owned().concat(value),
            InvalidId::Label => "Invalid tag/folder ID: ".to_owned().concat(value),
            InvalidId::Stream => "Invalid stream ID: ".to_owned().concat(value),
            InvalidId::Number(e) => e.message(),
        }
    }
}

/// The key of a field that names an item.
pub const FIELD_ITEM: &'static str = "i";

/// The key of a field that names a stream to add items to.
pub const FIELD_ADD: &'static str = "a";

/// The key of a field that names a stream to remove items from.
pub const FIELD_REMOVE: &'static str = "r";

/// A form: fields in the order in which they were sent, each a key and a
/// value. A key may occur many times.
pub type Form = Vec<(String, String)>;

/// What a form asks to change: the flags of some items. A flag that is
/// `None` is left as it is.
#[derive(Debug)]
pub struct TagEdit {
    pub items: Vec<ItemId>,
    pub is_read: Option<bool>,
    pub is_starred: Option<bool>,
}

/// A change of flags as a mathematical value.
pub ghost struct TagEditView {
    pub items: Seq<ItemId>,
    pub is_read: Option<bool>,
    pub is_starred: Option<bool>,
}

impl View for TagEdit {
    type V = TagEditView;

    open spec fn view(&self) -> TagEditView {
        TagEditView { items: self.items@, is_read: self.is_read, is_starred: self.is_starred }
    }
}

/// Why a form asks for no change of flags, or why the change failed.
#[derive(Debug)]
pub enum EditTagError {
    /// A field names no item; the text is its value.
    InvalidItem(String, InvalidId),
    /// A field names no stream; the text is its value.
    InvalidStream(String, InvalidId),
    /// The store refused.
    Storage(Error),
}

/// An error as a mathematical value.
pub ghost enum EditTagErrorView {
    InvalidItem(Seq<char>, InvalidId),
    InvalidStream(Seq<char>, InvalidId),
    Storage(Error),
}

impl View for EditTagError {
    type V = EditTagErrorView;

    open spec fn view(&self) -> EditTagErrorView {
        match *self {
            EditTagError::InvalidItem(value, e) => EditTagErrorView::InvalidItem(value@, e),
            EditTagError::InvalidStream(value, e) => EditTagErrorView::InvalidStream(value@, e),
            EditTagError::Storage(e) => EditTagErrorView::Storage(e),
        }
    }
}

/// What one more field makes of a change of flags: a field `i` adds an
/// item; a field `a` or `r` with the read, unread or starred stream sets a
/// flag, to what adding says and to the opposite for removing, and for the
/// unread stream the other way round; any other field changes nothing.
pub open spec fn with_field(edit: TagEditView, field: (Seq<char>, Seq<char>)) -> Result<
    TagEditView,
    EditTagErrorView,
> {
    let (key, value) = field;
    if key == FIELD_ITEM@ {
        match item_named(value) {
            Ok(id) => Ok(TagEditView { items: edit.items.push(id), ..edit }),
            Err(e) => Err(EditTagErrorView::InvalidItem(value, e)),
        }
    } else if key == FIELD_ADD@ || key == FIELD_REMOVE@ {
        match stream_named(value) {
            Err(e) => Err(EditTagErrorView::InvalidStream(value, e)),
            Ok(StreamIdView::Read) => Ok(TagEditView { is_read: Some(key == FIELD_ADD@), ..edit }),
            Ok(StreamIdView::Unread) => Ok(
                TagEditView { is_read: Some(key != FIELD_ADD@), ..edit },
            ),
            Ok(StreamIdView::Starred) => Ok(
                TagEditView { is_starred: Some(key == FIELD_ADD@), ..edit },
            ),
            Ok(_) => Ok(edit),
        }
    } else {
        Ok(edit)
    }
}

/// The change of flags that a form asks for; the first field that cannot
/// be read decides the error.
pub open spec fn tag_edit(form: Seq<(Seq<char>, Seq<char>)>) -> Result<TagEditView, EditTagErrorView>
    decreases form.len(),
{
    if form.len() == 0 {
        Ok(TagEditView { items: Seq::empty(), is_read: None, is_starred: None })
    } else {
        match tag_edit(form.drop_last()) {
            Err(e) => Err(e),
            Ok(edit) => with_field(edit, form.last()),
        }
    }
}

/// Once a form has failed, more fields do not mend it.
pub proof fn lemma_tag_edit_fails(form: Seq<(Seq<char>, Seq<char>)>, k: int)
    requires
        0 <= k <= form.len(),
        tag_edit(form.take(k)) is Err,
    ensures
        tag_edit(form) == tag_edit(form.take(k)),
    decreases form.len(),
{
    if k == form.len() {
        assert(form.take(k) =~= form);
    } else {
        assert(form.drop_last().take(k) =~= form.take(k));
        lemma_tag_edit_fails(form.drop_last(), k);
    }
}

/// A result as a mathematical value.
pub open spec fn tag_edit_view(r: Result<TagEdit, EditTagError>) -> Result<
    TagEditView,
    EditTagErrorView,
> {
    match r {
        Ok(edit) => Ok(edit@),
        Err(e) => Err(e@),
    }
}

/// Reads the change of flags that a form asks for.
pub fn parse_edit_tag(form: &Form) -> (r: Result<TagEdit, EditTagError>)
    ensures
        tag_edit_view(r) == tag_edit(form.deep_view()),
{
    let ghost all = form.deep_view();
    let mut edit = TagEdit { items: Vec::new(), is_read: None, is_starred: None };
    let mut i: usize = 0;
    while i < form.len()
        invariant
            i <= form.len(),
            all == form.deep_view(),
            tag_edit(all.take(i as int)) == Ok::<TagEditView, EditTagErrorView>(edit@),
        decreases form.len() - i,
    {
        proof {
            assert(all.take(i as int + 1).drop_last() =~= all.take(i as int));
            assert(all.take(i as int + 1).last() == (form[i as int].0@, form[i as int].1@));
            if tag_edit(all.take(i as int + 1)) is Err {
                lemma_tag_edit_fails(all, i as int + 1);
            }
        }
        let key = form[i].0.as_str();
        let value = &form[i].1;
        if same_text(key, FIELD_ITEM) {
            match ItemId::try_from(value.clone()) {
                Ok(id) => {
                    edit.items.push(id);
                },
                Err(e) => {
                    return Err(EditTagError::InvalidItem(value.clone(), e));
                },
            }
        } else if same_text(key, FIELD_ADD) || same_text(key, FIELD_REMOVE) {
            let adding = same_text(key, FIELD_ADD);
            match StreamId::try_from(value.clone()) {
                Err(e) => {
                    return Err(EditTagError::InvalidStream(value.clone(), e));
                },
                Ok(StreamId::Read) => {
                    edit.is_read = Some(adding);
                },
                Ok(StreamId::Unread) => {
                    edit.is_read = Some(!adding);
                },
                Ok(StreamId::Starred) => {
                    edit.is_starred = Some(adding);
                },
                Ok(_) => {},
            }
        }
        i += 1;
    }
    assert(all.take(i as int) =~= all);
    Ok(edit)
}

/// An item with the flags that are given set.
pub open spec fn flagged(item: ItemView, is_read: Option<bool>, is_starred: Option<bool>) -> ItemView {
    ItemView {
        is_read: match is_read {
            Some(flag) => flag,
            None => item.is_read,
        },
        is_starred: match is_starred {
            Some(flag) => flag,
            None => item.is_starred,
        },
        ..item
    }
}

/// Setting the flags of the items in turn: the first that is not found
/// stops the run, and those before it stay changed.
pub open spec fn flagged_all(
    tables: Tables,
    items: Seq<ItemId>,
    is_read: Option<bool>,
    is_starred: Option<bool>,
) -> (Tables, Option<Error>)
    decreases items.len(),
{
    if items.len() == 0 {
        (tables, None)
    } else {
        let (before, e) = flagged_all(tables, items.drop_last(), is_read, is_starred);
        if e is Some {
            (before, e)
        } else {
            match before.item(items.last().0) {
                Err(e) => (before, Some(e)),
                Ok(item) => {
                    let (after, r) = before.update_item(flagged(item, is_read, is_starred));
                    (
                        after,
                        match r {
                            Ok(_) => None,
                            Err(e) => Some(e),
                        },
                    )
                },
            }
        }
    }
}

/// Once the run has failed, more items change nothing.
pub proof fn lemma_flagged_all_fails(
    tables: Tables,
    items: Seq<ItemId>,
    is_read: Option<bool>,
    is_starred: Option<bool>,
    k: int,
)
    requires
        0 <= k <= items.len(),
        flagged_all(tables, items.take(k), is_read, is_starred).1 is Some,
    ensures
        flagged_all(tables, items, is_read, is_starred) == flagged_all(
            tables,
            items.take(k),
            is_read,
            is_starred,
        ),
    decreases items.len(),
{
    if k == items.len() {
        assert(items.take(k) =~= items);
    } else {
        assert(items.drop_last().take(k) =~= items.take(k));
        lemma_flagged_all_fails(tables, items.drop_last(), is_read, is_starred, k);
    }
}

/// Applying a change of flags: nothing is touched where no flag is to be
/// set.
pub open spec fn applied(tables: Tables, edit: TagEditView) -> (Tables, Option<Error>) {
    if edit.is_read is None && edit.is_starred is None {
        (tables, None)
    } else {
        flagged_all(tables, edit.items, edit.is_read, edit.is_starred)
    }
}

/// Applies a change of flags to the store.
pub fn apply_edit_tag(db: &mut Helper, edit: &TagEdit) -> (r: Result<(), Error>)
    requires
        old(db)@.wf(),
    ensures
        final(db)@.wf(),
        (final(db)@, crate::reader::subscription::failure(r)) == applied(old(db)@, edit@),
{
    if edit.is_read.is_none() && edit.is_starred.is_none() {
        return Ok(());
    }
    let mut i: usize = 0;
    while i < edit.items.len()
        invariant
            i <= edit.items.len(),
            db@.wf(),
            !(edit.is_read is None && edit.is_starred is None),
            (db@, None::<Error>) == flagged_all(
                old(db)@,
                edit.items@.take(i as int),
                edit.is_read,
                edit.is_starred,
            ),
        decreases edit.items.len() - i,
    {
        proof {
            assert(edit.items@.take(i as int + 1).drop_last() =~= edit.items@.take(i as int));
            if flagged_all(
                old(db)@,
                edit.items@.take(i as int + 1),
                edit.is_read,
                edit.is_starred,
            ).1 is Some {
                lemma_flagged_all_fails(
                    old(db)@,
                    edit.items@,
                    edit.is_read,
                    edit.is_starred,
                    i as int + 1,
                );
            }
        }
        let mut item = match db.get_item(edit.items[i].0) {
            Ok(item) => item,
            Err(e) => {
                return Err(e);
            },
        };
        match edit.is_read {
            Some(flag) => {
                item.is_read = flag;
            },
            None => {},
        }
        match edit.is_starred {
            Some(flag) => {
                item.is_starred = flag;
            },
            None => {},
        }
        match db.update_item(item) {
            Ok(_) => {},
            Err(e) => {
                return Err(e);
            },
        }
        i += 1;
    }
    assert(edit.items@.take(i as int) =~= edit.items@);
    Ok(())
}

/// Sets the flags of items as a form asks.
pub fn edit_tag(db: &mut Helper, form: &Form) -> (r: Result<(), EditTagError>)
    requires
        old(db)@.wf(),
    ensures
        final(db)@.wf(),
        match tag_edit(form.deep_view()) {
            Err(e) => r is Err && r->Err_0@ == e && final(db)@ == old(db)@,
            Ok(edit) => final(db)@ == applied(old(db)@, edit).0 && match applied(old(db)@, edit).1 {
                Some(e) => r is Err && r->Err_0@ == EditTagErrorView::Storage(e),
                None => r is Ok,
            },
        },
{
    let edit = match parse_edit_tag(form) {
        Ok(edit) => edit,
        Err(e) => {
            return Err(e);
        },
    };
    match apply_edit_tag(db, &edit) {
        Ok(()) => Ok(()),
        Err(e) => Err(EditTagError::Storage(e)),
    }
}

/// The keys of the items that a form names, in the order of its fields `i`;
/// the first such field that names no item decides the error.
pub open spec fn named_items(form: Seq<(Seq<char>, Seq<char>)>) -> Result<Seq<Id>, InvalidId>
    decreases form.len(),
{
    if form.len() == 0 {
        Ok(Seq::empty())
    } else {
        match named_items(form.drop_last()) {
            Err(e) => Err(e),
            Ok(ids) => if form.last().0 == FIELD_ITEM@ {
                match item_named(form.last().1) {
                    Ok(id) => Ok(ids.push(id.0)),
                    Err(e) => Err(e),
                }
            } else {
                Ok(ids)
            },
        }
    }
}

/// Once a form has failed, more fields do not mend it.
pub proof fn lemma_named_items_fails(form: Seq<(Seq<char>, Seq<char>)>, k: int)
    requires
        0 <= k <= form.len(),
        named_items(form.take(k)) is Err,
    ensures
        named_items(form) == named_items(form.take(k)),
    decreases form.len(),
{
    if k == form.len() {
        assert(form.take(k) =~= form);
    } else {
        assert(form.drop_last().take(k) =~= form.take(k));
        lemma_named_items_fails(form.drop_last(), k);
    }
}

/// Reads the keys of the items that a form names.
pub fn parse_item_contents(form: &Form) -> (r: Result<Vec<Id>, InvalidId>)
    ensures
        match named_items(form.deep_view()) {
            Ok(ids) => r is Ok && r->Ok_0@ == ids,
            Err(e) => r == Err::<Vec<Id>, InvalidId>(e),
        },
{
    let ghost all = form.deep_view();
    let mut ids: Vec<Id> = Vec::new();
    let mut i: usize = 0;
    while i < form.len()
        invariant
            i <= form.len(),
            all == form.deep_view(),
            named_items(all.take(i as int)) == Ok::<Seq<Id>, InvalidId>(ids@),
        decreases form.len() - i,
    {
        proof {
            assert(all.take(i as int + 1).drop_last() =~= all.take(i as int));
            assert(all.take(i as int + 1).last() == (form[i as int].0@, form[i as int].1@));
            if named_items(all.take(i as int + 1)) is Err {
                lemma_named_items_fails(all, i as int + 1);
            }
        }
        if same_text(form[i].0.as_str(), FIELD_ITEM) {
            match ItemId::try_from(form[i].1.clone()) {
                Ok(id) => {
                    ids.push(id.0);
                },
                Err(e) => {
                    return Err(e);
                },
            }
        }
        i += 1;
    }
    assert(all.take(i as int) =~= all);
    Ok(ids)
}

/// The items that a form names, each with the subscription that it belongs
/// to.
pub fn item_contents(db: &Helper, form: &Form) -> (r: Result<Vec<(Item, Subscription)>, InvalidId>)
    requires
        db@.wf(),
    ensures
        match named_items(form.deep_view()) {
            Ok(ids) => r is Ok && r->Ok_0.deep_view() == db@.items_and_subscriptions(ids),
            Err(e) => r is Err && r->Err_0 == e,
        },
{
    match parse_item_contents(form) {
        Ok(ids) => Ok(db.get_items_and_subscriptions(ids)),
        Err(e) => Err(e),
    }
}

} // verus!
