//! The names of streams and of items.

use vstd::prelude::*;
use vstd::string::StrSliceExecFns;
use vstd::string::StringExecFns;

use crate::db::helper::Helper;
use crate::db::models::ItemView;
use crate::db::Id;
use crate::lemmas::lemma_take_next;
use crate::number::{
    decimal, decimal_text, decimal_text_wide, long_hex, long_hex_text, parse_integer, parsed,
};
use crate::updater::Timestamp;
use crate::reader::subscription::{
    label_named, lemma_label_id_round_trip, lemma_subscription_id_round_trip, subscription_named,
    text_after, LabelId, SubscriptionId, LABEL_ID_PREFIX, SUBSCRIPTION_ID_PREFIX,
};
use crate::reader::InvalidId;
use crate::utils::{same_text, starts_with};

verus! {

/// The name of the stream of all unread items.
pub const UNREAD_STREAM: &'static str = "user/-/state/com.google/reading-list";

/// The name of the stream of all read items.
pub const READ_STREAM: &'static str = "user/-/state/com.google/read";

/// The name of the stream of all starred items.
pub const STARRED_STREAM: &'static str = "user/-/state/com.google/starred";

/// What the long name of an item begins with.
pub const LONG_ITEM_ID_PREFIX: &'static str = "tag:google.com,2005:reader/item/";

/// A stream is a set of items.
#[derive(Debug)]
pub enum StreamId {
    /// All unread items.
    Unread,
    /// All read items.
    Read,
    /// All starred items.
    Starred,
    /// All items under a label.
    UserLabel(LabelId),
    /// All items of a subscription.
    Subscription(SubscriptionId),
}

/// A stream as a mathematical value.
pub ghost enum StreamIdView {
    Unread,
    Read,
    Starred,
    UserLabel(Seq<char>),
    Subscription(SubscriptionId),
}

impl View for StreamId {
    type V = StreamIdView;

    open spec fn view(&self) -> StreamIdView {
        match *self {
            StreamId::Unread => StreamIdView::Unread,
            StreamId::Read => StreamIdView::Read,
            StreamId::Starred => StreamIdView::Starred,
            StreamId::UserLabel(label) => StreamIdView::UserLabel(label@),
            StreamId::Subscription(id) => StreamIdView::Subscription(id),
        }
    }
}

/// The stream that a text names: one of the three states, else a label,
/// else a feed.
pub open spec fn stream_named(value: Seq<char>) -> Result<StreamIdView, InvalidId> {
    if value == UNREAD_STREAM@ {
        Ok(StreamIdView::Unread)
    } else if value == READ_STREAM@ {
        Ok(StreamIdView::Read)
    } else if value == STARRED_STREAM@ {
        Ok(StreamIdView::Starred)
    } else if LABEL_ID_PREFIX@.is_prefix_of(value) {
        match label_named(value) {
            Ok(label) => Ok(StreamIdView::UserLabel(label)),
            Err(e) => Err(e),
        }
    } else if SUBSCRIPTION_ID_PREFIX@.is_prefix_of(value) {
        match subscription_named(value) {
            Ok(id) => Ok(StreamIdView::Subscription(id)),
            Err(e) => Err(e),
        }
    } else {
        Err(InvalidId::Stream)
    }
}

/// The name of a stream.
pub open spec fn stream_name(stream: StreamIdView) -> Seq<char> {
    match stream {
        StreamIdView::Unread => UNREAD_STREAM@,
        StreamIdView::Read => READ_STREAM@,
        StreamIdView::Starred => STARRED_STREAM@,
        StreamIdView::UserLabel(label) => LABEL_ID_PREFIX@ + label,
        StreamIdView::Subscription(id) => SUBSCRIPTION_ID_PREFIX@ + decimal(id.0@),
    }
}

/// The name of a stream is read back as the stream.
pub proof fn lemma_stream_id_round_trip(stream: StreamIdView)
    ensures
        stream_named(stream_name(stream)) == Ok::<StreamIdView, InvalidId>(stream),
{
    reveal_strlit("user/-/state/com.google/reading-list");
    reveal_strlit("user/-/state/com.google/read");
    reveal_strlit("user/-/state/com.google/starred");
    reveal_strlit("user/-/label/");
    reveal_strlit("feed/");
    let name = stream_name(stream);
    match stream {
        StreamIdView::Unread => {},
        StreamIdView::Read => {
            assert(READ_STREAM@.len() != UNREAD_STREAM@.len());
        },
        StreamIdView::Starred => {
            assert(STARRED_STREAM@.len() != UNREAD_STREAM@.len());
            assert(STARRED_STREAM@.len() != READ_STREAM@.len());
        },
        StreamIdView::UserLabel(label) => {
            lemma_label_id_round_trip(label);
            assert(name[7] == 'l');
            assert(UNREAD_STREAM@[7] == 's');
            assert(READ_STREAM@[7] == 's');
            assert(STARRED_STREAM@[7] == 's');
        },
        StreamIdView::Subscription(id) => {
            lemma_subscription_id_round_trip(id);
            assert(name[0] == 'f');
            assert(UNREAD_STREAM@[0] == 'u');
            assert(READ_STREAM@[0] == 'u');
            assert(STARRED_STREAM@[0] == 'u');
            assert(LABEL_ID_PREFIX@[0] == 'u');
            if LABEL_ID_PREFIX@.is_prefix_of(name) {
                assert(name.subrange(0, LABEL_ID_PREFIX@.len() as int)[0] == name[0]);
            }
            assert(name.subrange(0, SUBSCRIPTION_ID_PREFIX@.len() as int)
                =~= SUBSCRIPTION_ID_PREFIX@);
        },
    }
}

impl StreamId {
    /// The name of the stream.
    pub fn into(self) -> (text: String)
        ensures
            text@ == stream_name(self@),
    {
        match self {
            StreamId::Unread => UNREAD_STREAM.to_owned(),
            StreamId::Read => READ_STREAM.to_owned(),
            StreamId::Starred => STARRED_STREAM.to_owned(),
            StreamId::UserLabel(label) => label.into(),
            StreamId::Subscription(id) => id.into(),
        }
    }

    /// Reads the name of a stream.
    pub fn try_from(value: String) -> (r: Result<Self, InvalidId>)
        ensures
            match stream_named(value@) {
                Ok(stream) => r is Ok && r->Ok_0@ == stream,
                Err(e) => r is Err && r->Err_0 == e,
            },
    {
        let text = value.as_str();
        if same_text(text, UNREAD_STREAM) {
            Ok(StreamId::Unread)
        } else if same_text(text, READ_STREAM) {
            Ok(StreamId::Read)
        } else if same_text(text, STARRED_STREAM) {
            Ok(StreamId::Starred)
        } else if starts_with(text, LABEL_ID_PREFIX) {
            match LabelId::try_from(text) {
                Ok(label) => Ok(StreamId::UserLabel(label)),
                Err(e) => Err(e),
            }
        } else if starts_with(text, SUBSCRIPTION_ID_PREFIX) {
            match SubscriptionId::try_from(text) {
                Ok(id) => Ok(StreamId::Subscription(id)),
                Err(e) => Err(e),
            }
        } else {
            Err(InvalidId::Stream)
        }
    }
}

/// An item is an entry of a feed.
#[derive(Debug, Clone, Copy, Hash, PartialEq, Eq, Structural)]
pub struct ItemId(pub Id);

/// The number of bytes that a text takes.
pub open spec fn byte_length(text: Seq<char>) -> nat {
    vstd::utf8::encode_utf8(text).len()
}

/// The item that a text names. The long name is the prefix and the key in
/// hexadecimal notation; a text of sixteen bytes is the key in hexadecimal
/// notation; any other is the key in decimal notation.
pub open spec fn item_named(value: Seq<char>) -> Result<ItemId, InvalidId> {
    let number = if LONG_ITEM_ID_PREFIX@.is_prefix_of(value) {
        parsed(value.skip(LONG_ITEM_ID_PREFIX@.len() as int), 16, i32::MIN as int, i32::MAX as int)
    } else if byte_length(value) == 16 {
        parsed(value, 16, i32::MIN as int, i32::MAX as int)
    } else {
        parsed(value, 10, i32::MIN as int, i32::MAX as int)
    };
    match number {
        Ok(key) => Ok(ItemId(Id(key as i32))),
        Err(e) => Err(InvalidId::Number(e)),
    }
}

impl ItemId {
    /// Reads the name of an item, in its long or its short form.
    pub fn try_from(value: String) -> (r: Result<Self, InvalidId>)
        ensures
            r == item_named(value@),
    {
        let text = value.as_str();
        let number = if starts_with(text, LONG_ITEM_ID_PREFIX) {
            let rest = text_after(text, LONG_ITEM_ID_PREFIX.unicode_len());
            parse_integer(rest, 16, -0x8000_0000, 0x7fff_ffff)
        } else if text.as_bytes().len() == 16 {
            parse_integer(text, 16, -0x8000_0000, 0x7fff_ffff)
        } else {
            parse_integer(text, 10, -0x8000_0000, 0x7fff_ffff)
        };
        match number {
            Ok(key) => Ok(ItemId(Id::from_raw(key as i32))),
            Err(e) => Err(InvalidId::Number(e)),
        }
    }
}

/// The short name of an item: its key in decimal notation.
pub fn short(id: &ItemId) -> (text: String)
    ensures
        text@ == decimal(id.0@),
{
    decimal_text(id.0.inner())
}

/// The long name of an item: the prefix, and its key in hexadecimal
/// notation, sixteen characters wide.
pub fn long(id: &ItemId) -> (text: String)
    ensures
        text@ == LONG_ITEM_ID_PREFIX@ + long_hex(id.0@),
{
    let number = long_hex_text(id.0.inner());
    LONG_ITEM_ID_PREFIX.to_owned().concat(number.as_str())
}

/// Tells whether two streams are the same.
pub fn same_stream(a: &StreamId, b: &StreamId) -> (yes: bool)
    ensures
        yes == (a@ == b@),
{
    match (a, b) {
        (StreamId::Unread, StreamId::Unread) => true,
        (StreamId::Read, StreamId::Read) => true,
        (StreamId::Starred, StreamId::Starred) => true,
        (StreamId::UserLabel(x), StreamId::UserLabel(y)) => x.same(y),
        (StreamId::Subscription(x), StreamId::Subscription(y)) => *x == *y,
        _ => false,
    }
}

/// The error of a query that asks for a stream and excludes the same.
#[derive(Debug, Clone, Copy, PartialEq, Eq, Structural)]
pub struct SameStream;

impl SameStream {
    /// The reason, for a person to read.
    pub fn message(&self) -> (text: String)
        ensures
            text@ == "Same value for s and xt"@,
    {
        "Same value for s and xt".to_owned()
    }
}

/// What a query asks of one flag, `wanted` being the stream of the items
/// that have it: the flag must be set where that stream is asked for, it
/// must not be set where that stream is excluded, and it is not looked at
/// otherwise.
pub open spec fn flag_asked(
    wanted: StreamIdView,
    stream: StreamIdView,
    exclude: Option<StreamIdView>,
) -> Option<bool> {
    if stream == wanted {
        Some(true)
    } else if exclude == Some(wanted) {
        Some(false)
    } else {
        None
    }
}

/// An optional stream as a mathematical value.
pub open spec fn optional_stream(stream: Option<StreamId>) -> Option<StreamIdView> {
    match stream {
        Some(stream) => Some(stream@),
        None => None,
    }
}

/// What a query for the items of `stream` without those of `exclude` asks
/// of the flags of an item: first of the read flag, then of the starred
/// flag. A query that excludes what it asks for is refused.
pub fn item_filters(stream: &StreamId, exclude: &Option<StreamId>) -> (r: Result<
    (Option<bool>, Option<bool>),
    SameStream,
>)
    ensures
        optional_stream(*exclude) == Some(stream@) ==> r is Err,
        optional_stream(*exclude) != Some(stream@) ==> r == Ok::<
            (Option<bool>, Option<bool>),
            SameStream,
        >(
            (
                flag_asked(StreamIdView::Read, stream@, optional_stream(*exclude)),
                flag_asked(StreamIdView::Starred, stream@, optional_stream(*exclude)),
            ),
        ),
{
    match exclude {
        Some(excluded) => {
            if same_stream(excluded, stream) {
                return Err(SameStream);
            }
        },
        None => {},
    }
    let is_read = match (stream, exclude) {
        (StreamId::Read, _) => Some(true),
        (_, Some(StreamId::Read)) => Some(false),
        _ => None,
    };
    let is_starred = match (stream, exclude) {
        (StreamId::Starred, _) => Some(true),
        (_, Some(StreamId::Starred)) => Some(false),
        _ => None,
    };
    Ok((is_read, is_starred))
}

/// The whole seconds of an instant, counted from the epoch; an instant
/// before the epoch counts down.
pub fn seconds(at: Timestamp) -> (s: i64)
    ensures
        s == at as int / 1_000_000,
{
    if at >= 0 {
        at / 1_000_000
    } else {
        let short: i64 = -(at + 1);
        -(short / 1_000_000) - 1
    }
}

/// An instant as the protocol writes it: microseconds since the epoch, in
/// decimal notation.
pub fn timestamp_usec(at: Timestamp) -> (text: String)
    ensures
        text@ == decimal(at as int),
{
    decimal_text_wide(at)
}

/// A reference to an item: its name, and when it was published.
#[derive(Debug)]
pub struct ItemRef {
    pub id: ItemId,
    pub timestamp_usec: String,
}

/// A reference to an item as a mathematical value.
pub ghost struct ItemRefView {
    pub id: ItemId,
    pub timestamp_usec: Seq<char>,
}

impl View for ItemRef {
    type V = ItemRefView;

    open spec fn view(&self) -> ItemRefView {
        ItemRefView { id: self.id, timestamp_usec: self.timestamp_usec@ }
    }
}

impl DeepView for ItemRef {
    type V = ItemRefView;

    open spec fn deep_view(&self) -> ItemRefView {
        self@
    }
}

/// The reference to an item.
pub open spec fn reference_to() -> spec_fn(ItemView) -> ItemRefView {
    |item: ItemView| ItemRefView { id: ItemId(item.id), timestamp_usec: decimal(item.published) }
}

/// The references to the items of a stream, `count` at most: those that are
/// read where the read stream is asked for, those that are not where it is
/// excluded, and likewise for the starred stream.
pub fn item_ids(db: &Helper, stream: &StreamId, exclude: &Option<StreamId>, count: usize) -> (r:
    Result<Vec<ItemRef>, SameStream>)
    ensures
        optional_stream(*exclude) == Some(stream@) ==> r is Err,
        optional_stream(*exclude) != Some(stream@) ==> r is Ok && r->Ok_0.deep_view()
            == db@.find_items(
            flag_asked(StreamIdView::Read, stream@, optional_stream(*exclude)),
            flag_asked(StreamIdView::Starred, stream@, optional_stream(*exclude)),
            count as nat,
        ).map_values(reference_to()),
{
    let (is_read, is_starred) = match item_filters(stream, exclude) {
        Ok(filters) => filters,
        Err(e) => {
            return Err(e);
        },
    };
    let items = db.find_items(is_read, is_starred, count);
    let mut refs: Vec<ItemRef> = Vec::new();
    let mut i: usize = 0;
    while i < items.len()
        invariant
            i <= items.len(),
            refs.deep_view() == items.deep_view().take(i as int).map_values(reference_to()),
        decreases items.len() - i,
    {
        let ghost before = refs.deep_view();
        refs.push(
            ItemRef { id: ItemId(items[i].id), timestamp_usec: timestamp_usec(items[i].published) },
        );
        proof {
            lemma_take_next(items.deep_view(), i as int);
            assert(refs.deep_view() =~= before.push(reference_to()(items.deep_view()[i as int])));
            assert(items.deep_view().take(i as int).push(items.deep_view()[i as int]).map_values(
                reference_to(),
            ) =~= before.push(reference_to()(items.deep_view()[i as int])));
        }
        i += 1;
    }
    assert(items.deep_view().take(i as int) =~= items.deep_view());
    Ok(refs)
}

} // verus!
