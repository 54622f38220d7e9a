use freader::auth::login;
use freader::cli::{exit_code, handle_cli_args, Command, USAGE};
use freader::config::Config;
use freader::db::helper::Helper;
use freader::db::models::{
    Category, Item, NewItem, NewSubscription, Subscription, SubscriptionCategory,
};
use freader::db::tables::Error;
use freader::db::Id;
use freader::number::ParseIntError;
use freader::opml::{import, import_outlines, FeedOutline, ImportError, RootOutline};
use freader::reader::stream::{
    item_filters, item_ids, same_stream, seconds, timestamp_usec, ItemId, SameStream, StreamId,
};
use freader::reader::subscription::{
    edit, list, same_label, EditError, LabelId, SubscriptionId,
};
use freader::reader::utils::require_auth::{RequireAuth, Verdict};
use freader::reader::{
    apply_edit_tag, edit_tag, item_contents, parse_edit_tag, parse_item_contents, EditTagError,
    InvalidId, TagEdit,
};
use freader::utils::contains_text;

fn field(key: &str, value: &str) -> (String, String) {
    (key.to_string(), value.to_string())
}

fn store() -> (Helper, Subscription, Subscription) {
    let mut db = Helper::new();
    let a = db
        .create_subscription(NewSubscription {
            feed_url: "http://a/feed".to_string(),
            title: "A".to_string(),
            site_url: Some("http://a/".to_string()),
            next_refresh: 0,
        })
        .unwrap();
    let b = db
        .create_subscription(NewSubscription {
            feed_url: "http://b/feed".to_string(),
            title: "B".to_string(),
            site_url: None,
            next_refresh: 0,
        })
        .unwrap();
    for (subscription, title, published) in
        [(a.id, "one", 1_500_000), (b.id, "two", 2_000_000), (a.id, "three", -1)]
    {
        db.create_item(NewItem {
            subscription_id: subscription,
            url: format!("http://x/{}", title),
            title: title.to_string(),
            author: None,
            published,
            updated: published,
            content: String::new(),
            is_read: false,
            is_starred: false,
        })
        .unwrap();
    }
    (db, a, b)
}

fn flags(db: &Helper, id: i32) -> (bool, bool) {
    let item = db.get_item(Id::from_raw(id)).unwrap();
    (item.is_read, item.is_starred)
}

#[test]
fn signing_in() {
    let cfg = Config {
        http_host: "localhost".to_string(),
        http_port: 80,
        auth_username: "user".to_string(),
        auth_password: "secret".to_string(),
        sqlite_db: "db".to_string(),
    };
    assert_eq!(login(&cfg, "user", "secret"), Some("secret".to_string()));
    assert_eq!(login(&cfg, "user", "wrong"), None);
    assert_eq!(login(&cfg, "other", "secret"), None);
    assert_eq!(login(&cfg, "", ""), None);
}

#[test]
fn the_guard_decides() {
    let ok = Some("GoogleLogin auth=secret");
    assert_eq!(RequireAuth::call("secret", ok, None, ""), Verdict::Pass);
    assert_eq!(
        RequireAuth::call("secret", ok, Some("application/json"), "output=json"),
        Verdict::Pass
    );
    assert_eq!(RequireAuth::call("secret", None, None, ""), Verdict::RefuseText);
    assert_eq!(RequireAuth::call("secret", Some("secret"), None, ""), Verdict::RefuseText);
    assert_eq!(
        RequireAuth::call("secret", Some("GoogleLogin auth=secre"), None, "a=b"),
        Verdict::RefuseText
    );
    assert_eq!(
        RequireAuth::call("secret", Some("GoogleLogin auth=secrets"), None, "a=b"),
        Verdict::RefuseText
    );
    assert_eq!(
        RequireAuth::call("secret", None, Some("application/json"), ""),
        Verdict::RefuseJson
    );
    assert_eq!(
        RequireAuth::call("secret", None, Some("text/html"), "n=1&output=json&x"),
        Verdict::RefuseJson
    );
    assert_eq!(
        RequireAuth::call("secret", None, Some("application/json; charset=utf-8"), "output=jso"),
        Verdict::RefuseText
    );
}

#[test]
fn text_is_found_in_text() {
    assert!(contains_text("abc", ""));
    assert!(contains_text("", ""));
    assert!(contains_text("abc", "abc"));
    assert!(contains_text("xxabc", "abc"));
    assert!(contains_text("abcxx", "abc"));
    assert!(contains_text("ababc", "abc"));
    assert!(!contains_text("ab", "abc"));
    assert!(!contains_text("", "a"));
    assert!(!contains_text("abxc", "abc"));
    assert!(contains_text("été", "té"));
}

#[test]
fn arguments_are_read_one_command_at_a_time() {
    let args: Vec<String> =
        ["--import", "a.opml", "--import", "b.opml", "-h", "x"].iter().map(|s| s.to_string()).collect();
    match handle_cli_args(&args, 0) {
        (Command::Import(file), 2) => assert_eq!(file, "a.opml"),
        other => panic!("{:?}", other),
    }
    match handle_cli_args(&args, 2) {
        (Command::Import(file), 4) => assert_eq!(file, "b.opml"),
        other => panic!("{:?}", other),
    }
    assert!(matches!(handle_cli_args(&args, 4), (Command::Help, 5)));
    match handle_cli_args(&args, 5) {
        (Command::Unknown(argument), 6) => assert_eq!(argument, "x"),
        other => panic!("{:?}", other),
    }
    assert!(matches!(handle_cli_args(&args, 6), (Command::Done, 6)));
    assert!(matches!(handle_cli_args(&args, 9), (Command::Done, 9)));
    assert!(matches!(handle_cli_args(&Vec::new(), 0), (Command::Done, 0)));
    let args = vec!["--help".to_string(), "--import".to_string()];
    assert!(matches!(handle_cli_args(&args, 0), (Command::Help, 1)));
    match handle_cli_args(&args, 1) {
        (Command::MissingValue(flag), 2) => assert_eq!(flag, "--import"),
        other => panic!("{:?}", other),
    }
    assert_eq!(exit_code(&Command::Help), Some(0));
    assert_eq!(exit_code(&Command::MissingValue("--import".to_string())), Some(1));
    assert_eq!(exit_code(&Command::Unknown("x".to_string())), Some(1));
    assert_eq!(exit_code(&Command::Import("f".to_string())), None);
    assert_eq!(exit_code(&Command::Done), None);
    assert_eq!(USAGE, "USAGE: freader [-h | --help] [--import OPML]");
}

#[test]
fn streams_are_compared() {
    assert!(same_stream(&StreamId::Read, &StreamId::Read));
    assert!(!same_stream(&StreamId::Read, &StreamId::Unread));
    assert!(same_stream(
        &StreamId::UserLabel(LabelId("a".to_string())),
        &StreamId::UserLabel(LabelId("a".to_string()))
    ));
    assert!(!same_stream(
        &StreamId::UserLabel(LabelId("a".to_string())),
        &StreamId::UserLabel(LabelId("b".to_string()))
    ));
    assert!(same_stream(
        &StreamId::Subscription(SubscriptionId(Id::from_raw(1))),
        &StreamId::Subscription(SubscriptionId(Id::from_raw(1)))
    ));
    assert!(!same_stream(
        &StreamId::Subscription(SubscriptionId(Id::from_raw(1))),
        &StreamId::Subscription(SubscriptionId(Id::from_raw(2)))
    ));
    assert!(same_label(&None, &None));
    assert!(!same_label(&None, &Some(LabelId("a".to_string()))));
    assert!(same_label(&Some(LabelId("a".to_string())), &Some(LabelId("a".to_string()))));
    assert!(!same_label(&Some(LabelId("a".to_string())), &Some(LabelId("b".to_string()))));
}

#[test]
fn a_query_asks_for_flags() {
    assert_eq!(item_filters(&StreamId::Read, &None), Ok((Some(true), None)));
    assert_eq!(item_filters(&StreamId::Starred, &None), Ok((None, Some(true))));
    assert_eq!(item_filters(&StreamId::Unread, &None), Ok((None, None)));
    assert_eq!(
        item_filters(&StreamId::Unread, &Some(StreamId::Read)),
        Ok((Some(false), None))
    );
    assert_eq!(
        item_filters(&StreamId::Starred, &Some(StreamId::Read)),
        Ok((Some(false), Some(true)))
    );
    assert_eq!(
        item_filters(&StreamId::Read, &Some(StreamId::Starred)),
        Ok((Some(true), Some(false)))
    );
    assert_eq!(
        item_filters(&StreamId::Subscription(SubscriptionId(Id::from_raw(1))), &None),
        Ok((None, None))
    );
    assert_eq!(item_filters(&StreamId::Read, &Some(StreamId::Read)), Err(SameStream));
    assert_eq!(item_filters(&StreamId::Unread, &Some(StreamId::Unread)), Err(SameStream));
    assert_eq!(SameStream.message(), "Same value for s and xt");
}

#[test]
fn instants_are_written_for_the_protocol() {
    assert_eq!(seconds(0), 0);
    assert_eq!(seconds(999_999), 0);
    assert_eq!(seconds(1_000_000), 1);
    assert_eq!(seconds(1_577_836_800_123_456), 1_577_836_800);
    assert_eq!(seconds(-1), -1);
    assert_eq!(seconds(-1_000_000), -1);
    assert_eq!(seconds(-1_000_001), -2);
    assert_eq!(seconds(i64::MIN), i64::MIN.div_euclid(1_000_000));
    assert_eq!(seconds(i64::MAX), i64::MAX / 1_000_000);
    assert_eq!(timestamp_usec(1_577_836_800_123_456), "1577836800123456");
    assert_eq!(timestamp_usec(0), "0");
    assert_eq!(timestamp_usec(-15), "-15");
    assert_eq!(timestamp_usec(i64::MIN), i64::MIN.to_string());
    assert_eq!(timestamp_usec(i64::MAX), i64::MAX.to_string());
}

#[test]
fn item_references_of_a_stream() {
    let (mut db, _, _) = store();
    let mut two = db.get_item(Id::from_raw(2)).unwrap();
    two.is_read = true;
    db.update_item(two).unwrap();
    let all = item_ids(&db, &StreamId::Unread, &None, 10).unwrap();
    assert_eq!(all.len(), 3);
    assert_eq!(all[0].id, ItemId(Id::from_raw(1)));
    assert_eq!(all[0].timestamp_usec, "1500000");
    assert_eq!(all[2].timestamp_usec, "-1");
    let read = item_ids(&db, &StreamId::Read, &None, 10).unwrap();
    assert_eq!(read.len(), 1);
    assert_eq!(read[0].id, ItemId(Id::from_raw(2)));
    let unread = item_ids(&db, &StreamId::Unread, &Some(StreamId::Read), 1).unwrap();
    assert_eq!(unread.len(), 1);
    assert_eq!(unread[0].id, ItemId(Id::from_raw(1)));
    assert!(item_ids(&db, &StreamId::Read, &Some(StreamId::Read), 10).is_err());
}

#[test]
fn a_form_asks_for_flags() {
    let form = vec![
        field("i", "1"),
        field("T", "token"),
        field("a", "user/-/state/com.google/read"),
        field("i", "tag:google.com,2005:reader/item/0000000000000003"),
        field("r", "user/-/state/com.google/starred"),
        field("a", "user/-/label/News"),
    ];
    let edit = parse_edit_tag(&form).unwrap();
    assert_eq!(edit.items, vec![ItemId(Id::from_raw(1)), ItemId(Id::from_raw(3))]);
    assert_eq!(edit.is_read, Some(true));
    assert_eq!(edit.is_starred, Some(false));

    let edit = parse_edit_tag(&vec![field("r", "user/-/state/com.google/read")]).unwrap();
    assert_eq!((edit.is_read, edit.is_starred), (Some(false), None));
    let edit = parse_edit_tag(&vec![field("a", "user/-/state/com.google/reading-list")]).unwrap();
    assert_eq!((edit.is_read, edit.is_starred), (Some(false), None));
    let edit = parse_edit_tag(&vec![field("r", "user/-/state/com.google/reading-list")]).unwrap();
    assert_eq!((edit.is_read, edit.is_starred), (Some(true), None));
    let edit = parse_edit_tag(&vec![
        field("a", "user/-/state/com.google/read"),
        field("r", "user/-/state/com.google/read"),
    ])
    .unwrap();
    assert_eq!(edit.is_read, Some(false));
    let edit = parse_edit_tag(&Vec::new()).unwrap();
    assert!(edit.items.is_empty());
    assert_eq!((edit.is_read, edit.is_starred), (None, None));

    match parse_edit_tag(&vec![field("i", "1"), field("i", "x"), field("a", "bad")]) {
        Err(EditTagError::InvalidItem(value, e)) => {
            assert_eq!(value, "x");
            assert_eq!(e, InvalidId::Number(ParseIntError::InvalidDigit));
        }
        other => panic!("{:?}", other),
    }
    match parse_edit_tag(&vec![field("r", "bad"), field("i", "x")]) {
        Err(EditTagError::InvalidStream(value, e)) => {
            assert_eq!(value, "bad");
            assert_eq!(e, InvalidId::Stream);
        }
        other => panic!("{:?}", other),
    }
}

#[test]
fn flags_are_set_as_a_form_asks() {
    let (mut db, _, _) = store();
    let form = vec![
        field("i", "1"),
        field("i", "3"),
        field("a", "user/-/state/com.google/read"),
        field("a", "user/-/state/com.google/starred"),
    ];
    assert!(edit_tag(&mut db, &form).is_ok());
    assert_eq!(flags(&db, 1), (true, true));
    assert_eq!(flags(&db, 2), (false, false));
    assert_eq!(flags(&db, 3), (true, true));
    let form = vec![field("r", "user/-/state/com.google/starred"), field("i", "3")];
    assert!(edit_tag(&mut db, &form).is_ok());
    assert_eq!(flags(&db, 3), (true, false));
    assert_eq!(flags(&db, 1), (true, true));

    // Items without a flag to set: nothing is looked up.
    assert!(edit_tag(&mut db, &vec![field("i", "99")]).is_ok());
    // An item that is not there stops the run; those before it stay changed.
    let form = vec![
        field("i", "2"),
        field("i", "99"),
        field("i", "1"),
        field("r", "user/-/state/com.google/read"),
    ];
    match edit_tag(&mut db, &form) {
        Err(EditTagError::Storage(Error::NotFound)) => {}
        other => panic!("{:?}", other),
    }
    assert_eq!(flags(&db, 2), (false, false));
    assert_eq!(flags(&db, 1), (true, true));
    let mut two = db.get_item(Id::from_raw(2)).unwrap();
    two.is_read = true;
    db.update_item(two).unwrap();
    let _ = edit_tag(&mut db, &form);
    assert_eq!(flags(&db, 2), (false, false));
    // A form that cannot be read changes nothing.
    let form = vec![field("a", "user/-/state/com.google/read"), field("i", "1"), field("i", "?")];
    assert!(matches!(edit_tag(&mut db, &form), Err(EditTagError::InvalidItem(_, _))));
    let edit = TagEdit { items: vec![ItemId(Id::from_raw(2))], is_read: None, is_starred: Some(true) };
    assert_eq!(apply_edit_tag(&mut db, &edit), Ok(()));
    assert_eq!(flags(&db, 2), (false, true));
}

#[test]
fn a_form_names_items() {
    let (db, a, b) = store();
    let form = vec![field("i", "3"), field("x", "nonsense"), field("i", "000000000000000002")];
    assert_eq!(
        parse_item_contents(&form),
        Ok(vec![Id::from_raw(3), Id::from_raw(2)])
    );
    let pairs = item_contents(&db, &form).unwrap();
    assert_eq!(pairs.len(), 2);
    assert_eq!((pairs[0].0.title.as_str(), pairs[0].1.id), ("two", b.id));
    assert_eq!((pairs[1].0.title.as_str(), pairs[1].1.id), ("three", a.id));
    assert_eq!(parse_item_contents(&Vec::new()), Ok(Vec::new()));
    assert_eq!(
        parse_item_contents(&vec![field("i", "1"), field("i", ""), field("i", "x")]),
        Err(InvalidId::Number(ParseIntError::Empty))
    );
    assert!(item_contents(&db, &vec![field("i", "x")]).is_err());
}

#[test]
fn subscriptions_are_listed_with_their_categories() {
    let (mut db, a, b) = store();
    db.subscription_add_category(a.id, "News".to_string()).unwrap();
    db.subscription_add_category(a.id, "Tech".to_string()).unwrap();
    let rows = list(&db);
    assert_eq!(rows.len(), 2);
    assert_eq!(rows[0].0.id, a.id);
    assert_eq!(rows[0].1.iter().map(|c| c.name.as_str()).collect::<Vec<_>>(), vec!["News", "Tech"]);
    assert_eq!(rows[1].0.id, b.id);
    assert!(rows[1].1.is_empty());
    assert!(list(&Helper::new()).is_empty());
}

#[test]
fn a_subscription_is_edited() {
    let (mut db, a, b) = store();
    let id = SubscriptionId(a.id);
    let news = || Some(LabelId("News".to_string()));
    let tech = || Some(LabelId("Tech".to_string()));
    assert_eq!(edit(&mut db, id, "edit", Some("Renamed".to_string()), news(), None), Ok(()));
    assert_eq!(db.get_subscription(a.id).unwrap().title, "Renamed");
    assert_eq!(db.get_subscription_categories(a.id).len(), 1);
    // The same label to add and to remove: nothing is filed.
    assert_eq!(edit(&mut db, id, "edit", None, tech(), tech()), Ok(()));
    assert_eq!(db.get_subscription_categories(a.id).len(), 1);
    // One label for another.
    assert_eq!(edit(&mut db, id, "edit", None, tech(), news()), Ok(()));
    let names: Vec<String> =
        db.get_subscription_categories(a.id).into_iter().map(|c| c.name).collect();
    assert_eq!(names, vec!["Tech"]);
    assert_eq!(edit(&mut db, id, "edit", None, None, tech()), Ok(()));
    assert!(db.get_subscription_categories(a.id).is_empty());
    assert_eq!(edit(&mut db, id, "edit", None, None, None), Ok(()));

    assert_eq!(edit(&mut db, id, "delete", None, None, None), Err(EditError::BadAction));
    assert_eq!(edit(&mut db, id, "", Some("X".to_string()), None, None), Err(EditError::BadAction));
    assert_eq!(db.get_subscription(a.id).unwrap().title, "Renamed");

    let nobody = SubscriptionId(Id::from_raw(50));
    assert_eq!(
        edit(&mut db, nobody, "edit", Some("X".to_string()), news(), None),
        Err(EditError::Storage(Error::NotFound))
    );
    assert_eq!(
        edit(&mut db, nobody, "edit", None, news(), None),
        Err(EditError::Storage(Error::ForeignKeyViolation))
    );
    assert_eq!(edit(&mut db, nobody, "edit", None, None, news()), Ok(()));

    assert_eq!(edit(&mut db, id, "unsubscribe", Some("ignored".to_string()), news(), None), Ok(()));
    assert!(db.get_subscription(a.id).is_err());
    assert!(db.get_subscription_items(a.id).is_empty());
    assert_eq!(db.get_subscription_items(b.id).len(), 1);
    assert_eq!(EditError::BadAction.message(), "Bad value for ac");
    assert_eq!(EditError::Storage(Error::NotFound).message(), "Record not found");
}

fn feed(title: &str, url: Option<&str>) -> FeedOutline {
    FeedOutline {
        text: format!("text of {}", title),
        title: Some(title.to_string()),
        xml_url: url.map(|u| u.to_string()),
        html_url: Some(format!("http://home/{}", title)),
    }
}

#[test]
fn outlines_are_imported() {
    let mut db = Helper::new();
    let outlines = vec![
        RootOutline { outline: feed("Top", Some("http://top/feed")), outlines: Vec::new() },
        RootOutline {
            outline: FeedOutline {
                text: "News".to_string(),
                title: None,
                xml_url: None,
                html_url: None,
            },
            outlines: vec![
                feed("One", Some("http://one/feed")),
                feed("Top again", Some("http://top/feed")),
                feed("Two", Some("http://two/feed")),
            ],
        },
        RootOutline { outline: feed("Empty", None), outlines: Vec::new() },
    ];
    assert!(import_outlines(&mut db, &outlines).is_ok());
    let all = db.get_subscriptions();
    assert_eq!(
        all.iter().map(|s| s.title.as_str()).collect::<Vec<_>>(),
        vec!["Top", "One", "Two"]
    );
    assert_eq!(all[0].site_url, Some("http://home/Top".to_string()));
    assert!(all.iter().all(|s| s.next_refresh == 0 && s.error_count == 0));
    assert!(db.get_subscription_categories(all[0].id).is_empty());
    assert_eq!(db.get_subscription_categories(all[1].id)[0].name, "News");
    assert_eq!(db.get_subscription_categories(all[2].id)[0].name, "News");
    assert_eq!(db.get_categories().len(), 1);
    assert_eq!(db.find_outdated_subscriptions(0).len(), 3);

    // Importing again passes over what is there.
    assert!(import_outlines(&mut db, &outlines).is_ok());
    assert_eq!(db.get_subscriptions().len(), 3);
}

#[test]
fn a_category_in_a_category_stops_the_import() {
    let mut db = Helper::new();
    let outlines = vec![
        RootOutline {
            outline: feed("Outer", None),
            outlines: vec![
                feed("One", Some("http://one/feed")),
                feed("Inner", None),
                feed("Two", Some("http://two/feed")),
            ],
        },
        RootOutline { outline: feed("Later", Some("http://later/feed")), outlines: Vec::new() },
    ];
    match import_outlines(&mut db, &outlines) {
        Err(ImportError::NestedCategory(parent, title)) => {
            assert_eq!(parent, "Outer");
            assert_eq!(title, "Inner");
        }
        other => panic!("{:?}", other),
    }
    // What came before the failure stays.
    let all = db.get_subscriptions();
    assert_eq!(all.len(), 1);
    assert_eq!(all[0].title, "One");
    assert_eq!(db.get_subscription_categories(all[0].id)[0].name, "Outer");
}

fn subscription_row(id: i32, url: &str) -> Subscription {
    Subscription {
        id: Id::from_raw(id),
        feed_url: url.to_string(),
        title: url.to_string(),
        site_url: None,
        next_refresh: 0,
        error_count: 0,
    }
}

fn item_row(id: i32, subscription: i32) -> Item {
    Item {
        id: Id::from_raw(id),
        subscription_id: Id::from_raw(subscription),
        url: format!("http://x/{}", id),
        title: format!("item {}", id),
        author: None,
        published: 0,
        updated: 0,
        content: String::new(),
        is_read: false,
        is_starred: false,
    }
}

fn category_row(id: i32, name: &str) -> Category {
    Category { id: Id::from_raw(id), name: name.to_string() }
}

fn member(subscription: i32, category: i32) -> SubscriptionCategory {
    SubscriptionCategory {
        subscription_id: Id::from_raw(subscription),
        category_id: Id::from_raw(category),
    }
}

#[test]
fn a_store_is_restored_from_its_rows() {
    let (mut db, a, _) = store();
    db.subscription_add_category(a.id, "News".to_string()).unwrap();
    let mut copy = Helper::restore(
        db.get_subscriptions(),
        db.get_categories(),
        db.get_memberships(),
        db.get_items(),
    )
    .unwrap();
    assert_eq!(copy.get_subscriptions().len(), 2);
    assert_eq!(copy.get_items().len(), 3);
    assert_eq!(copy.get_categories().len(), 1);
    assert_eq!(copy.get_memberships(), vec![member(1, 1)]);
    // Keys go on after the highest.
    let c = copy.create_subscription(NewSubscription {
        feed_url: "http://c/feed".to_string(),
        title: "C".to_string(),
        site_url: None,
        next_refresh: 0,
    });
    assert_eq!(c.unwrap().id, Id::from_raw(3));
    assert_eq!(copy.subscription_add_category(a.id, "Tech".to_string()).unwrap().id, Id::from_raw(2));

    let sparse = Helper::restore(
        vec![subscription_row(7, "http://a"), subscription_row(3, "http://b")],
        vec![category_row(5, "News")],
        vec![member(3, 5)],
        vec![item_row(40, 7), item_row(2, 3)],
    );
    let mut sparse = sparse.unwrap();
    assert_eq!(
        sparse.create_subscription(NewSubscription {
            feed_url: "http://c".to_string(),
            title: "C".to_string(),
            site_url: None,
            next_refresh: 0,
        })
        .unwrap()
        .id,
        Id::from_raw(8)
    );
    assert!(Helper::restore(Vec::new(), Vec::new(), Vec::new(), Vec::new()).is_some());
}

#[test]
fn rows_that_break_the_invariant_are_not_restored() {
    let subs = || vec![subscription_row(1, "http://a"), subscription_row(2, "http://b")];
    // Two subscriptions with one key, or with one address.
    assert!(Helper::restore(
        vec![subscription_row(1, "http://a"), subscription_row(1, "http://b")],
        Vec::new(),
        Vec::new(),
        Vec::new()
    )
    .is_none());
    assert!(Helper::restore(
        vec![subscription_row(1, "http://a"), subscription_row(2, "http://a")],
        Vec::new(),
        Vec::new(),
        Vec::new()
    )
    .is_none());
    // An item of no subscription, and two items with one key.
    assert!(Helper::restore(subs(), Vec::new(), Vec::new(), vec![item_row(1, 3)]).is_none());
    assert!(
        Helper::restore(subs(), Vec::new(), Vec::new(), vec![item_row(1, 1), item_row(1, 2)])
            .is_none()
    );
    // A category without a member, two with one name, two with one key.
    assert!(Helper::restore(subs(), vec![category_row(1, "News")], Vec::new(), Vec::new()).is_none());
    assert!(Helper::restore(
        subs(),
        vec![category_row(1, "News"), category_row(2, "News")],
        vec![member(1, 1), member(1, 2)],
        Vec::new()
    )
    .is_none());
    assert!(Helper::restore(
        subs(),
        vec![category_row(1, "News"), category_row(1, "Tech")],
        vec![member(1, 1)],
        Vec::new()
    )
    .is_none());
    // A membership twice, of no subscription, in no category.
    assert!(Helper::restore(
        subs(),
        vec![category_row(1, "News")],
        vec![member(1, 1), member(1, 1)],
        Vec::new()
    )
    .is_none());
    assert!(
        Helper::restore(subs(), vec![category_row(1, "News")], vec![member(3, 1)], Vec::new())
            .is_none()
    );
    assert!(Helper::restore(
        subs(),
        vec![category_row(1, "News")],
        vec![member(1, 1), member(1, 2)],
        Vec::new()
    )
    .is_none());
    assert!(Helper::restore(
        subs(),
        vec![category_row(1, "News")],
        vec![member(1, 1), member(2, 1)],
        vec![item_row(1, 1), item_row(2, 2)]
    )
    .is_some());
}

const OPML: &str = r#"<?xml version="1.0" encoding="UTF-8"?>
<opml version="2.0">
  <head><title>Subscriptions</title></head>
  <body>
    <outline text="Top" title="Top feed" type="rss" xmlUrl="http://top/feed" htmlUrl="http://top/"/>
    <outline text="News">
      <outline text="One" type="rss" xmlUrl="http://one/feed"/>
      <outline text="Two" title="Second" type="rss" xmlUrl="http://two/feed"/>
    </outline>
  </body>
</opml>
"#;

#[test]
fn an_outline_document_is_imported() {
    let mut db = Helper::new();
    assert!(import(OPML, &mut db).is_ok());
    let all = db.get_subscriptions();
    assert_eq!(
        all.iter().map(|s| (s.title.as_str(), s.feed_url.as_str())).collect::<Vec<_>>(),
        vec![("Top feed", "http://top/feed"), ("One", "http://one/feed"), ("Second", "http://two/feed")]
    );
    assert_eq!(all[0].site_url, Some("http://top/".to_string()));
    assert_eq!(all[1].site_url, None);
    assert!(db.get_subscription_categories(all[0].id).is_empty());
    assert_eq!(db.get_subscription_categories(all[1].id)[0].name, "News");
    assert_eq!(db.get_subscription_categories(all[2].id)[0].name, "News");
}

#[test]
fn a_text_that_is_no_outline_document_is_refused() {
    let mut db = Helper::new();
    assert!(matches!(import("this is no document", &mut db), Err(ImportError::Malformed(_))));
    assert!(matches!(import("", &mut db), Err(ImportError::Malformed(_))));
    match import(r#"<opml version="2.0"><head/><body></body></opml>"#, &mut db) {
        Err(ImportError::Malformed(reason)) => {
            assert_eq!(reason, "OPML body has no <outline> elements")
        }
        other => panic!("{:?}", other),
    }
    match import(r#"<opml version="9.9"><head/><body><outline text="x"/></body></opml>"#, &mut db) {
        Err(ImportError::Malformed(reason)) => {
            assert_eq!(reason, "Unsupported OPML version: \"9.9\"")
        }
        other => panic!("{:?}", other),
    }
    assert!(db.get_subscriptions().is_empty());
}
