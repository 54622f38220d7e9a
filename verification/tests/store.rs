use freader::db::helper::Helper;
use freader::db::models::{Item, NewItem, NewSubscription, Subscription};
use freader::db::tables::Error;
use freader::db::Id;

fn new_subscription(url: &str) -> NewSubscription {
    NewSubscription {
        feed_url: url.to_string(),
        title: format!("Title of {}", url),
        site_url: None,
        next_refresh: 100,
    }
}

fn new_item(subscription: Id, title: &str) -> NewItem {
    NewItem {
        subscription_id: subscription,
        url: format!("http://example.com/{}", title),
        title: title.to_string(),
        author: None,
        published: 10,
        updated: 20,
        content: String::new(),
        is_read: false,
        is_starred: false,
    }
}

fn titles_of(items: &[Item]) -> Vec<String> {
    items.iter().map(|i| i.title.clone()).collect()
}

fn names(db: &Helper, subscription: Id) -> Vec<String> {
    db.get_subscription_categories(subscription).into_iter().map(|c| c.name).collect()
}

#[test]
fn a_new_store_is_empty() {
    let db = Helper::new();
    assert!(db.get_subscriptions().is_empty());
    assert!(db.find_items(None, None, 10).is_empty());
    assert!(db.get_subscription(Id::from_raw(1)).is_err());
}

#[test]
fn subscriptions_get_the_next_key() {
    let mut db = Helper::new();
    let a = db.create_subscription(new_subscription("http://a")).unwrap();
    let b = db.create_subscription(new_subscription("http://b")).unwrap();
    assert_eq!(a.id, Id::from_raw(1));
    assert_eq!(b.id, Id::from_raw(2));
    assert_eq!(a.feed_url, "http://a");
    assert_eq!(a.title, "Title of http://a");
    assert_eq!(a.next_refresh, 100);
    assert_eq!(a.error_count, 0);
    let all = db.get_subscriptions();
    assert_eq!(all.len(), 2);
    assert_eq!(all[0].id, a.id);
    assert_eq!(all[1].id, b.id);
    assert_eq!(db.get_subscription(b.id).unwrap().feed_url, "http://b");
    assert!(db.has_feed_url("http://a"));
    assert!(!db.has_feed_url("http://c"));
}

#[test]
fn a_key_is_not_given_twice() {
    let mut db = Helper::new();
    let a = db.create_subscription(new_subscription("http://a")).unwrap();
    db.remove_subscription(a.id).unwrap();
    let b = db.create_subscription(new_subscription("http://a")).unwrap();
    assert_eq!(b.id, Id::from_raw(2));
}

#[test]
fn a_feed_is_subscribed_to_once() {
    let mut db = Helper::new();
    db.create_subscription(new_subscription("http://a")).unwrap();
    let again = db.create_subscription(new_subscription("http://a"));
    assert_eq!(again.err(), Some(Error::UniqueViolation));
    assert_eq!(db.get_subscriptions().len(), 1);
}

#[test]
fn a_missing_row_is_not_found() {
    let db = Helper::new();
    assert_eq!(db.get_subscription(Id::from_raw(9)).err(), Some(Error::NotFound));
    assert_eq!(db.get_item(Id::from_raw(9)).err(), Some(Error::NotFound));
}

#[test]
fn update_overwrites_the_row_with_the_key() {
    let mut db = Helper::new();
    let a = db.create_subscription(new_subscription("http://a")).unwrap();
    let b = db.create_subscription(new_subscription("http://b")).unwrap();
    let mut changed = a.clone();
    changed.next_refresh = 500;
    changed.error_count = 3;
    let stored = db.update_subscription(changed).unwrap();
    assert_eq!(stored.next_refresh, 500);
    let read = db.get_subscription(a.id).unwrap();
    assert_eq!(read.next_refresh, 500);
    assert_eq!(read.error_count, 3);
    assert_eq!(db.get_subscription(b.id).unwrap().next_refresh, 100);

    // Another row has the address: refused, and nothing changes.
    let mut clash = read.clone();
    clash.feed_url = "http://b".to_string();
    assert_eq!(db.update_subscription(clash).err(), Some(Error::UniqueViolation));
    assert_eq!(db.get_subscription(a.id).unwrap().feed_url, "http://a");

    // No row has the key: accepted, and nothing changes.
    let stranger = Subscription {
        id: Id::from_raw(77),
        feed_url: "http://z".to_string(),
        title: "Z".to_string(),
        site_url: None,
        next_refresh: 1,
        error_count: 0,
    };
    assert_eq!(db.update_subscription(stranger).unwrap().id, Id::from_raw(77));
    assert_eq!(db.get_subscriptions().len(), 2);
}

#[test]
fn transform_gives_another_title() {
    let mut db = Helper::new();
    let a = db.create_subscription(new_subscription("http://a")).unwrap();
    let renamed = db.transform_subscription(a.id, "Renamed".to_string()).unwrap();
    assert_eq!(renamed.title, "Renamed");
    assert_eq!(renamed.feed_url, "http://a");
    assert_eq!(db.get_subscription(a.id).unwrap().title, "Renamed");
    assert_eq!(
        db.transform_subscription(Id::from_raw(5), "X".to_string()).err(),
        Some(Error::NotFound)
    );
}

#[test]
fn outdated_subscriptions_are_those_due() {
    let mut db = Helper::new();
    let a = db.create_subscription(new_subscription("http://a")).unwrap();
    let b = db.create_subscription(new_subscription("http://b")).unwrap();
    let mut later = b.clone();
    later.next_refresh = 200;
    db.update_subscription(later).unwrap();
    assert!(db.find_outdated_subscriptions(99).is_empty());
    let due = db.find_outdated_subscriptions(100);
    assert_eq!(due.len(), 1);
    assert_eq!(due[0].id, a.id);
    assert_eq!(db.find_outdated_subscriptions(200).len(), 2);
}

#[test]
fn items_belong_to_a_subscription_that_exists() {
    let mut db = Helper::new();
    let a = db.create_subscription(new_subscription("http://a")).unwrap();
    let first = db.create_item(new_item(a.id, "one")).unwrap();
    assert_eq!(first.id, Id::from_raw(1));
    assert_eq!(first.subscription_id, a.id);
    assert_eq!(first.title, "one");
    assert_eq!(first.url, "http://example.com/one");
    assert_eq!(first.published, 10);
    assert_eq!(first.updated, 20);
    assert!(!first.is_read && !first.is_starred);
    assert_eq!(
        db.create_item(new_item(Id::from_raw(9), "two")).err(),
        Some(Error::ForeignKeyViolation)
    );
    assert_eq!(titles_of(&db.get_subscription_items(a.id)), vec!["one"]);
    assert_eq!(db.get_item(first.id).unwrap().title, "one");
}

#[test]
fn items_are_found_by_their_flags() {
    let mut db = Helper::new();
    let a = db.create_subscription(new_subscription("http://a")).unwrap();
    for title in ["one", "two", "three", "four"] {
        db.create_item(new_item(a.id, title)).unwrap();
    }
    let mut two = db.get_item(Id::from_raw(2)).unwrap();
    two.is_read = true;
    db.update_item(two).unwrap();
    let mut three = db.get_item(Id::from_raw(3)).unwrap();
    three.is_read = true;
    three.is_starred = true;
    db.update_item(three).unwrap();

    assert_eq!(titles_of(&db.find_items(None, None, 10)), vec!["one", "two", "three", "four"]);
    assert_eq!(titles_of(&db.find_items(None, None, 3)), vec!["one", "two", "three"]);
    assert_eq!(titles_of(&db.find_items(None, None, 0)), Vec::<String>::new());
    assert_eq!(titles_of(&db.find_items(Some(true), None, 10)), vec!["two", "three"]);
    assert_eq!(titles_of(&db.find_items(Some(false), None, 10)), vec!["one", "four"]);
    assert_eq!(titles_of(&db.find_items(Some(false), None, 1)), vec!["one"]);
    assert_eq!(titles_of(&db.find_items(None, Some(true), 10)), vec!["three"]);
    assert_eq!(titles_of(&db.find_items(Some(true), Some(false), 10)), vec!["two"]);
    assert_eq!(titles_of(&db.find_items(Some(false), Some(true), 10)), Vec::<String>::new());
}

#[test]
fn update_item_checks_the_subscription() {
    let mut db = Helper::new();
    let a = db.create_subscription(new_subscription("http://a")).unwrap();
    let item = db.create_item(new_item(a.id, "one")).unwrap();
    let mut moved = item.clone();
    moved.subscription_id = Id::from_raw(50);
    assert_eq!(db.update_item(moved).err(), Some(Error::ForeignKeyViolation));
    let mut stranger = item.clone();
    stranger.id = Id::from_raw(50);
    stranger.title = "changed".to_string();
    assert_eq!(db.update_item(stranger).unwrap().id, Id::from_raw(50));
    assert_eq!(db.get_item(item.id).unwrap().title, "one");
}

#[test]
fn items_come_with_their_subscriptions() {
    let mut db = Helper::new();
    let a = db.create_subscription(new_subscription("http://a")).unwrap();
    let b = db.create_subscription(new_subscription("http://b")).unwrap();
    db.create_item(new_item(a.id, "one")).unwrap();
    db.create_item(new_item(b.id, "two")).unwrap();
    db.create_item(new_item(a.id, "three")).unwrap();
    let pairs = db.get_items_and_subscriptions(vec![
        Id::from_raw(3),
        Id::from_raw(2),
        Id::from_raw(8),
    ]);
    assert_eq!(pairs.len(), 2);
    assert_eq!(pairs[0].0.title, "two");
    assert_eq!(pairs[0].1.feed_url, "http://b");
    assert_eq!(pairs[1].0.title, "three");
    assert_eq!(pairs[1].1.feed_url, "http://a");
    assert!(db.get_items_and_subscriptions(Vec::new()).is_empty());
}

#[test]
fn a_category_is_made_when_first_used() {
    let mut db = Helper::new();
    let a = db.create_subscription(new_subscription("http://a")).unwrap();
    let b = db.create_subscription(new_subscription("http://b")).unwrap();
    let news = db.subscription_add_category(a.id, "News".to_string()).unwrap();
    assert_eq!(news.id, Id::from_raw(1));
    assert_eq!(news.name, "News");
    let same = db.subscription_add_category(b.id, "News".to_string()).unwrap();
    assert_eq!(same.id, news.id);
    let tech = db.subscription_add_category(a.id, "Tech".to_string()).unwrap();
    assert_eq!(tech.id, Id::from_raw(2));
    assert_eq!(names(&db, a.id), vec!["News", "Tech"]);
    assert_eq!(names(&db, b.id), vec!["News"]);
}

#[test]
fn attaching_twice_changes_nothing() {
    let mut db = Helper::new();
    let a = db.create_subscription(new_subscription("http://a")).unwrap();
    let first = db.subscription_add_category(a.id, "News".to_string()).unwrap();
    let second = db.subscription_add_category(a.id, "News".to_string()).unwrap();
    assert_eq!(first.id, second.id);
    assert_eq!(names(&db, a.id), vec!["News"]);
    // One removal is enough to undo both.
    db.subscription_remove_category(a.id, "News".to_string()).unwrap();
    assert!(names(&db, a.id).is_empty());
}

#[test]
fn a_category_needs_a_subscription_that_exists() {
    let mut db = Helper::new();
    assert_eq!(
        db.subscription_add_category(Id::from_raw(4), "News".to_string()).err(),
        Some(Error::ForeignKeyViolation)
    );
    // The category was not made: the next one gets the first key.
    let a = db.create_subscription(new_subscription("http://a")).unwrap();
    let news = db.subscription_add_category(a.id, "News".to_string()).unwrap();
    assert_eq!(news.id, Id::from_raw(1));
}

#[test]
fn the_last_member_takes_the_category_with_it() {
    let mut db = Helper::new();
    let a = db.create_subscription(new_subscription("http://a")).unwrap();
    let b = db.create_subscription(new_subscription("http://b")).unwrap();
    let news = db.subscription_add_category(a.id, "News".to_string()).unwrap();
    db.subscription_add_category(b.id, "News".to_string()).unwrap();

    // One of two members leaves: the category stays.
    db.subscription_remove_category(a.id, "News".to_string()).unwrap();
    assert!(names(&db, a.id).is_empty());
    assert_eq!(names(&db, b.id), vec!["News"]);
    let again = db.subscription_add_category(a.id, "News".to_string()).unwrap();
    assert_eq!(again.id, news.id);

    // Both leave: the category goes, and the name gets a new key next time.
    db.subscription_remove_category(a.id, "News".to_string()).unwrap();
    db.subscription_remove_category(b.id, "News".to_string()).unwrap();
    assert!(names(&db, b.id).is_empty());
    let fresh = db.subscription_add_category(a.id, "News".to_string()).unwrap();
    assert_eq!(fresh.id, Id::from_raw(2));

    // Removing what is not there changes nothing.
    db.subscription_remove_category(b.id, "News".to_string()).unwrap();
    db.subscription_remove_category(b.id, "Nothing".to_string()).unwrap();
    assert_eq!(names(&db, a.id), vec!["News"]);
}

#[test]
fn removing_the_last_subscription_of_a_category_deletes_the_category() {
    let mut db = Helper::new();
    let a = db.create_subscription(new_subscription("http://a")).unwrap();
    let b = db.create_subscription(new_subscription("http://b")).unwrap();
    let news = db.subscription_add_category(a.id, "News".to_string()).unwrap();
    db.subscription_add_category(b.id, "News".to_string()).unwrap();

    // One of two subscriptions tagged "News" goes: the category is intact.
    db.remove_subscription(a.id).unwrap();
    assert_eq!(names(&db, b.id), vec!["News"]);
    let c = db.create_subscription(new_subscription("http://c")).unwrap();
    assert_eq!(db.subscription_add_category(c.id, "News".to_string()).unwrap().id, news.id);
    db.subscription_remove_category(c.id, "News".to_string()).unwrap();

    // The last one goes: the category row is deleted.
    db.remove_subscription(b.id).unwrap();
    let again = db.subscription_add_category(c.id, "News".to_string()).unwrap();
    assert_ne!(again.id, news.id);
    assert_eq!(again.id, Id::from_raw(2));
}

#[test]
fn removing_a_subscription_cascades() {
    let mut db = Helper::new();
    let a = db.create_subscription(new_subscription("http://a")).unwrap();
    let b = db.create_subscription(new_subscription("http://b")).unwrap();
    for title in ["one", "two", "three"] {
        db.create_item(new_item(a.id, title)).unwrap();
    }
    db.create_item(new_item(b.id, "other")).unwrap();
    db.subscription_add_category(a.id, "News".to_string()).unwrap();
    db.subscription_add_category(a.id, "Tech".to_string()).unwrap();
    db.subscription_add_category(b.id, "Tech".to_string()).unwrap();

    db.remove_subscription(a.id).unwrap();

    assert_eq!(db.get_subscription(a.id).err(), Some(Error::NotFound));
    assert!(db.get_subscription_items(a.id).is_empty());
    assert!(names(&db, a.id).is_empty());
    assert_eq!(titles_of(&db.find_items(None, None, 10)), vec!["other"]);
    assert_eq!(names(&db, b.id), vec!["Tech"]);
    // "News" was collected, "Tech" was not.
    assert_eq!(
        db.subscription_add_category(b.id, "Tech".to_string()).unwrap().id,
        Id::from_raw(2)
    );
    assert_eq!(
        db.subscription_add_category(b.id, "News".to_string()).unwrap().id,
        Id::from_raw(3)
    );
    // Removing what is not there changes nothing.
    db.remove_subscription(a.id).unwrap();
    assert_eq!(db.get_subscriptions().len(), 1);
}

#[test]
fn store_error_messages() {
    assert_eq!(Error::NotFound.message(), "Record not found");
    assert_eq!(Error::UniqueViolation.message(), "Unique constraint violated");
    assert_eq!(Error::ForeignKeyViolation.message(), "Foreign key constraint violated");
    assert_eq!(Error::OutOfIds.message(), "No key left");
}
