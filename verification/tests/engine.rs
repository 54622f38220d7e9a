use freader::db::helper::Helper;
use freader::db::models::{
    check_site_link, find_site_link, EntryError, Item, NewItem, NewSubscription, Subscription,
};
use freader::db::Id;
use freader::feed::{Author, EntryContent, FeedDocument, FeedLink, ParseError, RawEntry};
use freader::feed_manager::{
    check_known, classify, reconcile, FeedManager, FetchError, RefreshError, Response,
    SubscribeError,
};
use freader::updater::{Attempt, TickReport, Updater, HOUR, MINUTE};
use freader::utils::{absolute_or_joined, make_url_absolute, same_text, starts_with, InvalidUrl};

const FEED_URL: &str = "http://example.com/feed.xml";

fn link(href: &str) -> FeedLink {
    FeedLink { href: href.to_string(), rel: None, media_type: None }
}

fn entry(title: Option<&str>, href: Option<&str>) -> RawEntry {
    RawEntry {
        id: "urn:entry".to_string(),
        title: title.map(|t| t.to_string()),
        links: href.into_iter().map(link).collect(),
        authors: Vec::new(),
        published: None,
        updated: None,
        content: None,
        summary: None,
    }
}

fn document(entries: Vec<RawEntry>) -> FeedDocument {
    FeedDocument {
        title: Some("Example".to_string()),
        links: vec![link("http://example.com/")],
        updated: None,
        entries,
    }
}

fn subscription() -> Subscription {
    Subscription {
        id: Id::from_raw(1),
        feed_url: FEED_URL.to_string(),
        title: "Example".to_string(),
        site_url: None,
        next_refresh: 0,
        error_count: 0,
    }
}

/// The document of a feed with the title "Example" and two entries, the
/// second of which gives its address relative to that of the feed.
fn example() -> FeedDocument {
    FeedDocument {
        title: Some("Example".to_string()),
        links: vec![link("http://example.com/")],
        updated: Some(1_577_836_800_000_000),
        entries: vec![
            RawEntry {
                id: "urn:uuid:1225c695-cfb8-4ebb-aaaa-80da344efa6a".to_string(),
                title: Some("First".to_string()),
                links: vec![link("http://example.com/first")],
                authors: vec![Author { name: Some("Ann".to_string()) }],
                published: Some(1_577_750_400_000_000),
                updated: Some(1_577_836_800_000_000),
                content: None,
                summary: Some("Summary of the first".to_string()),
            },
            RawEntry {
                id: "urn:uuid:1225c695-cfb8-4ebb-aaaa-80da344efa6b".to_string(),
                title: Some("Second".to_string()),
                links: vec![link("/second")],
                authors: Vec::new(),
                published: None,
                updated: Some(1_577_923_200_000_000),
                content: Some(EntryContent { body: Some("Body of the second".to_string()) }),
                summary: None,
            },
        ],
    }
}

fn answer(document: FeedDocument) -> Response {
    Response::Received { status: 200, parsed: Ok(document) }
}

fn no_feed() -> Response {
    Response::Received { status: 200, parsed: Err(ParseError) }
}

fn manager_with_subscription() -> (FeedManager, Subscription) {
    let mut db = Helper::new();
    let stored = db
        .create_subscription(NewSubscription {
            feed_url: FEED_URL.to_string(),
            title: "Example".to_string(),
            site_url: None,
            next_refresh: 0,
        })
        .unwrap();
    (FeedManager::new(db), stored)
}

fn titles(items: &[Item]) -> Vec<String> {
    items.iter().map(|i| i.title.clone()).collect()
}

#[test]
fn text_helpers() {
    assert!(starts_with("http://x", "http"));
    assert!(starts_with("http", "http"));
    assert!(starts_with("anything", ""));
    assert!(!starts_with("htt", "http"));
    assert!(!starts_with("ftp://x", "http"));
    assert!(!starts_with("", "http"));
    assert!(starts_with("été chaud", "été"));
    assert!(same_text("", ""));
    assert!(same_text("abc", "abc"));
    assert!(!same_text("abc", "abd"));
    assert!(!same_text("abc", "ab"));
    assert!(!same_text("ab", "abc"));
}

#[test]
fn absolute_urls_are_kept() {
    assert_eq!(
        make_url_absolute("http://other.org/a", FEED_URL),
        Ok("http://other.org/a".to_string())
    );
    assert_eq!(
        make_url_absolute("https://other.org/a", "this is no base"),
        Ok("https://other.org/a".to_string())
    );
    // What begins with "http" is taken for absolute, whatever follows.
    assert_eq!(make_url_absolute("httpfoo", FEED_URL), Ok("httpfoo".to_string()));
}

#[test]
fn relative_urls_are_joined_to_the_base() {
    assert_eq!(make_url_absolute("/a/b", FEED_URL), Ok("http://example.com/a/b".to_string()));
    assert_eq!(make_url_absolute("b.html", FEED_URL), Ok("http://example.com/b.html".to_string()));
    assert_eq!(
        make_url_absolute("../c", "http://example.com/x/y/feed.xml"),
        Ok("http://example.com/x/c".to_string())
    );
    assert_eq!(
        make_url_absolute("//cdn.example.org/i", "https://example.com/feed"),
        Ok("https://cdn.example.org/i".to_string())
    );
    assert_eq!(make_url_absolute("", FEED_URL), Ok(FEED_URL.to_string()));
}

#[test]
fn a_url_without_a_usable_base_is_invalid() {
    assert_eq!(make_url_absolute("/a", "no base"), Err(InvalidUrl));
    assert_eq!(make_url_absolute("/a", ""), Err(InvalidUrl));
    assert_eq!(InvalidUrl.message(), "Invalid URL");
    assert_eq!(absolute_or_joined("/a", None), Err(InvalidUrl));
    assert_eq!(absolute_or_joined("/a", Some("http://x/a".to_string())), Ok("http://x/a".to_string()));
    assert_eq!(
        absolute_or_joined("http://y", Some("http://x/a".to_string())),
        Ok("http://y".to_string())
    );
    assert_eq!(absolute_or_joined("http://y", None), Ok("http://y".to_string()));
}

#[test]
fn an_entry_becomes_an_item() {
    let raw = RawEntry {
        id: "urn:1".to_string(),
        title: Some("Title".to_string()),
        links: vec![link("/post"), link("http://example.com/other")],
        authors: vec![
            Author { name: Some("Ann".to_string()) },
            Author { name: Some("Bob".to_string()) },
        ],
        published: Some(1_000),
        updated: Some(2_000),
        content: Some(EntryContent { body: Some("Body".to_string()) }),
        summary: Some("Summary".to_string()),
    };
    let item = NewItem::normalize(&raw, &subscription(), 9_999).unwrap();
    assert_eq!(item.subscription_id, Id::from_raw(1));
    assert_eq!(item.url, "http://example.com/post");
    assert_eq!(item.title, "Title");
    assert_eq!(item.author, Some("Ann".to_string()));
    assert_eq!(item.published, 1_000);
    assert_eq!(item.updated, 2_000);
    assert_eq!(item.content, "Body");
    assert!(!item.is_read);
    assert!(!item.is_starred);
    let copy = item.clone();
    assert_eq!(copy.url, item.url);
    assert_eq!(copy.published, 1_000);
}

#[test]
fn an_entry_falls_back_on_what_it_has() {
    let mut raw = entry(Some("Title"), None);
    raw.id = "http://example.com/by-id".to_string();
    raw.updated = Some(2_000);
    raw.summary = Some("Summary".to_string());
    raw.content = Some(EntryContent { body: None });
    raw.authors = vec![Author { name: None }, Author { name: Some("Bob".to_string()) }];
    let item = NewItem::normalize(&raw, &subscription(), 9_999).unwrap();
    assert_eq!(item.url, "http://example.com/by-id");
    assert_eq!(item.published, 2_000);
    assert_eq!(item.updated, 2_000);
    assert_eq!(item.content, "Summary");
    assert_eq!(item.author, None);

    let mut raw = entry(Some("Title"), Some("http://example.com/a"));
    raw.published = Some(1_000);
    let item = NewItem::normalize(&raw, &subscription(), 9_999).unwrap();
    assert_eq!(item.published, 1_000);
    assert_eq!(item.updated, 1_000);
    assert_eq!(item.content, "");

    let raw = entry(Some("Title"), Some("http://example.com/a"));
    let item = NewItem::normalize(&raw, &subscription(), 9_999).unwrap();
    assert_eq!(item.published, 9_999);
    assert_eq!(item.updated, 9_999);
}

#[test]
fn an_entry_without_what_is_required_is_refused() {
    let s = subscription();
    // No link, and an identifier that is no address.
    assert_eq!(NewItem::normalize(&entry(Some("T"), None), &s, 0).err(), Some(EntryError::MissingUrl));
    // Neither address nor title: the address is missed first.
    assert_eq!(NewItem::normalize(&entry(None, None), &s, 0).err(), Some(EntryError::MissingUrl));
    assert_eq!(
        NewItem::normalize(&entry(None, Some("http://example.com/a")), &s, 0).err(),
        Some(EntryError::MissingTitle)
    );
    let mut nowhere = subscription();
    nowhere.feed_url = "no base".to_string();
    assert_eq!(
        NewItem::normalize(&entry(Some("T"), Some("/a")), &nowhere, 0).err(),
        Some(EntryError::InvalidUrl)
    );
    assert_eq!(
        NewItem::normalize(&entry(None, Some("/a")), &nowhere, 0).err(),
        Some(EntryError::MissingTitle)
    );
    assert_eq!(EntryError::MissingUrl.message(), "Missing URL");
    assert_eq!(EntryError::MissingTitle.message(), "Missing title");
    assert_eq!(EntryError::InvalidUrl.message(), "Invalid URL");
}

#[test]
fn an_entry_without_dates_gets_the_time_of_the_clock() {
    let raw = entry(Some("Title"), Some("http://example.com/a"));
    let item = NewItem::try_from(&raw, &subscription()).unwrap();
    // Microseconds since the epoch, after the year 2020.
    assert!(item.published > 1_577_836_800_000_000);
    assert_eq!(item.updated, item.published);
    assert_eq!(
        NewItem::try_from(&entry(None, Some("http://example.com/a")), &subscription()).err(),
        Some(EntryError::MissingTitle)
    );
}

#[test]
fn site_links() {
    let html = FeedLink {
        href: "/".to_string(),
        rel: Some("self".to_string()),
        media_type: Some("text/html".to_string()),
    };
    let alternate = FeedLink {
        href: "/".to_string(),
        rel: Some("alternate".to_string()),
        media_type: Some("application/atom+xml".to_string()),
    };
    let own = FeedLink {
        href: "/feed.xml".to_string(),
        rel: Some("self".to_string()),
        media_type: Some("application/atom+xml".to_string()),
    };
    let bare = link("/");
    assert!(check_site_link(&html));
    assert!(check_site_link(&alternate));
    assert!(check_site_link(&bare));
    assert!(!check_site_link(&own));
    assert_eq!(find_site_link(&Vec::new()), None);
    let own_again = FeedLink {
        href: "/feed.xml".to_string(),
        rel: Some("self".to_string()),
        media_type: Some("application/atom+xml".to_string()),
    };
    assert_eq!(find_site_link(&vec![own, alternate, html]), Some(1));
    assert_eq!(find_site_link(&vec![own_again]), None);
}

#[test]
fn a_subscription_is_described_by_its_feed() {
    let feed = FeedDocument {
        title: Some("Example".to_string()),
        links: vec![
            FeedLink {
                href: "/feed.xml".to_string(),
                rel: Some("self".to_string()),
                media_type: Some("application/atom+xml".to_string()),
            },
            FeedLink { href: "/home".to_string(), rel: Some("alternate".to_string()), media_type: None },
        ],
        updated: Some(5),
        entries: Vec::new(),
    };
    let new = NewSubscription::try_from(FEED_URL, &feed, 777).unwrap();
    assert_eq!(new.feed_url, FEED_URL);
    assert_eq!(new.title, "Example");
    assert_eq!(new.site_url, Some("http://example.com/home".to_string()));
    assert_eq!(new.next_refresh, 777);

    let untitled = FeedDocument { title: None, links: Vec::new(), updated: None, entries: Vec::new() };
    let new = NewSubscription::try_from(FEED_URL, &untitled, 1).unwrap();
    assert_eq!(new.title, FEED_URL);
    assert_eq!(new.site_url, None);

    let unresolved = FeedDocument {
        title: None,
        links: vec![link("/home")],
        updated: None,
        entries: Vec::new(),
    };
    let new = NewSubscription::try_from("no base", &unresolved, 1).unwrap();
    assert_eq!(new.site_url, None);
}

#[test]
fn answers_are_classified() {
    let manager = FeedManager::new(Helper::new());
    assert_eq!(manager.fetch(Response::Failed).err(), Some(FetchError::Network));
    for status in [0u16, 100, 199, 300, 301, 404, 500] {
        // Without success the answer is a network error, whatever its body
        // holds.
        let with_feed = Response::Received { status, parsed: Ok(example()) };
        assert_eq!(manager.fetch(with_feed).err(), Some(FetchError::Network));
        let without = Response::Received { status, parsed: Err(ParseError) };
        assert_eq!(manager.fetch(without).err(), Some(FetchError::Network));
    }
    assert_eq!(manager.fetch(no_feed()).err(), Some(FetchError::Parse));
    for status in [200u16, 204, 299] {
        let response = Response::Received { status, parsed: Ok(example()) };
        let feed = manager.fetch(response).unwrap();
        assert_eq!(feed.title, Some("Example".to_string()));
        assert_eq!(feed.entries.len(), 2);
        let response = Response::Received { status, parsed: Err(ParseError) };
        assert_eq!(manager.fetch(response).err(), Some(FetchError::Parse));
    }
    assert_eq!(classify(Response::Failed).err(), Some(FetchError::Network));
    assert_eq!(classify(no_feed()).err(), Some(FetchError::Parse));
    assert_eq!(classify(answer(document(Vec::new()))).unwrap().entries.len(), 0);
}

#[test]
fn subscribing_stores_the_feed_and_its_entries() {
    let mut manager = FeedManager::new(Helper::new());
    let stored = manager.subscribe(FEED_URL, answer(example())).unwrap();
    assert_eq!(stored.title, "Example");
    assert_eq!(stored.feed_url, FEED_URL);
    assert_eq!(stored.site_url, Some("http://example.com/".to_string()));
    assert_eq!(stored.error_count, 0);
    assert_eq!(stored.id, Id::from_raw(1));
    let all = manager.db.get_subscriptions();
    assert_eq!(all.len(), 1);
    assert_eq!(all[0].title, "Example");
    assert_eq!(all[0].error_count, 0);
    let items = manager.db.get_subscription_items(stored.id);
    assert_eq!(items.len(), 2);
    assert_eq!(titles(&items), vec!["First", "Second"]);
    assert_eq!(items[0].url, "http://example.com/first");
    assert_eq!(items[1].url, "http://example.com/second");
    assert_eq!(items[0].author, Some("Ann".to_string()));
    assert_eq!(items[0].content, "Summary of the first");
    assert_eq!(items[1].content, "Body of the second");
    assert_eq!(items[0].published, 1_577_750_400_000_000);
    assert_eq!(items[1].published, 1_577_923_200_000_000);
    assert!(items.iter().all(|i| !i.is_read && !i.is_starred));

    // A second subscription to the same address is refused.
    let again = manager.subscribe(FEED_URL, answer(example()));
    assert_eq!(again.err(), Some(SubscribeError::AlreadyExists));
    assert_eq!(manager.db.get_subscriptions().len(), 1);
    assert_eq!(manager.db.get_subscription_items(stored.id).len(), 2);
}

#[test]
fn subscribing_schedules_the_first_refresh() {
    let mut manager = FeedManager::new(Helper::new());
    let feed = document(vec![entry(Some("One"), Some("/one"))]);
    let stored = manager.apply_subscribe(FEED_URL, Ok(feed), 1_000, -2).unwrap();
    assert_eq!(stored.next_refresh, 1_000 + HOUR - 2 * MINUTE);
    assert_eq!(stored.error_count, 0);
    assert_eq!(manager.db.get_subscription_items(stored.id)[0].published, 1_000);
}

#[test]
fn subscribing_fails_without_leaving_anything() {
    let mut manager = FeedManager::new(Helper::new());
    assert_eq!(
        manager.subscribe(FEED_URL, Response::Failed).err(),
        Some(SubscribeError::FetchFailed)
    );
    assert_eq!(
        manager
            .subscribe(FEED_URL, Response::Received { status: 503, parsed: Ok(example()) })
            .err(),
        Some(SubscribeError::FetchFailed)
    );
    assert_eq!(manager.subscribe(FEED_URL, no_feed()).err(), Some(SubscribeError::ParseFailed));
    let useless = document(vec![entry(None, Some("/a")), entry(Some("T"), None)]);
    assert_eq!(
        manager.apply_subscribe(FEED_URL, Ok(useless), 0, 0).err(),
        Some(SubscribeError::NoValidEntries)
    );
    assert_eq!(
        manager.apply_subscribe(FEED_URL, Err(FetchError::Parse), 0, 0).err(),
        Some(SubscribeError::ParseFailed)
    );
    assert!(manager.db.get_subscriptions().is_empty());
    assert!(manager.db.find_items(None, None, 10).is_empty());
    // Nothing was used up: the first subscription gets the first key.
    let stored = manager.apply_subscribe(FEED_URL, Ok(document(Vec::new())), 0, 0).unwrap();
    assert_eq!(stored.id, Id::from_raw(1));
    assert!(manager.db.get_subscription_items(stored.id).is_empty());
    // An existing subscription is reported before a useless feed.
    let useless = document(vec![entry(None, None)]);
    assert_eq!(
        manager.apply_subscribe(FEED_URL, Ok(useless), 0, 0).err(),
        Some(SubscribeError::AlreadyExists)
    );
}

#[test]
fn entries_without_a_title_are_skipped() {
    let (mut manager, mut stored) = manager_with_subscription();
    let feed = document(vec![
        entry(Some("One"), Some("/1")),
        entry(None, Some("/2")),
        entry(Some("Three"), Some("/3")),
        entry(None, Some("/4")),
        entry(Some("Five"), Some("/5")),
    ]);
    let found = manager.apply_refresh(&mut stored, &Ok(feed), 1_000, 0);
    assert_eq!(found, Ok(3));
    assert_eq!(
        titles(&manager.db.get_subscription_items(stored.id)),
        vec!["One", "Three", "Five"]
    );
}

#[test]
fn a_feed_without_a_usable_entry_is_a_failure() {
    let (mut manager, mut stored) = manager_with_subscription();
    let useless = document(vec![entry(None, Some("/2")), entry(Some("T"), None), entry(None, None)]);
    let found = manager.apply_refresh(&mut stored, &Ok(useless), 1_000, 0);
    assert_eq!(found, Err(RefreshError::NoValidEntries));
    assert!(manager.db.get_subscription_items(stored.id).is_empty());
    assert_eq!(stored.error_count, 1);
    assert_eq!(manager.db.get_subscription(stored.id).unwrap().error_count, 1);

    // An empty feed is a success with nothing new.
    let found = manager.apply_refresh(&mut stored, &Ok(document(Vec::new())), 2_000, 0);
    assert_eq!(found, Ok(0));
    assert_eq!(stored.error_count, 0);
    assert_eq!(stored.next_refresh, 2_000 + HOUR);
}

#[test]
fn refreshing_twice_finds_nothing_new() {
    let (mut manager, mut stored) = manager_with_subscription();
    let first = manager.refresh(&mut stored, answer(example()));
    assert_eq!(first, Ok(2));
    let second = manager.refresh(&mut stored, answer(example()));
    assert_eq!(second, Ok(0));
    assert_eq!(manager.db.get_subscription_items(stored.id).len(), 2);
    let third = manager.apply_refresh(&mut stored, &Ok(example()), 5_000, 3);
    assert_eq!(third, Ok(0));
    assert_eq!(manager.db.get_subscription_items(stored.id).len(), 2);
}

#[test]
fn an_item_is_known_by_title_and_address() {
    let (mut manager, mut stored) = manager_with_subscription();
    let feed = document(vec![entry(Some("One"), Some("/1"))]);
    assert_eq!(manager.apply_refresh(&mut stored, &Ok(feed), 1_000, 0), Ok(1));
    let feed = document(vec![
        entry(Some("One"), Some("/1")),
        entry(Some("One"), Some("/other")),
        entry(Some("Other"), Some("/1")),
        entry(Some("Twin"), Some("/twin")),
        entry(Some("Twin"), Some("/twin")),
    ]);
    // The same title elsewhere and another title at the same address are
    // new; so are both of two equal entries that were not stored before.
    assert_eq!(manager.apply_refresh(&mut stored, &Ok(feed), 2_000, 0), Ok(4));
    let existing = manager.db.get_subscription_items(stored.id);
    assert_eq!(titles(&existing), vec!["One", "One", "Other", "Twin", "Twin"]);

    let sub = subscription();
    let known = NewItem::normalize(&entry(Some("One"), Some("/1")), &sub, 0).unwrap();
    let unknown = NewItem::normalize(&entry(Some("One"), Some("/9")), &sub, 0).unwrap();
    assert!(check_known(&existing, &known));
    assert!(!check_known(&existing, &unknown));
    assert!(!check_known(&Vec::new(), &known));

    let (fresh, any_valid) = reconcile(
        &sub,
        &existing,
        &vec![entry(Some("One"), Some("/1")), entry(None, None), entry(Some("New"), Some("/n"))],
        7,
    );
    assert!(any_valid);
    assert_eq!(fresh.len(), 1);
    assert_eq!(fresh[0].title, "New");
    assert_eq!(fresh[0].published, 7);
    let (fresh, any_valid) = reconcile(&sub, &existing, &vec![entry(None, None)], 7);
    assert!(!any_valid);
    assert!(fresh.is_empty());
    let (fresh, any_valid) = reconcile(&sub, &existing, &Vec::new(), 7);
    assert!(!any_valid);
    assert!(fresh.is_empty());
    assert!(!FeedManager::has_valid_entry(&Vec::new(), &sub, 0));
    assert!(FeedManager::has_valid_entry(
        &vec![entry(None, None), entry(Some("T"), Some("/t"))],
        &sub,
        0
    ));
}

#[test]
fn a_failed_refresh_backs_off() {
    let (mut manager, mut stored) = manager_with_subscription();
    let failed = manager.apply_refresh(&mut stored, &Err(FetchError::Network), 1_000, 0);
    assert_eq!(failed, Err(RefreshError::FetchFailed));
    assert_eq!(stored.error_count, 1);
    assert_eq!(stored.next_refresh, 1_000 + HOUR);
    let failed = manager.apply_refresh(&mut stored, &Err(FetchError::Parse), 2_000, -5);
    assert_eq!(failed, Err(RefreshError::ParseFailed));
    assert_eq!(stored.error_count, 2);
    assert_eq!(stored.next_refresh, 2_000 + 2 * HOUR - 5 * MINUTE);
    for _ in 0..20 {
        let _ = manager.apply_refresh(&mut stored, &Err(FetchError::Network), 3_000, 4);
    }
    assert_eq!(stored.error_count, 22);
    assert_eq!(stored.next_refresh, 3_000 + 16 * HOUR + 4 * MINUTE);
    let in_store = manager.db.get_subscription(stored.id).unwrap();
    assert_eq!(in_store.error_count, 22);
    assert_eq!(in_store.next_refresh, stored.next_refresh);

    // A success resets the count.
    let feed = document(vec![entry(Some("One"), Some("/1"))]);
    assert_eq!(manager.apply_refresh(&mut stored, &Ok(feed), 4_000, 1), Ok(1));
    assert_eq!(stored.error_count, 0);
    assert_eq!(stored.next_refresh, 4_000 + HOUR + MINUTE);
    assert_eq!(manager.db.get_subscription(stored.id).unwrap().error_count, 0);

    // The count stops at the largest number.
    let put_off = manager.db.reschedule(stored.id, 77, u32::MAX).unwrap();
    assert_eq!((put_off.next_refresh, put_off.error_count), (77, u32::MAX));
    assert_eq!(put_off.title, "Example");
    let _ = manager.apply_refresh(&mut stored, &Err(FetchError::Network), 5_000, 0);
    assert_eq!(stored.error_count, u32::MAX);
    assert_eq!(stored.next_refresh, 5_000 + 16 * HOUR);
    assert_eq!(
        manager.db.reschedule(Id::from_raw(50), 1, 1).err(),
        Some(freader::db::tables::Error::NotFound)
    );

    assert_eq!(manager.refresh(&mut stored, Response::Failed), Err(RefreshError::FetchFailed));
    assert_eq!(manager.refresh(&mut stored, no_feed()), Err(RefreshError::ParseFailed));
    assert_eq!(
        manager.refresh(&mut stored, Response::Received { status: 500, parsed: Ok(example()) }),
        Err(RefreshError::FetchFailed)
    );
    assert_eq!(manager.db.get_subscription(stored.id).unwrap().error_count, u32::MAX);
}

#[test]
fn a_refresh_writes_the_schedule_and_nothing_else() {
    let (mut manager, stored) = manager_with_subscription();
    // The title is edited while the feed is being fetched.
    manager.db.transform_subscription(stored.id, "Edited".to_string()).unwrap();
    let mut copy = stored.clone();
    assert_eq!(copy.title, "Example");
    // The copy even disagrees with the store on everything but the key.
    copy.site_url = Some("http://elsewhere/".to_string());
    copy.error_count = 7;
    copy.next_refresh = 99;
    let feed = document(vec![entry(Some("One"), Some("/1"))]);
    assert_eq!(manager.apply_refresh(&mut copy, &Ok(feed), 1_000, 0), Ok(1));
    let row = manager.db.get_subscription(stored.id).unwrap();
    assert_eq!(row.title, "Edited");
    assert_eq!(row.site_url, None);
    assert_eq!(row.feed_url, FEED_URL);
    assert_eq!((row.error_count, row.next_refresh), (0, 1_000 + HOUR));
    // The caller gets the row as it is stored now.
    assert_eq!(copy.title, "Edited");
    assert_eq!(copy.site_url, None);
    assert_eq!((copy.error_count, copy.next_refresh), (0, 1_000 + HOUR));
    assert_eq!(manager.db.get_subscription_items(stored.id)[0].url, "http://example.com/1");

    // A failure counts on from what the store holds, not from the copy.
    let mut stale = stored.clone();
    stale.error_count = 40;
    let r = manager.apply_refresh(&mut stale, &Err(FetchError::Network), 2_000, 0);
    assert_eq!(r, Err(RefreshError::FetchFailed));
    let row = manager.db.get_subscription(stored.id).unwrap();
    assert_eq!((row.title.as_str(), row.error_count, row.next_refresh), ("Edited", 1, 2_000 + HOUR));
    assert_eq!(stale.error_count, 1);
}

#[test]
fn refresh_of_a_subscription_that_is_gone_changes_nothing() {
    let mut manager = FeedManager::new(Helper::new());
    let mut gone = subscription();
    let feed = document(vec![entry(Some("One"), Some("/1"))]);
    assert_eq!(
        manager.apply_refresh(&mut gone, &Ok(feed), 1_000, 0),
        Err(RefreshError::StorageError)
    );
    assert_eq!(
        manager.apply_refresh(&mut gone, &Ok(document(Vec::new())), 1_000, 0),
        Err(RefreshError::StorageError)
    );
    assert_eq!(
        manager.apply_refresh(&mut gone, &Ok(document(vec![entry(None, None)])), 1_000, 0),
        Err(RefreshError::NoValidEntries)
    );
    assert_eq!(
        manager.apply_refresh(&mut gone, &Err(FetchError::Network), 1_000, 0),
        Err(RefreshError::FetchFailed)
    );
    assert_eq!(
        manager.apply_refresh(&mut gone, &Err(FetchError::Parse), 1_000, 0),
        Err(RefreshError::ParseFailed)
    );
    assert_eq!((gone.error_count, gone.next_refresh), (0, 0));
    assert!(manager.db.find_items(None, None, 10).is_empty());
    assert!(manager.db.get_subscriptions().is_empty());
}

#[test]
fn store_new_entries_counts_what_is_new() {
    let (mut manager, stored) = manager_with_subscription();
    let entries = vec![entry(Some("One"), Some("/1")), entry(None, None)];
    assert_eq!(manager.store_new_entries(&stored, &entries, 5), Ok(1));
    assert_eq!(manager.store_new_entries(&stored, &entries, 6), Ok(0));
    assert_eq!(manager.store_new_entries(&stored, &Vec::new(), 6), Ok(0));
    assert_eq!(
        manager.store_new_entries(&stored, &vec![entry(None, None)], 6),
        Err(RefreshError::NoValidEntries)
    );
    assert_eq!(manager.db.get_subscription_items(stored.id).len(), 1);
}

#[test]
fn error_messages() {
    assert_eq!(RefreshError::FetchFailed.message(), "Could not fetch feed.");
    assert_eq!(RefreshError::ParseFailed.message(), "Could not parse content as a feed.");
    assert_eq!(RefreshError::NoValidEntries.message(), "No entry could be parsed.");
    assert_eq!(RefreshError::StorageError.message(), "Database error.");
    assert_eq!(SubscribeError::FetchFailed.message(), "Could not fetch feed.");
    assert_eq!(SubscribeError::ParseFailed.message(), "Could not parse content as a feed.");
    assert_eq!(SubscribeError::NoValidEntries.message(), "No entry could be parsed.");
    assert_eq!(SubscribeError::AlreadyExists.message(), "Already subscribed to this feed.");
    assert_eq!(SubscribeError::StorageError.message(), "Database error.");
}

#[test]
fn a_sweep_refreshes_what_is_due() {
    let (manager, first) = manager_with_subscription();
    let mut updater = Updater::new(manager);
    let second = updater
        .feed_manager
        .db
        .create_subscription(NewSubscription {
            feed_url: "http://other.org/feed".to_string(),
            title: "Other".to_string(),
            site_url: None,
            next_refresh: 50,
        })
        .unwrap();
    let third = updater
        .feed_manager
        .db
        .create_subscription(NewSubscription {
            feed_url: "http://later.org/feed".to_string(),
            title: "Later".to_string(),
            site_url: None,
            next_refresh: 61,
        })
        .unwrap();
    assert_eq!(updater.feed_manager.db.find_outdated_subscriptions(10).len(), 1);
    assert!(updater.check_due(first.id, 10));
    assert!(!updater.check_due(second.id, 10));
    assert!(updater.check_due(second.id, 50));
    assert!(!updater.check_due(Id::from_raw(77), 50));
    let due = updater.begin_sweep(60).unwrap();
    assert_eq!(due.len(), 2);
    // A sweep has begun: no other begins before it has ended.
    assert_eq!(updater.sweep, Some(60));
    assert!(updater.begin_sweep(70).is_none());
    assert!(updater.refresh_outdated().is_none());
    assert!(updater.started().is_none());
    assert_eq!(updater.sweep, Some(60));
    let two = || document(vec![entry(Some("One"), Some("/1")), entry(Some("Two"), Some("/2"))]);
    let attempts = vec![
        Attempt { subscription: due[0].clone(), fetched: Ok(two()), jitter_minutes: 0 },
        Attempt {
            subscription: due[1].clone(),
            fetched: Err(FetchError::Network),
            jitter_minutes: 2,
        },
        // Not due yet: passed over.
        Attempt { subscription: third.clone(), fetched: Ok(two()), jitter_minutes: 0 },
        // Not in the store: passed over.
        Attempt { subscription: subscription_with_key(77), fetched: Ok(two()), jitter_minutes: 0 },
        // Refreshed a moment ago in this sweep, so no longer due: passed
        // over.
        Attempt {
            subscription: due[0].clone(),
            fetched: Err(FetchError::Network),
            jitter_minutes: 0,
        },
    ];
    let report = updater.apply_tick(&attempts, 60);
    assert_eq!(report, TickReport { refreshed: 1, failed: 1, skipped: 3, new_items: 2 });
    assert_eq!(updater.sweep, None);
    assert!(updater.begin_sweep(60).unwrap().is_empty());
    let a = updater.feed_manager.db.get_subscription(first.id).unwrap();
    let b = updater.feed_manager.db.get_subscription(second.id).unwrap();
    let c = updater.feed_manager.db.get_subscription(third.id).unwrap();
    assert_eq!((a.error_count, a.next_refresh), (0, 60 + HOUR));
    assert_eq!((b.error_count, b.next_refresh), (1, 60 + HOUR + 2 * MINUTE));
    assert_eq!((c.error_count, c.next_refresh), (0, 61));
    assert_eq!(updater.feed_manager.db.get_subscription_items(first.id).len(), 2);
    assert!(updater.feed_manager.db.get_subscription_items(third.id).is_empty());
    assert_eq!(
        updater.apply_tick(&Vec::new(), 70),
        TickReport { refreshed: 0, failed: 0, skipped: 0, new_items: 0 }
    );
}

fn subscription_with_key(key: i32) -> Subscription {
    let mut other = subscription();
    other.id = Id::from_raw(key);
    other
}

#[test]
fn a_sweep_from_answers() {
    let (manager, first) = manager_with_subscription();
    let mut updater = Updater::new(manager);
    let second = updater
        .feed_manager
        .db
        .create_subscription(NewSubscription {
            feed_url: "http://other.org/feed".to_string(),
            title: "Other".to_string(),
            site_url: None,
            next_refresh: 0,
        })
        .unwrap();
    let far = updater
        .feed_manager
        .db
        .create_subscription(NewSubscription {
            feed_url: "http://far.org/feed".to_string(),
            title: "Far".to_string(),
            site_url: None,
            next_refresh: i64::MAX,
        })
        .unwrap();
    let due = updater.started().unwrap();
    assert_eq!(due.len(), 2);
    assert!(updater.sweep.unwrap() > 1_577_836_800_000_000);
    let work = vec![
        (first.clone(), answer(example())),
        (second.clone(), Response::Failed),
        // Handed in though it is not due: passed over.
        (far.clone(), Response::Failed),
        // Refreshed a moment ago: passed over.
        (first.clone(), answer(example())),
    ];
    let report = updater.handle(work);
    assert_eq!(report, TickReport { refreshed: 1, failed: 1, skipped: 2, new_items: 2 });
    assert_eq!(updater.sweep, None);

    // Where no sweep has begun, everything is passed over.
    let idle = updater.handle(vec![(second.clone(), answer(example()))]);
    assert_eq!(idle, TickReport { refreshed: 0, failed: 0, skipped: 1, new_items: 0 });
    assert!(updater.feed_manager.db.get_subscription_items(second.id).is_empty());
    let stored = updater.feed_manager.db.get_subscription(first.id).unwrap();
    assert_eq!(stored.error_count, 0);
    assert!(stored.next_refresh > 1_577_836_800_000_000);
    assert_eq!(updater.feed_manager.db.get_subscription(second.id).unwrap().error_count, 1);
    let untouched = updater.feed_manager.db.get_subscription(far.id).unwrap();
    assert_eq!((untouched.error_count, untouched.next_refresh), (0, i64::MAX));
    assert_eq!(updater.feed_manager.db.get_subscription_items(first.id).len(), 2);
}
