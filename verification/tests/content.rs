use matchbook::ids::order_ref;
use matchbook::instruments::InstrumentsParams;
use matchbook::instruments::instruments_page;
use matchbook::messages::AmendOrder;
use matchbook::messages::AmendOrderOuter;
use matchbook::messages::CancelOrder;
use matchbook::messages::CreateOrder;
use matchbook::messages::CreateOrderOuter;
use matchbook::registry::BookRequest;
use matchbook::registry::Instrument;
use matchbook::snacks::delete_comment;
use matchbook::snacks::delete_snack;
use matchbook::snacks::generate_suffix;
use matchbook::snacks::slugify;
use matchbook::snacks::FeedSnacks;
use matchbook::snacks::FindSnacks;
use matchbook::snacks::SnackStore;
use matchbook::types::OrderType;
use matchbook::types::Side;
use matchbook::wire::decode_new_order;
use matchbook::wire::parse_order_type;
use matchbook::wire::parse_side;
use matchbook::wire::NewOrderRequest;
use matchbook::wire::NewOrderRequestOuter;

#[test]
fn orders_test_generate_suffix() {
    for len in 3..9 {
        assert_eq!(generate_suffix(len).len(), len);
    }
}

#[test]
fn snacks_test_generate_suffix() {
    for len in 3..9 {
        assert_eq!(generate_suffix(len).len(), len);
    }
}

#[test]
fn suffix_characters_are_alphanumeric() {
    let s = generate_suffix(64);
    assert!(s.chars().all(|c| c.is_ascii_alphanumeric()));
}

#[test]
fn slugify_known_values() {
    assert_eq!(slugify("My Test String!!!1!1"), "my-test-string-1-1");
    assert_eq!(slugify("test\nit   now!"), "test-it-now");
    assert_eq!(slugify("  --test_-_cool"), "test-cool");
    assert_eq!(slugify("You & Me"), "you-me");
}

#[test]
fn order_ref_is_a_deterministic_blob() {
    // sixteen zero bytes encode to twenty-two 'A's
    assert_eq!(order_ref(0, 0), "AAAAAAAAAAAAAAAAAAAAAA");
    let a = order_ref(1, 2);
    let b = order_ref(1, 2);
    assert_eq!(a, b);
    assert_eq!(a.len(), 22);
    assert_ne!(a, order_ref(1, 3));
}

#[test]
fn create_find_and_delete_snack() {
    let mut store = SnackStore::new();
    let id = store.create(7, "Hello World", "a greeting", "body text", vec!["foo".to_owned()]);
    assert_eq!(id, 1);
    let slug = "hello-world".to_owned();
    let at = store.find_one(&slug).expect("the entry is stored under its slug");
    assert_eq!(store.snacks[at].title, "Hello World");
    assert_eq!(store.snacks[at].slug, "hello-world");
    // a stranger cannot delete it
    delete_snack(&mut store, &slug, 8);
    assert!(store.find_one(&slug).is_some());
    // its owner can
    delete_snack(&mut store, &slug, 7);
    assert!(store.find_one(&slug).is_none());
}

#[test]
fn comments_are_deleted_only_by_their_author() {
    let mut store = SnackStore::new();
    store.create(7, "Hello World", "d", "b", vec![]);
    let slug = "hello-world".to_owned();
    let comment_id = store.post_comment(&slug, 9, "Like!".to_owned()).unwrap();
    assert_eq!(store.comments.len(), 1);
    assert_eq!(store.comments[0].body, "Like!");
    // the wrong author deletes nothing
    delete_comment(&mut store, &slug, comment_id, 7);
    assert_eq!(store.comments.len(), 1);
    delete_comment(&mut store, &slug, comment_id, 9);
    assert_eq!(store.comments.len(), 0);
    // commenting under a missing slug fails
    assert!(store.post_comment(&"nope".to_owned(), 9, "x".to_owned()).is_none());
}

#[test]
fn favorites_move_the_count_and_the_marks() {
    let mut store = SnackStore::new();
    store.create(7, "Hello World", "d", "b", vec![]);
    let slug = "hello-world".to_owned();
    assert!(store.favorite(&slug, 9));
    assert_eq!(store.snacks[0].favorites_count, 1);
    assert!(store.is_favorite(1, 9));
    assert!(!store.is_favorite(1, 8));
    assert!(store.unfavorite(&slug, 9));
    assert_eq!(store.snacks[0].favorites_count, 0);
    assert!(!store.is_favorite(1, 9));
    assert!(!store.favorite(&"nope".to_owned(), 9));
}

#[test]
fn tags_are_distinct_across_entries() {
    let mut store = SnackStore::new();
    store.create(7, "One", "d", "b", vec!["foo".to_owned(), "bar".to_owned()]);
    store.create(7, "Two", "d", "b", vec!["bar".to_owned(), "baz".to_owned()]);
    let tags = store.tags();
    assert_eq!(tags, vec!["foo".to_owned(), "bar".to_owned(), "baz".to_owned()]);
}

#[test]
fn find_filters_and_pages() {
    let mut store = SnackStore::new();
    store.create(7, "One", "d", "b", vec!["foo".to_owned()]);
    store.create(8, "Two", "d", "b", vec!["bar".to_owned()]);
    store.create(7, "Three", "d", "b", vec!["bar".to_owned()]);
    let by_author = FindSnacks {
        tag: None,
        author: Some(7),
        favorited: None,
        limit: None,
        offset: None,
    };
    let (page, total) = store.find(&by_author);
    assert_eq!(total, 2);
    assert_eq!(page, vec![0, 2]);
    // a tag filter widens an author filter
    let either = FindSnacks {
        tag: Some("bar".to_owned()),
        author: Some(7),
        favorited: None,
        limit: None,
        offset: None,
    };
    let (page, total) = store.find(&either);
    assert_eq!(total, 3);
    assert_eq!(page, vec![0, 1, 2]);
    // the favorited filter narrows
    store.favorite(&"two".to_owned(), 9);
    let favored = FindSnacks {
        tag: Some("bar".to_owned()),
        author: Some(7),
        favorited: Some(9),
        limit: None,
        offset: None,
    };
    let (page, total) = store.find(&favored);
    assert_eq!(total, 1);
    assert_eq!(page, vec![1]);
    // pagination clamps to the listing
    let paged = FindSnacks {
        tag: None,
        author: None,
        favorited: None,
        limit: Some(1),
        offset: Some(1),
    };
    let (page, total) = store.find(&paged);
    assert_eq!(total, 3);
    assert_eq!(page, vec![1]);
    let beyond = FindSnacks {
        tag: None,
        author: None,
        favorited: None,
        limit: Some(5),
        offset: Some(10),
    };
    let (page, _) = store.find(&beyond);
    assert!(page.is_empty());
}

#[test]
fn feed_lists_followed_authors_only() {
    let mut store = SnackStore::new();
    store.create(7, "One", "d", "b", vec![]);
    store.create(8, "Two", "d", "b", vec![]);
    store.create(7, "Three", "d", "b", vec![]);
    store.follow(9, 7);
    let page = store.feed(&FeedSnacks { limit: None, offset: None }, 9);
    assert_eq!(page, vec![0, 2]);
    let empty = store.feed(&FeedSnacks { limit: None, offset: None }, 8);
    assert!(empty.is_empty());
}

#[test]
fn wire_names_parse_exactly() {
    assert_eq!(parse_side(&"bid".to_owned()), Some(Side::Bid));
    assert_eq!(parse_side(&"ask".to_owned()), Some(Side::Ask));
    assert_eq!(parse_side(&"BID".to_owned()), None);
    assert_eq!(parse_order_type(&"limit".to_owned()), Some(OrderType::Limit));
    assert_eq!(parse_order_type(&"market".to_owned()), Some(OrderType::Market));
    assert_eq!(parse_order_type(&"stop".to_owned()), None);
}

#[test]
fn wire_requests_decode_into_messages() {
    let wire = NewOrderRequestOuter {
        account_id: 7,
        instrument_id: 1,
        order: NewOrderRequest {
            instrument_id: 1,
            side: "bid".to_owned(),
            order_type: "limit".to_owned(),
            limit_price: Some(1000),
            qty: 5,
        },
    };
    let msg = decode_new_order(&wire).expect("both names parse");
    assert_eq!(msg.account_id, 7);
    assert_eq!(msg.order.side, Side::Bid);
    assert_eq!(msg.order.order_type, OrderType::Limit);
    let req = msg.to_request(42).expect("a limit order with a price is complete");
    assert_eq!(req.order_id, 42);
    assert_eq!(req.limit_price, 1000);
    assert_eq!(req.qty, 5);
    let bad = NewOrderRequestOuter {
        account_id: 7,
        instrument_id: 1,
        order: NewOrderRequest {
            instrument_id: 1,
            side: "sideways".to_owned(),
            order_type: "limit".to_owned(),
            limit_price: Some(1000),
            qty: 5,
        },
    };
    assert!(decode_new_order(&bad).is_none());
}

#[test]
fn limit_order_without_price_is_incomplete() {
    let msg = CreateOrderOuter {
        account_id: 7,
        order: CreateOrder {
            instrument_id: 1,
            side: Side::Bid,
            order_type: OrderType::Limit,
            limit_price: None,
            qty: 5,
        },
    };
    assert!(msg.to_request(1).is_none());
    let market = CreateOrderOuter {
        account_id: 7,
        order: CreateOrder {
            instrument_id: 1,
            side: Side::Bid,
            order_type: OrderType::Market,
            limit_price: None,
            qty: 5,
        },
    };
    let req = market.to_request(1).expect("a market order needs no price");
    assert_eq!(req.limit_price, 0);
}

#[test]
fn amend_and_cancel_messages_build_book_requests() {
    let amend = AmendOrderOuter {
        account_id: 7,
        order_id: 5,
        order: AmendOrder { new_price: Some(1000), new_qty: None },
    };
    match amend.to_request() {
        BookRequest::Amend { order_id, account_id, new_price, new_qty } => {
            assert_eq!(order_id, 5);
            assert_eq!(account_id, 7);
            assert_eq!(new_price, Some(1000));
            assert_eq!(new_qty, None);
        }
        other => panic!("expected an amend request, got {:?}", other),
    }
    let cancel = CancelOrder { account_id: 7, order_id: 5 };
    match cancel.to_request() {
        BookRequest::Cancel { order_id, account_id } => {
            assert_eq!(order_id, 5);
            assert_eq!(account_id, 7);
        }
        other => panic!("expected a cancel request, got {:?}", other),
    }
}

#[test]
fn instrument_listing_pages_with_defaults() {
    let inst = |id: u64| Instrument {
        instrument_id: id,
        symbol: format!("S{}", id),
        margin_asset: "USD".to_owned(),
        underlying_asset: "X".to_owned(),
        maker_fee_bps: 0,
        taker_fee_bps: 0,
        routing_fee_bps: 0,
    };
    let all: Vec<Instrument> = (0u64..30).map(inst).collect();
    let page = instruments_page(&all, InstrumentsParams { limit: None, offset: None });
    assert_eq!(page.len(), 20);
    assert_eq!(page[0], 0);
    let page = instruments_page(&all, InstrumentsParams { limit: Some(5), offset: Some(28) });
    assert_eq!(page, vec![28, 29]);
    let page = instruments_page(&all, InstrumentsParams { limit: Some(5), offset: Some(40) });
    assert!(page.is_empty());
}
