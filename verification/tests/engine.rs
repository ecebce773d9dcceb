use matchbook::book::NewOrderReq;
use matchbook::book::OrderBook;
use matchbook::queue::OrderQueue;
use matchbook::registry::BookRequest;
use matchbook::registry::Instrument;
use matchbook::registry::Registry;
use matchbook::reporter::report;
use matchbook::reporter::Event;
use matchbook::types::Order;
use matchbook::types::OrderStatus;
use matchbook::types::OrderType;
use matchbook::types::Outcome;
use matchbook::types::RejectReason;
use matchbook::types::Side;
use matchbook::types::MAX_ORDER_QTY;

fn limit(order_id: u64, side: Side, price: u64, qty: u64) -> NewOrderReq {
    NewOrderReq {
        order_id,
        account_id: 7,
        side,
        order_type: OrderType::Limit,
        limit_price: price,
        qty,
    }
}

fn market(order_id: u64, side: Side, qty: u64) -> NewOrderReq {
    NewOrderReq {
        order_id,
        account_id: 7,
        side,
        order_type: OrderType::Market,
        limit_price: 0,
        qty,
    }
}

#[test]
fn empty_book_accepts_resting_bid() {
    // price 10.00 in ticks of 0.01, quantity 5
    let mut book = OrderBook::new(1);
    let out = book.submit_new(limit(100, Side::Bid, 1000, 5));
    assert_eq!(
        out,
        vec![Outcome::Accepted { order_id: 100, leaves_qty: 5, status: OrderStatus::Accepted }]
    );
    let resting = book.find_resting(100).expect("the bid must rest");
    assert_eq!(resting.leaves_qty, 5);
    assert_eq!(resting.limit_price, 1000);
    assert_eq!(resting.sequence, 1);
    assert_eq!(book.bids.len(), 1);
    assert_eq!(book.asks.len(), 0);
}

#[test]
fn crossing_orders_fill_both_sides_completely() {
    let mut book = OrderBook::new(1);
    let out_ask = book.submit_new(limit(1, Side::Ask, 1000, 5));
    assert_eq!(
        out_ask,
        vec![Outcome::Accepted { order_id: 1, leaves_qty: 5, status: OrderStatus::Accepted }]
    );
    let out_bid = book.submit_new(limit(2, Side::Bid, 1000, 5));
    assert_eq!(out_bid.len(), 3);
    match out_bid[0] {
        Outcome::Traded { trade } => {
            assert_eq!(trade.price, 1000);
            assert_eq!(trade.exec_qty, 5);
            assert_eq!(trade.aggressor_order_id, 2);
            assert_eq!(trade.resting_order_id, 1);
        }
        ref other => panic!("expected a trade, got {:?}", other),
    }
    assert_eq!(
        out_bid[1],
        Outcome::StatusChanged { order_id: 1, status: OrderStatus::Filled }
    );
    assert_eq!(
        out_bid[2],
        Outcome::Accepted { order_id: 2, leaves_qty: 0, status: OrderStatus::Filled }
    );
    assert_eq!(book.bids.len(), 0);
    assert_eq!(book.asks.len(), 0);
    assert_eq!(book.current_spread(), None);
}

#[test]
fn market_order_sweeps_level_in_time_priority() {
    let mut book = OrderBook::new(1);
    book.submit_new(limit(51, Side::Ask, 1000, 3));
    book.submit_new(limit(52, Side::Ask, 1000, 2));
    let first = book.find_resting(51).unwrap();
    let second = book.find_resting(52).unwrap();
    assert_eq!(first.sequence, 1);
    assert_eq!(second.sequence, 2);
    let out = book.submit_new(market(53, Side::Bid, 4));
    assert_eq!(out.len(), 5);
    match (out[0], out[2]) {
        (Outcome::Traded { trade: t1 }, Outcome::Traded { trade: t2 }) => {
            assert_eq!(t1.resting_order_id, 51);
            assert_eq!(t1.exec_qty, 3);
            assert_eq!(t1.price, 1000);
            assert_eq!(t2.resting_order_id, 52);
            assert_eq!(t2.exec_qty, 1);
            assert_eq!(t2.price, 1000);
            // conservation on each fill: never more than either side holds,
            // and the aggressor's two fills use up its whole quantity
            assert!(t1.exec_qty <= 4 && t1.exec_qty <= 3);
            assert!(t2.exec_qty <= 4 - t1.exec_qty && t2.exec_qty <= 2);
            assert_eq!(t1.exec_qty + t2.exec_qty, 4);
        }
        other => panic!("expected two trades, got {:?}", other),
    }
    assert_eq!(
        out[1],
        Outcome::StatusChanged { order_id: 51, status: OrderStatus::Filled }
    );
    assert_eq!(
        out[3],
        Outcome::StatusChanged { order_id: 52, status: OrderStatus::PartiallyFilled }
    );
    assert_eq!(
        out[4],
        Outcome::Accepted { order_id: 53, leaves_qty: 0, status: OrderStatus::Filled }
    );
    let survivor = book.find_resting(52).unwrap();
    assert_eq!(survivor.leaves_qty, 1);
    assert_eq!(survivor.status, OrderStatus::PartiallyFilled);
    assert!(book.find_resting(51).is_none());
    assert!(book.find_resting(53).is_none());
}

#[test]
fn market_order_against_empty_book_is_canceled() {
    let mut book = OrderBook::new(1);
    let out = book.submit_new(market(9, Side::Bid, 10));
    assert_eq!(
        out,
        vec![Outcome::Accepted { order_id: 9, leaves_qty: 10, status: OrderStatus::Canceled }]
    );
    assert_eq!(book.bids.len(), 0);
    assert_eq!(book.asks.len(), 0);
    assert!(book.find_resting(9).is_none());
}

#[test]
fn price_amend_forfeits_queue_position() {
    let mut book = OrderBook::new(1);
    book.submit_new(limit(1, Side::Bid, 1010, 5));
    book.submit_new(limit(2, Side::Bid, 1000, 5));
    // amending the higher bid down to the same level re-stamps it
    let out = book.amend(1, 7, Some(1000), None);
    assert_eq!(
        out,
        vec![Outcome::Accepted { order_id: 1, leaves_qty: 5, status: OrderStatus::Accepted }]
    );
    let moved = book.find_resting(1).unwrap();
    assert_eq!(moved.limit_price, 1000);
    assert!(moved.sequence > book.find_resting(2).unwrap().sequence);
    // the order it used to precede now matches first
    let out = book.submit_new(limit(3, Side::Ask, 1000, 5));
    match out[0] {
        Outcome::Traded { trade } => assert_eq!(trade.resting_order_id, 2),
        ref other => panic!("expected a trade, got {:?}", other),
    }
}

#[test]
fn duplicate_order_id_is_rejected_without_state_change() {
    let mut book = OrderBook::new(1);
    let first = book.submit_new(limit(100, Side::Bid, 1000, 5));
    assert_eq!(
        first,
        vec![Outcome::Accepted { order_id: 100, leaves_qty: 5, status: OrderStatus::Accepted }]
    );
    let second = book.submit_new(limit(100, Side::Bid, 1000, 5));
    assert_eq!(
        second,
        vec![Outcome::Rejected { order_id: 100, reason: RejectReason::DuplicateOrderId }]
    );
    // the queue is exactly as one submission left it
    assert_eq!(book.bids.len(), 1);
    assert_eq!(book.find_resting(100).unwrap().leaves_qty, 5);
    // a terminal id stays known: fill the order, then try it again
    book.submit_new(limit(200, Side::Ask, 1000, 5));
    assert!(book.find_resting(100).is_none());
    let third = book.submit_new(limit(100, Side::Bid, 1000, 5));
    assert_eq!(
        third,
        vec![Outcome::Rejected { order_id: 100, reason: RejectReason::DuplicateOrderId }]
    );
}

#[test]
fn zero_and_oversized_quantities_are_invalid() {
    let mut book = OrderBook::new(1);
    let out = book.submit_new(limit(1, Side::Bid, 1000, 0));
    assert_eq!(
        out,
        vec![Outcome::Rejected { order_id: 1, reason: RejectReason::InvalidQuantity }]
    );
    let out = book.submit_new(limit(1, Side::Bid, 1000, MAX_ORDER_QTY + 1));
    assert_eq!(
        out,
        vec![Outcome::Rejected { order_id: 1, reason: RejectReason::InvalidQuantity }]
    );
    // the id was never admitted, so it is still free
    let out = book.submit_new(limit(1, Side::Bid, 1000, MAX_ORDER_QTY));
    assert_eq!(
        out,
        vec![Outcome::Accepted {
            order_id: 1,
            leaves_qty: MAX_ORDER_QTY,
            status: OrderStatus::Accepted
        }]
    );
}

#[test]
fn amend_and_cancel_check_ownership_and_presence() {
    let mut book = OrderBook::new(1);
    book.submit_new(limit(1, Side::Bid, 1000, 5));
    assert_eq!(
        book.amend(2, 7, Some(1000), None),
        vec![Outcome::Rejected { order_id: 2, reason: RejectReason::NotFound }]
    );
    assert_eq!(
        book.amend(1, 8, Some(1000), None),
        vec![Outcome::Rejected { order_id: 1, reason: RejectReason::Forbidden }]
    );
    assert_eq!(
        book.amend(1, 7, None, Some(0)),
        vec![Outcome::Rejected { order_id: 1, reason: RejectReason::InvalidQuantity }]
    );
    assert_eq!(
        book.cancel(2, 7),
        vec![Outcome::Rejected { order_id: 2, reason: RejectReason::NotFound }]
    );
    assert_eq!(
        book.cancel(1, 8),
        vec![Outcome::Rejected { order_id: 1, reason: RejectReason::Forbidden }]
    );
    assert_eq!(
        book.cancel(1, 7),
        vec![Outcome::StatusChanged { order_id: 1, status: OrderStatus::Canceled }]
    );
    assert!(book.find_resting(1).is_none());
}

#[test]
fn quantity_decrease_keeps_priority() {
    let mut book = OrderBook::new(1);
    book.submit_new(limit(1, Side::Ask, 1000, 5));
    book.submit_new(limit(2, Side::Ask, 1000, 5));
    let out = book.amend(1, 7, None, Some(2));
    assert_eq!(
        out,
        vec![Outcome::Accepted { order_id: 1, leaves_qty: 2, status: OrderStatus::Accepted }]
    );
    // the reduced order keeps its sequence, so it still matches first
    assert_eq!(book.find_resting(1).unwrap().sequence, 1);
    let out = book.submit_new(limit(3, Side::Bid, 1000, 2));
    match out[0] {
        Outcome::Traded { trade } => {
            assert_eq!(trade.resting_order_id, 1);
            assert_eq!(trade.exec_qty, 2);
        }
        ref other => panic!("expected a trade, got {:?}", other),
    }
}

#[test]
fn aggressor_pays_resting_price() {
    let mut book = OrderBook::new(1);
    book.submit_new(limit(1, Side::Ask, 990, 5));
    let out = book.submit_new(limit(2, Side::Bid, 1010, 5));
    match out[0] {
        Outcome::Traded { trade } => assert_eq!(trade.price, 990),
        ref other => panic!("expected a trade, got {:?}", other),
    }
}

#[test]
fn price_priority_beats_time_priority() {
    let mut book = OrderBook::new(1);
    book.submit_new(limit(1, Side::Bid, 1000, 5));
    book.submit_new(limit(2, Side::Bid, 1010, 5));
    // the later but higher-priced bid matches first
    let out = book.submit_new(limit(3, Side::Ask, 990, 5));
    match out[0] {
        Outcome::Traded { trade } => {
            assert_eq!(trade.resting_order_id, 2);
            assert_eq!(trade.price, 1010);
        }
        ref other => panic!("expected a trade, got {:?}", other),
    }
}

#[test]
fn limit_bid_does_not_cross_above_its_price() {
    let mut book = OrderBook::new(1);
    book.submit_new(limit(1, Side::Ask, 1010, 5));
    let out = book.submit_new(limit(2, Side::Bid, 1000, 5));
    assert_eq!(
        out,
        vec![Outcome::Accepted { order_id: 2, leaves_qty: 5, status: OrderStatus::Accepted }]
    );
    assert_eq!(book.current_spread(), Some((1000, 1010)));
}

#[test]
fn partial_fill_rests_remainder_as_partially_filled() {
    let mut book = OrderBook::new(1);
    book.submit_new(limit(1, Side::Ask, 1000, 2));
    let out = book.submit_new(limit(2, Side::Bid, 1000, 5));
    assert_eq!(
        out[2],
        Outcome::Accepted { order_id: 2, leaves_qty: 3, status: OrderStatus::PartiallyFilled }
    );
    let resting = book.find_resting(2).unwrap();
    assert_eq!(resting.leaves_qty, 3);
    assert_eq!(resting.status, OrderStatus::PartiallyFilled);
}

#[test]
fn queue_operations_keep_price_time_order() {
    let mut q = OrderQueue::new(Side::Bid, 1);
    let mk = |order_id: u64, price: u64, sequence: u64| Order {
        order_id,
        account_id: 7,
        instrument_id: 1,
        side: Side::Bid,
        order_type: OrderType::Limit,
        limit_price: price,
        initial_qty: 5,
        leaves_qty: 5,
        status: OrderStatus::Accepted,
        sequence,
    };
    assert!(q.insert(mk(1, 1000, 1)).is_ok());
    assert!(q.insert(mk(2, 1010, 2)).is_ok());
    assert!(q.insert(mk(3, 1000, 3)).is_ok());
    assert_eq!(
        q.insert(mk(1, 900, 4)),
        Err(RejectReason::DuplicateOrderId)
    );
    assert_eq!(q.best_price(), Some(1010));
    assert_eq!(q.peek_best().unwrap().order_id, 2);
    assert!(q.reduce(3, 2).is_ok());
    assert_eq!(q.reduce(9, 1), Err(RejectReason::NotFound));
    let removed = q.remove(2).unwrap();
    assert_eq!(removed.order_id, 2);
    assert_eq!(q.remove(2), Err(RejectReason::NotFound));
    // after removing the best bid, time priority decides at 1000
    assert_eq!(q.pop_best().unwrap().order_id, 1);
    let last = q.pop_best().unwrap();
    assert_eq!(last.order_id, 3);
    assert_eq!(last.leaves_qty, 3);
    assert_eq!(q.pop_best(), None);
}

#[test]
fn registry_routes_per_instrument_and_rejects_unknown() {
    let inst = |id: u64, symbol: &str| Instrument {
        instrument_id: id,
        symbol: symbol.to_owned(),
        margin_asset: "USD".to_owned(),
        underlying_asset: "XYZ".to_owned(),
        maker_fee_bps: 10,
        taker_fee_bps: 20,
        routing_fee_bps: 1,
    };
    let mut venue = Registry::new();
    assert!(venue.activate(inst(1, "XYZUSD")));
    assert!(!venue.activate(inst(1, "XYZUSD")));
    assert!(venue.activate(inst(2, "ABCUSD")));
    let out = venue
        .route(1, BookRequest::New { req: limit(10, Side::Bid, 1000, 5) })
        .expect("instrument 1 is live");
    assert_eq!(
        out,
        vec![Outcome::Accepted { order_id: 10, leaves_qty: 5, status: OrderStatus::Accepted }]
    );
    // the same order id is free on an independent instrument
    let out = venue
        .route(2, BookRequest::New { req: limit(10, Side::Bid, 1000, 5) })
        .expect("instrument 2 is live");
    assert_eq!(
        out,
        vec![Outcome::Accepted { order_id: 10, leaves_qty: 5, status: OrderStatus::Accepted }]
    );
    assert_eq!(
        venue.route(3, BookRequest::New { req: limit(11, Side::Bid, 1000, 5) }),
        Err(RejectReason::UnknownInstrument)
    );
    assert_eq!(
        venue.route(
            1,
            BookRequest::Cancel { order_id: 10, account_id: 7 }
        ),
        Ok(vec![Outcome::StatusChanged { order_id: 10, status: OrderStatus::Canceled }])
    );
}

#[test]
fn retiring_an_instrument_cancels_all_resting_orders() {
    let mut venue = Registry::new();
    venue.activate(Instrument {
        instrument_id: 1,
        symbol: "XYZUSD".to_owned(),
        margin_asset: "USD".to_owned(),
        underlying_asset: "XYZ".to_owned(),
        maker_fee_bps: 10,
        taker_fee_bps: 20,
        routing_fee_bps: 1,
    });
    venue.route(1, BookRequest::New { req: limit(1, Side::Bid, 1000, 5) }).unwrap();
    venue.route(1, BookRequest::New { req: limit(2, Side::Ask, 1010, 5) }).unwrap();
    let out = venue.retire(1).expect("instrument 1 was live");
    assert_eq!(
        out,
        vec![
            Outcome::StatusChanged { order_id: 1, status: OrderStatus::Canceled },
            Outcome::StatusChanged { order_id: 2, status: OrderStatus::Canceled },
        ]
    );
    assert_eq!(venue.retire(1), Err(RejectReason::UnknownInstrument));
    assert_eq!(
        venue.route(1, BookRequest::New { req: limit(3, Side::Bid, 1000, 5) }),
        Err(RejectReason::UnknownInstrument)
    );
}

#[test]
fn engine_assigned_ids_flow_through_the_registry() {
    let mut venue = Registry::new();
    venue.activate(Instrument {
        instrument_id: 1,
        symbol: "XYZUSD".to_owned(),
        margin_asset: "USD".to_owned(),
        underlying_asset: "XYZ".to_owned(),
        maker_fee_bps: 10,
        taker_fee_bps: 20,
        routing_fee_bps: 1,
    });
    let (order_id, out) =
        venue.submit_new_order(1, 7, Side::Bid, OrderType::Limit, 1000, 5);
    let out = out.expect("instrument 1 is live");
    assert_eq!(
        out,
        vec![Outcome::Accepted { order_id, leaves_qty: 5, status: OrderStatus::Accepted }]
    );
}

#[test]
fn reporter_preserves_order_and_vocabulary() {
    let mut book = OrderBook::new(1);
    book.submit_new(limit(1, Side::Ask, 1000, 3));
    let outcomes = book.submit_new(limit(2, Side::Bid, 1000, 5));
    let events = report(&outcomes);
    assert_eq!(events.len(), outcomes.len());
    match events[0] {
        Event::TradeExecuted { aggressor_order_id, resting_order_id, price, qty, .. } => {
            assert_eq!(aggressor_order_id, 2);
            assert_eq!(resting_order_id, 1);
            assert_eq!(price, 1000);
            assert_eq!(qty, 3);
        }
        ref other => panic!("expected a trade event, got {:?}", other),
    }
    assert_eq!(
        events[1],
        Event::OrderStatusChanged { order_id: 1, status: OrderStatus::Filled }
    );
    assert_eq!(
        events[2],
        Event::OrderAccepted { order_id: 2, leaves_qty: 2, status: OrderStatus::PartiallyFilled }
    );
    let rejected = book.submit_new(limit(1, Side::Bid, 1000, 5));
    let events = report(&rejected);
    assert_eq!(
        events,
        vec![Event::OrderRejected {
            order_id: Some(1),
            reason: RejectReason::DuplicateOrderId
        }]
    );
}

#[test]
fn identical_input_sequences_replay_identically() {
    let feed = |book: &mut OrderBook| {
        let mut all = Vec::new();
        all.extend(book.submit_new(limit(1, Side::Ask, 1000, 3)));
        all.extend(book.submit_new(limit(2, Side::Ask, 990, 2)));
        all.extend(book.submit_new(market(3, Side::Bid, 4)));
        all.extend(book.amend(1, 7, Some(995), None));
        all.extend(book.cancel(1, 7));
        all
    };
    let mut a = OrderBook::new(1);
    let mut b = OrderBook::new(1);
    assert_eq!(feed(&mut a), feed(&mut b));
}

#[test]
fn amend_without_changes_reports_the_order_as_it_stands() {
    let mut book = OrderBook::new(1);
    book.submit_new(limit(1, Side::Bid, 1000, 5));
    let out = book.amend(1, 7, Some(1000), Some(5));
    assert_eq!(
        out,
        vec![Outcome::Accepted { order_id: 1, leaves_qty: 5, status: OrderStatus::Accepted }]
    );
    // the order kept its arrival stamp
    assert_eq!(book.find_resting(1).unwrap().sequence, 1);
}
