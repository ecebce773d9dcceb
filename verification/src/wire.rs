//! The string-typed request shapes the HTTP surface decodes into, and the
//! verified parsing that turns them into typed engine messages.  The wire
//! layer owns nothing: a request either parses into a [`crate::messages`]
//! value or is refused before it reaches a book.

use vstd::prelude::*;

use crate::messages::CreateOrder;
use crate::messages::CreateOrderOuter;
use crate::messages::OrdersParams;
use crate::types::OrderType;
use crate::types::Side;

verus! {

/// A new order as decoded from the wire, sides and kinds still as text.
#[derive(Clone, Debug)]
pub struct NewOrderRequest {
    pub instrument_id: u64,
    pub side: String,
    pub order_type: String,
    pub limit_price: Option<u64>,
    pub qty: u64,
}

/// A wire new-order request with its authenticated account resolved.
#[derive(Clone, Debug)]
pub struct NewOrderRequestOuter {
    pub account_id: u64,
    pub instrument_id: u64,
    pub order: NewOrderRequest,
}

/// A wire read of one order.
#[derive(Clone, Debug)]
pub struct GetOrderRequest {
    pub account_id: Option<u64>,
    pub id: String,
}

/// The fields a wire amend may change.
#[derive(Clone, Copy, Debug)]
pub struct AmendOrderRequest {
    pub new_price: Option<u64>,
    pub new_qty: Option<u64>,
}

/// A wire amend with its authenticated account resolved.
#[derive(Clone, Copy, Debug)]
pub struct AmendOrderRequestOuter {
    pub account_id: u64,
    pub order_id: u64,
    pub order: AmendOrderRequest,
}

/// A wire cancel with its authenticated account resolved.
#[derive(Clone, Copy, Debug)]
pub struct CancelOrderRequest {
    pub account_id: u64,
    pub order_id: u64,
}

/// A wire listing of orders.
#[derive(Clone, Copy, Debug)]
pub struct GetOrdersRequest {
    pub account_id: Option<u64>,
    pub params: OrdersParams,
}

/// The side a wire string names: `"bid"` or `"ask"`, nothing else.
pub open spec fn spec_parse_side(s: Seq<char>) -> Option<Side> {
    if s == "bid"@ {
        Some(Side::Bid)
    } else if s == "ask"@ {
        Some(Side::Ask)
    } else {
        None
    }
}

/// The order type a wire string names: `"limit"` or `"market"`.
pub open spec fn spec_parse_order_type(s: Seq<char>) -> Option<OrderType> {
    if s == "limit"@ {
        Some(OrderType::Limit)
    } else if s == "market"@ {
        Some(OrderType::Market)
    } else {
        None
    }
}

/// Parses a wire side name.
pub fn parse_side(s: &String) -> (r: Option<Side>)
    ensures
        r == spec_parse_side(s@),
{
    let bid: String = "bid".to_owned();
    let ask: String = "ask".to_owned();
    if s.eq(&bid) {
        Some(Side::Bid)
    } else if s.eq(&ask) {
        Some(Side::Ask)
    } else {
        None
    }
}

/// Parses a wire order type name.
pub fn parse_order_type(s: &String) -> (r: Option<OrderType>)
    ensures
        r == spec_parse_order_type(s@),
{
    let limit: String = "limit".to_owned();
    let market: String = "market".to_owned();
    if s.eq(&limit) {
        Some(OrderType::Limit)
    } else if s.eq(&market) {
        Some(OrderType::Market)
    } else {
        None
    }
}

/// The typed message a wire request stands for, when its side and order
/// type both parse.
pub open spec fn spec_decode_new_order(r: NewOrderRequestOuter) -> Option<CreateOrderOuter> {
    match (spec_parse_side(r.order.side@), spec_parse_order_type(r.order.order_type@)) {
        (Some(side), Some(order_type)) => Some(
            CreateOrderOuter {
                account_id: r.account_id,
                order: CreateOrder {
                    instrument_id: r.instrument_id,
                    side,
                    order_type,
                    limit_price: r.order.limit_price,
                    qty: r.order.qty,
                },
            },
        ),
        _ => None,
    }
}

/// Decodes a wire new-order request into the typed message it stands for;
/// refused exactly when the side or the order type is not a known name.
pub fn decode_new_order(r: &NewOrderRequestOuter) -> (out: Option<CreateOrderOuter>)
    ensures
        out == spec_decode_new_order(*r),
{
    let side = match parse_side(&r.order.side) {
        Some(side) => side,
        None => {
            return None;
        },
    };
    let order_type = match parse_order_type(&r.order.order_type) {
        Some(t) => t,
        None => {
            return None;
        },
    };
    Some(
        CreateOrderOuter {
            account_id: r.account_id,
            order: CreateOrder {
                instrument_id: r.instrument_id,
                side,
                order_type,
                limit_price: r.order.limit_price,
                qty: r.order.qty,
            },
        },
    )
}

} // verus!
