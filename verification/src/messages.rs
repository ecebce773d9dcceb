//! The typed request vocabulary the surrounding service hands to the
//! engine: create, amend and cancel messages together with the query shapes
//! for reading orders back.  Each carrier converts exactly into the book
//! request it stands for.

use vstd::prelude::*;

use crate::book::NewOrderReq;
use crate::registry::BookRequest;
use crate::types::OrderType;
use crate::types::Side;

verus! {

/// The envelope a request body arrives in.
#[derive(Clone, Copy, Debug)]
pub struct In<T> {
    pub order: T,
}

/// The path segment that names one order.
#[derive(Clone, Debug)]
pub struct OrderPath {
    pub id: String,
}

/// Filters and pagination for listing orders.
#[derive(Clone, Copy, Debug)]
pub struct OrdersParams {
    pub instrument_id: Option<u64>,
    pub account_id: Option<u64>,
    /// Page size; a listing without one uses the venue default.
    pub limit: Option<usize>,
    pub offset: Option<usize>,
}

/// Pagination for a caller's own order feed.
#[derive(Clone, Copy, Debug)]
pub struct FeedParams {
    pub limit: Option<usize>,
    pub offset: Option<usize>,
}

/// A new order intent, before authentication data is attached.
#[derive(Clone, Copy, Debug)]
pub struct CreateOrder {
    pub instrument_id: u64,
    pub side: Side,
    pub order_type: OrderType,
    /// Required for limit orders, ignored for market orders.
    pub limit_price: Option<u64>,
    pub qty: u64,
}

/// A new order intent with its authenticated owner resolved.
#[derive(Clone, Copy, Debug)]
pub struct CreateOrderOuter {
    pub account_id: u64,
    pub order: CreateOrder,
}

/// A read of one order.
#[derive(Clone, Copy, Debug)]
pub struct GetOrder {
    pub account_id: Option<u64>,
    pub order_id: u64,
}

/// The fields an amend may change.
#[derive(Clone, Copy, Debug)]
pub struct AmendOrder {
    pub new_price: Option<u64>,
    pub new_qty: Option<u64>,
}

/// An amend with its authenticated owner resolved.
#[derive(Clone, Copy, Debug)]
pub struct AmendOrderOuter {
    pub account_id: u64,
    pub order_id: u64,
    pub order: AmendOrder,
}

/// A cancel with its authenticated owner resolved.
#[derive(Clone, Copy, Debug)]
pub struct CancelOrder {
    pub account_id: u64,
    pub order_id: u64,
}

/// A listing of orders under the caller's filters.
#[derive(Clone, Copy, Debug)]
pub struct GetOrders {
    pub account_id: Option<u64>,
    pub params: OrdersParams,
}

impl CreateOrderOuter {
    /// A create message is complete when a limit order carries its price.
    pub open spec fn spec_complete(self) -> bool {
        self.order.order_type == OrderType::Limit ==> self.order.limit_price is Some
    }

    /// The book request this message stands for, under the given order id;
    /// refused exactly when a limit order arrived without a price.
    pub fn to_request(&self, order_id: u64) -> (r: Option<NewOrderReq>)
        ensures
            r is Some <==> self.spec_complete(),
            self.spec_complete() ==> r == Some(
                NewOrderReq {
                    order_id,
                    account_id: self.account_id,
                    side: self.order.side,
                    order_type: self.order.order_type,
                    limit_price: match self.order.limit_price {
                        Some(p) => p,
                        None => 0,
                    },
                    qty: self.order.qty,
                },
            ),
    {
        if matches!(self.order.order_type, OrderType::Limit) && self.order.limit_price.is_none() {
            return None;
        }
        let limit_price = match self.order.limit_price {
            Some(p) => p,
            None => 0,
        };
        Some(
            NewOrderReq {
                order_id,
                account_id: self.account_id,
                side: self.order.side,
                order_type: self.order.order_type,
                limit_price,
                qty: self.order.qty,
            },
        )
    }
}

impl AmendOrderOuter {
    /// The book request this message stands for.
    pub fn to_request(&self) -> (r: BookRequest)
        ensures
            r == (BookRequest::Amend {
                order_id: self.order_id,
                account_id: self.account_id,
                new_price: self.order.new_price,
                new_qty: self.order.new_qty,
            }),
    {
        BookRequest::Amend {
            order_id: self.order_id,
            account_id: self.account_id,
            new_price: self.order.new_price,
            new_qty: self.order.new_qty,
        }
    }
}

impl CancelOrder {
    /// The book request this message stands for.
    pub fn to_request(&self) -> (r: BookRequest)
        ensures
            r == (BookRequest::Cancel { order_id: self.order_id, account_id: self.account_id }),
    {
        BookRequest::Cancel { order_id: self.order_id, account_id: self.account_id }
    }
}

} // verus!
