//! The computing part of the repository: a search from the request's
//! parameters, a page from the rows of a list query, an order from the rows of
//! the query by id.
use crate::models::{Error, Order, OrderSearch, Orders, Result, Token};
use crate::planner::Mode;
use crate::token::{decoded, has_no_hash, token_text};
use vstd::prelude::*;

verus! {

/// The offset of a search that names none.
pub const DEFAULT_OFFSET: i32 = 0;

/// The limit of a search that names none.
pub const DEFAULT_LIMIT: i32 = 10;

/// `s` backwards.
pub open spec fn reversed<A>(s: Seq<A>) -> Seq<A> {
    Seq::new(s.len(), |i: int| s[s.len() - 1 - i])
}

/// The orders of a page, from the rows in the order the query returned them:
/// the page above an anchor is read oldest first and turned round.
pub open spec fn page_orders(rows: Seq<Order>, mode: Mode) -> Seq<Order> {
    if mode == Mode::Backward {
        reversed(rows)
    } else {
        rows
    }
}

/// The text of an order's token.
pub open spec fn order_token(o: Order) -> Seq<char> {
    token_text(o.id@, o.creation_date)
}

/// The token text is that of the order, where there is one.
pub open spec fn token_of(t: Option<String>, o: Option<Order>) -> bool {
    match (t, o) {
        (None, None) => true,
        (Some(s), Some(o)) => s@ == order_token(o),
        _ => false,
    }
}

/// The first of a sequence, if any.
pub open spec fn first_of(s: Seq<Order>) -> Option<Order> {
    if s.len() == 0 {
        None
    } else {
        Some(s[0])
    }
}

/// The last of a sequence, if any.
pub open spec fn last_of(s: Seq<Order>) -> Option<Order> {
    if s.len() == 0 {
        None
    } else {
        Some(s.last())
    }
}

/// Every order's creation instant can be written in a token.
pub open spec fn all_encodable(s: Seq<Order>) -> bool {
    forall|i: int| 0 <= i < s.len() ==> (#[trigger] s[i]).creation_date.encodable()
}

/// Whether every order's creation instant can be written in a token.
pub fn all_orders_encodable(orders: &Vec<Order>) -> (r: bool)
    ensures
        r == all_encodable(orders@),
{
    let mut i: usize = 0;
    while i < orders.len()
        invariant
            i <= orders@.len(),
            forall|j: int| 0 <= j < i ==> (#[trigger] orders@[j]).creation_date.encodable(),
        decreases orders.len() - i,
    {
        if !orders[i].creation_date.is_encodable() {
            return false;
        }
        i += 1;
    }
    true
}

/// Builds the page from the rows that the mode's query returned: turns them
/// round for a page above an anchor, and gives the tokens of its first and of
/// its last order, both absent exactly when the page is empty.
pub fn assemble_page(rows: Vec<Order>, mode: Mode) -> (r: Orders)
    requires
        all_encodable(rows@),
    ensures
        r.orders@ == page_orders(rows@, mode),
        token_of(r.previous_token, first_of(r.orders@)),
        token_of(r.next_token, last_of(r.orders@)),
{
    let ghost original = rows@;
    let mut orders: Vec<Order>;
    if mode == Mode::Backward {
        let mut rest = rows;
        orders = Vec::new();
        while rest.len() > 0
            invariant
                rest@.len() <= original.len(),
                rest@ =~= original.subrange(0, rest@.len() as int),
                orders@ =~= reversed(original.subrange(rest@.len() as int, original.len() as int)),
            decreases rest.len(),
        {
            let o = rest.pop().unwrap();
            orders.push(o);
        }
    } else {
        orders = rows;
    }
    assert(orders@ =~= page_orders(original, mode));
    assert(all_encodable(orders@));
    let n = orders.len();
    let previous_token = if n == 0 {
        None
    } else {
        Some(Token::from_order(&orders[0]).encode())
    };
    let next_token = if n == 0 {
        None
    } else {
        Some(Token::from_order(&orders[n - 1]).encode())
    };
    Orders { orders, previous_token, next_token }
}

/// The token that a parameter names, decoded, where it holds one.
pub open spec fn token_param_ok(param: Option<String>) -> bool {
    match param {
        None => true,
        Some(text) => decoded(text@) is Some,
    }
}

/// The error for a parameter that does not decode: `Parse` where the text
/// has no `#`, else `ChonoParse`.
pub open spec fn param_error(e: Error, param: Option<String>) -> bool {
    match param {
        Some(text) => if has_no_hash(text@) {
            e is Parse
        } else {
            e is ChonoParse
        },
        None => false,
    }
}

/// The search field holds the decoded parameter.
pub open spec fn holds_param(field: Option<Token>, param: Option<String>) -> bool {
    match (field, param) {
        (None, None) => true,
        (Some(t), Some(text)) => decoded(text@) == Some((t.id@, t.creation_date.pair())),
        _ => false,
    }
}

fn decode_param(param: Option<String>) -> (r: Result<Option<Token>>)
    ensures
        r is Ok <==> token_param_ok(param),
        r matches Ok(field) ==> holds_param(field, param),
        r matches Err(e) ==> param_error(e, param),
{
    match param {
        None => Ok(None),
        Some(text) => match Token::decode(text.as_str()) {
            Ok(t) => Ok(Some(t)),
            Err(e) => Err(e),
        },
    }
}

impl OrderSearch {
    /// The search that a request's parameters describe: each token given is
    /// decoded (the previous one first), the offset defaults to 0 and the
    /// limit to 10. Fails with the first token that does not decode.
    pub fn from_params(
        previous_token: Option<String>,
        next_token: Option<String>,
        offset: Option<i32>,
        limit: Option<i32>,
    ) -> (r: Result<OrderSearch>)
        ensures
            r is Ok <==> token_param_ok(previous_token) && token_param_ok(next_token),
            r matches Ok(s) ==> {
                &&& holds_param(s.previous_token, previous_token)
                &&& holds_param(s.next_token, next_token)
                &&& s.offset == (match offset { Some(v) => v, None => DEFAULT_OFFSET })
                &&& s.limit == (match limit { Some(v) => v, None => DEFAULT_LIMIT })
            },
            r matches Err(e) ==> if token_param_ok(previous_token) {
                param_error(e, next_token)
            } else {
                param_error(e, previous_token)
            },
    {
        let previous_token = decode_param(previous_token)?;
        let next_token = decode_param(next_token)?;
        let offset = match offset {
            Some(v) => v,
            None => DEFAULT_OFFSET,
        };
        let limit = match limit {
            Some(v) => v,
            None => DEFAULT_LIMIT,
        };
        Ok(OrderSearch { previous_token, next_token, offset, limit })
    }
}

/// The order that the query by id found: the first row, or `NotFound` where
/// there is none.
pub fn order_from_rows(rows: Vec<Order>) -> (r: Result<Order>)
    ensures
        rows@.len() == 0 <==> r matches Err(Error::NotFound),
        rows@.len() > 0 ==> r == Ok::<Order, Error>(rows@[0]),
{
    let mut rows = rows;
    if rows.len() == 0 {
        Err(Error::NotFound)
    } else {
        Ok(rows.swap_remove(0))
    }
}

} // verus!
