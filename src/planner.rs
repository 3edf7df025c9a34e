//! The choice among the three list queries, and their bindings.
use crate::models::{OrderSearch, Token};
use vstd::prelude::*;

verus! {

/// The first page: every order, newest first.
pub const GET_ORDERS_QUERY: &'static str = "SELECT id, creation_date, update_date
FROM \"order\"
order by creation_date desc, id desc
offset $1 limit $2";

/// The page after an anchor: the orders below it, newest first.
pub const GET_ORDERS_AFTER_QUERY: &'static str = "SELECT id, creation_date, update_date
FROM \"order\"
where (creation_date, id) < ($3, $4)
order by creation_date desc, id desc
offset $1 limit $2";

/// The page before an anchor: the orders above it, oldest first.
pub const GET_ORDERS_BEFORE_QUERY: &'static str = "SELECT id, creation_date, update_date
FROM \"order\"
where (creation_date, id) > ($3, $4)
order by creation_date asc, id asc
offset $1 limit $2";

/// One order by its id.
pub const GET_ORDER_BY_ID_QUERY: &'static str = "SELECT id, creation_date, update_date
FROM \"order\"
where id = $1";

/// Which of the three list queries a search runs.
#[derive(Clone, Copy, Debug, PartialEq, Eq, Structural)]
pub enum Mode {
    /// No token: the first page.
    Initial,
    /// A next token: the page below its anchor.
    Forward,
    /// A previous token and no next token: the page above its anchor.
    Backward,
}

impl Mode {
    /// The text of the mode's query.
    pub open spec fn sql_spec(self) -> Seq<char> {
        match self {
            Mode::Initial => GET_ORDERS_QUERY@,
            Mode::Forward => GET_ORDERS_AFTER_QUERY@,
            Mode::Backward => GET_ORDERS_BEFORE_QUERY@,
        }
    }

    /// The text of the mode's query.
    pub fn sql(&self) -> (r: &'static str)
        ensures
            r@ == self.sql_spec(),
    {
        match self {
            Mode::Initial => GET_ORDERS_QUERY,
            Mode::Forward => GET_ORDERS_AFTER_QUERY,
            Mode::Backward => GET_ORDERS_BEFORE_QUERY,
        }
    }
}

/// A planned list query: its mode, and the bindings `$1 = offset`,
/// `$2 = limit`, and, where there is an anchor, `$3` its creation instant and
/// `$4` its id.
#[derive(Debug)]
pub struct QueryPlan {
    pub mode: Mode,
    pub offset: i64,
    pub limit: i64,
    pub anchor: Option<Token>,
}

/// The two tokens hold the same key.
pub open spec fn same_key(a: Token, b: Token) -> bool {
    a.id@ == b.id@ && a.creation_date == b.creation_date
}

/// The anchor is the given token, or both are absent.
pub open spec fn anchored_at(anchor: Option<Token>, token: Option<Token>) -> bool {
    match (anchor, token) {
        (None, None) => true,
        (Some(a), Some(t)) => same_key(a, t),
        _ => false,
    }
}

fn copy_token(t: &Token) -> (r: Token)
    ensures
        same_key(r, *t),
{
    Token { id: t.id.clone(), creation_date: t.creation_date }
}

/// The mode of a search's query: a next token wins over a previous token;
/// with neither, the first page.
pub open spec fn planned_mode(search: OrderSearch) -> Mode {
    if search.next_token is Some {
        Mode::Forward
    } else if search.previous_token is Some {
        Mode::Backward
    } else {
        Mode::Initial
    }
}

/// The token that anchors a search's query, if any.
pub open spec fn planned_token(search: OrderSearch) -> Option<Token> {
    if search.next_token is Some {
        search.next_token
    } else {
        search.previous_token
    }
}

/// Plans the query of a search. A next token wins over a previous token; with
/// neither, the first page is asked for.
pub fn plan(search: &OrderSearch) -> (r: QueryPlan)
    ensures
        r.mode == planned_mode(*search),
        anchored_at(r.anchor, planned_token(*search)),
        r.offset == search.offset as i64,
        r.limit == search.limit as i64,
{
    let offset = search.offset as i64;
    let limit = search.limit as i64;
    match &search.next_token {
        Some(token) => QueryPlan { mode: Mode::Forward, offset, limit, anchor: Some(copy_token(token)) },
        None => match &search.previous_token {
            Some(token) => QueryPlan {
                mode: Mode::Backward,
                offset,
                limit,
                anchor: Some(copy_token(token)),
            },
            None => QueryPlan { mode: Mode::Initial, offset, limit, anchor: None },
        },
    }
}

} // verus!
