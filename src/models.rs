//! The orders, the navigation tokens, the search request, the page and the
//! errors of the service.
use crate::timestamp::Timestamp;
use tokio_postgres::Error as PgError;
use vstd::prelude::*;

verus! {

/// A failure reported by the database driver.
#[verifier::external_type_specification]
#[verifier::external_body]
pub struct ExDbError(PgError);

/// The failures of the service.
#[derive(Debug)]
pub enum Error {
    /// The query failed in the database.
    DB(PgError),
    /// No connection could be taken from the pool.
    Pool,
    /// The instant in a token is not RFC 3339.
    ChonoParse(chrono::ParseError),
    /// A token without the `#` separator; holds the token's text.
    Parse(String),
    /// No order has the requested id.
    NotFound,
}

pub type Result<T> = core::result::Result<T, Error>;

pub type OrderId = String;

/// A row of the order table.
#[derive(Debug)]
pub struct Order {
    pub id: OrderId,
    pub creation_date: Timestamp,
    pub update_date: Timestamp,
}

/// A navigation cursor: the sort key `(creation_date, id)` of an order.
#[derive(Debug)]
pub struct Token {
    pub id: String,
    pub creation_date: Timestamp,
}

/// A request for a page of orders.
#[derive(Debug)]
pub struct OrderSearch {
    pub previous_token: Option<Token>,
    pub next_token: Option<Token>,
    pub offset: i32,
    pub limit: i32,
}

/// A page of orders with the tokens that lead to its neighbours.
#[derive(Debug)]
pub struct Orders {
    pub orders: Vec<Order>,
    pub previous_token: Option<String>,
    pub next_token: Option<String>,
}

/// The body `"db error"`.
pub const DB_ERROR_BODY: &'static str = "db error";

/// The body `"pool error"`.
pub const POOL_ERROR_BODY: &'static str = "pool error";

/// The body `"unable to parse"`.
pub const PARSE_ERROR_BODY: &'static str = "unable to parse";

/// The body `"not found"`.
pub const NOT_FOUND_BODY: &'static str = "not found";

impl Error {
    /// The HTTP status that reports this error.
    pub open spec fn status_spec(&self) -> u16 {
        match self {
            Error::DB(_) => 500,
            Error::Pool => 500,
            Error::ChonoParse(_) => 400,
            Error::Parse(_) => 400,
            Error::NotFound => 404,
        }
    }

    /// The short body that reports this error.
    pub open spec fn body_spec(&self) -> Seq<char> {
        match self {
            Error::DB(_) => DB_ERROR_BODY@,
            Error::Pool => POOL_ERROR_BODY@,
            Error::ChonoParse(_) => PARSE_ERROR_BODY@,
            Error::Parse(_) => PARSE_ERROR_BODY@,
            Error::NotFound => NOT_FOUND_BODY@,
        }
    }

    /// The HTTP status and the body with which the error is answered.
    pub fn status_and_body(&self) -> (r: (u16, &'static str))
        ensures
            r.0 == self.status_spec(),
            r.1@ == self.body_spec(),
    {
        match self {
            Error::DB(_) => (500, DB_ERROR_BODY),
            Error::Pool => (500, POOL_ERROR_BODY),
            Error::ChonoParse(_) => (400, PARSE_ERROR_BODY),
            Error::Parse(_) => (400, PARSE_ERROR_BODY),
            Error::NotFound => (404, NOT_FOUND_BODY),
        }
    }
}

} // verus!
