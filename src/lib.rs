//! Keyset pagination over a table of orders: the token codec, the query
//! planner and the assembly of a page from the rows that a query returns,
//! with the laws of the pages proved over a model of the table.
pub mod timestamp;
pub mod models;
pub mod token;
pub mod planner;
pub mod pages;
pub mod counting;
pub mod keyset;
pub mod duality;
