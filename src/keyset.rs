//! What a list query returns from the table, and the laws of the pages built
//! from it. The table is a sequence of orders; ids are compared under the
//! database's collation, passed as `id_lt`.
use crate::models::{Order, OrderSearch, Token};
use crate::pages::page_orders;
use crate::planner::{planned_mode, planned_token, Mode};
use vstd::prelude::*;
use vstd::relations::{irreflexive, transitive};

verus! {

/// The sort key `(creation instant, id)` of an order.
pub open spec fn order_key(o: Order) -> ((int, int), Seq<char>) {
    (o.creation_date.pair(), o.id@)
}

/// The sort key that a token carries.
pub open spec fn token_key(t: Token) -> ((int, int), Seq<char>) {
    (t.creation_date.pair(), t.id@)
}

/// The key of the anchoring token, if any.
pub open spec fn anchor_key(t: Option<Token>) -> Option<((int, int), Seq<char>)> {
    match t {
        Some(t) => Some(token_key(t)),
        None => None,
    }
}

/// `a` sorts strictly before `b`: an earlier instant, or the same instant
/// and a smaller id.
pub open spec fn key_lt(
    a: ((int, int), Seq<char>),
    b: ((int, int), Seq<char>),
    id_lt: spec_fn(Seq<char>, Seq<char>) -> bool,
) -> bool {
    ||| a.0.0 < b.0.0
    ||| (a.0.0 == b.0.0 && a.0.1 < b.0.1)
    ||| (a.0 == b.0 && id_lt(a.1, b.1))
}

/// The order passes the query's `where` clause.
pub open spec fn admits(
    mode: Mode,
    anchor: Option<((int, int), Seq<char>)>,
    o: Order,
    id_lt: spec_fn(Seq<char>, Seq<char>) -> bool,
) -> bool {
    match (mode, anchor) {
        (Mode::Initial, _) => true,
        (Mode::Forward, Some(a)) => key_lt(order_key(o), a, id_lt),
        (Mode::Backward, Some(a)) => key_lt(a, order_key(o), id_lt),
        _ => false,
    }
}

/// `a` comes before `b` under the query's `order by`: newest first, but
/// oldest first above an anchor.
pub open spec fn precedes(
    mode: Mode,
    a: Order,
    b: Order,
    id_lt: spec_fn(Seq<char>, Seq<char>) -> bool,
) -> bool {
    if mode == Mode::Backward {
        key_lt(order_key(a), order_key(b), id_lt)
    } else {
        key_lt(order_key(b), order_key(a), id_lt)
    }
}

/// The orders of the table that pass the query's `where` clause.
pub open spec fn candidates(
    table: Seq<Order>,
    mode: Mode,
    anchor: Option<((int, int), Seq<char>)>,
    id_lt: spec_fn(Seq<char>, Seq<char>) -> bool,
) -> Seq<Order> {
    table.filter(admitted_by(mode, anchor, id_lt))
}

/// The query's `where` clause as a predicate.
pub open spec fn admitted_by(
    mode: Mode,
    anchor: Option<((int, int), Seq<char>)>,
    id_lt: spec_fn(Seq<char>, Seq<char>) -> bool,
) -> spec_fn(Order) -> bool {
    |o: Order| admits(mode, anchor, o, id_lt)
}

/// Comes before `o` in the query's order, as a predicate.
pub open spec fn before_in(
    mode: Mode,
    o: Order,
    id_lt: spec_fn(Seq<char>, Seq<char>) -> bool,
) -> spec_fn(Order) -> bool {
    |x: Order| precedes(mode, x, o, id_lt)
}

/// How many candidates come before `o` in the query's order.
pub open spec fn rank(
    table: Seq<Order>,
    mode: Mode,
    anchor: Option<((int, int), Seq<char>)>,
    o: Order,
    id_lt: spec_fn(Seq<char>, Seq<char>) -> bool,
) -> int {
    candidates(table, mode, anchor, id_lt).filter(before_in(mode, o, id_lt)).len() as int
}

/// `rows` is what the query returns from the table: the candidates in the
/// query's order, skipping the first `offset` and keeping at most `limit`.
pub open spec fn is_query_result(
    table: Seq<Order>,
    mode: Mode,
    anchor: Option<((int, int), Seq<char>)>,
    offset: int,
    limit: int,
    rows: Seq<Order>,
    id_lt: spec_fn(Seq<char>, Seq<char>) -> bool,
) -> bool {
    let n = candidates(table, mode, anchor, id_lt).len() - offset;
    &&& forall|i: int, j: int|
        0 <= i < j < rows.len() ==> precedes(mode, #[trigger] rows[i], #[trigger] rows[j], id_lt)
    &&& forall|i: int|
        0 <= i < rows.len() ==> table.contains(#[trigger] rows[i]) && admits(
            mode,
            anchor,
            rows[i],
            id_lt,
        )
    &&& forall|i: int|
        0 <= i < rows.len() ==> rank(table, mode, anchor, #[trigger] rows[i], id_lt) == offset + i
    &&& rows.len() == (if n <= 0 {
        0
    } else if n < limit {
        n
    } else {
        limit
    })
}

/// What the database returns for the search's query.
pub open spec fn is_search_result(
    table: Seq<Order>,
    search: OrderSearch,
    rows: Seq<Order>,
    id_lt: spec_fn(Seq<char>, Seq<char>) -> bool,
) -> bool {
    is_query_result(
        table,
        planned_mode(search),
        anchor_key(planned_token(search)),
        search.offset as int,
        search.limit as int,
        rows,
        id_lt,
    )
}

/// Each order sorts strictly after the next one.
pub open spec fn strictly_descending(
    s: Seq<Order>,
    id_lt: spec_fn(Seq<char>, Seq<char>) -> bool,
) -> bool {
    forall|i: int, j: int|
        0 <= i < j < s.len() ==> key_lt(order_key(#[trigger] s[j]), order_key(#[trigger] s[i]), id_lt)
}

/// No two orders of the table share an id.
pub open spec fn unique_ids(table: Seq<Order>) -> bool {
    forall|i: int, j: int|
        0 <= i < table.len() && 0 <= j < table.len() && (#[trigger] table[i]).id@ == (
        #[trigger] table[j]).id@ ==> i == j
}

/// The database's collation orders ids strictly.
pub open spec fn is_collation(id_lt: spec_fn(Seq<char>, Seq<char>) -> bool) -> bool {
    irreflexive(id_lt) && transitive(id_lt)
}

/// Within any page, the orders sort strictly newest first: the page above an
/// anchor, read oldest first, is turned round.
pub proof fn lemma_page_descending(
    table: Seq<Order>,
    search: OrderSearch,
    rows: Seq<Order>,
    id_lt: spec_fn(Seq<char>, Seq<char>) -> bool,
)
    requires
        is_search_result(table, search, rows, id_lt),
    ensures
        strictly_descending(page_orders(rows, planned_mode(search)), id_lt),
{
    let mode = planned_mode(search);
    let page = page_orders(rows, mode);
    let n = rows.len();
    if mode == Mode::Backward {
        assert forall|i: int, j: int| 0 <= i < j < page.len() implies key_lt(
            order_key(#[trigger] page[j]),
            order_key(#[trigger] page[i]),
            id_lt,
        ) by {
            assert(page[i] == rows[n - 1 - i]);
            assert(page[j] == rows[n - 1 - j]);
            assert(precedes(mode, rows[n - 1 - j], rows[n - 1 - i], id_lt));
        }
    } else {
        assert forall|i: int, j: int| 0 <= i < j < page.len() implies key_lt(
            order_key(#[trigger] page[j]),
            order_key(#[trigger] page[i]),
            id_lt,
        ) by {
            assert(precedes(mode, rows[i], rows[j], id_lt));
        }
    }
}

/// Following a next token gives exactly the table's orders strictly below
/// the token's key, newest first, skipping `offset` of them and keeping at
/// most `limit`.
pub proof fn lemma_next_token_page(
    table: Seq<Order>,
    search: OrderSearch,
    rows: Seq<Order>,
    id_lt: spec_fn(Seq<char>, Seq<char>) -> bool,
)
    requires
        search.next_token is Some,
        is_search_result(table, search, rows, id_lt),
    ensures
        is_query_result(
            table,
            Mode::Forward,
            Some(token_key(search.next_token->Some_0)),
            search.offset as int,
            search.limit as int,
            page_orders(rows, planned_mode(search)),
            id_lt,
        ),
{
}

/// `a` sorts strictly before `c` where `a` sorts before `b` and `b` before `c`.
pub proof fn lemma_key_lt_transitive(
    a: ((int, int), Seq<char>),
    b: ((int, int), Seq<char>),
    c: ((int, int), Seq<char>),
    id_lt: spec_fn(Seq<char>, Seq<char>) -> bool,
)
    requires
        is_collation(id_lt),
        key_lt(a, b, id_lt),
        key_lt(b, c, id_lt),
    ensures
        key_lt(a, c, id_lt),
{
    if a.0 == b.0 && b.0 == c.0 {
        assert(id_lt(a.1, b.1) && id_lt(b.1, c.1));
    }
}

/// No key sorts strictly before itself.
pub proof fn lemma_key_lt_irreflexive(
    a: ((int, int), Seq<char>),
    id_lt: spec_fn(Seq<char>, Seq<char>) -> bool,
)
    requires
        is_collation(id_lt),
    ensures
        !key_lt(a, a, id_lt),
{
    assert(!id_lt(a.1, a.1));
}

/// A walk by next tokens: the first page answers a search, and each later
/// page is a page below the last order of the page before it, at the offset
/// and limit that its request named.
pub open spec fn is_next_walk(
    table: Seq<Order>,
    first_search: OrderSearch,
    first_rows: Seq<Order>,
    offsets: Seq<int>,
    limits: Seq<int>,
    pages: Seq<Seq<Order>>,
    id_lt: spec_fn(Seq<char>, Seq<char>) -> bool,
) -> bool {
    &&& pages.len() > 0
    &&& offsets.len() == pages.len()
    &&& limits.len() == pages.len()
    &&& is_search_result(table, first_search, first_rows, id_lt)
    &&& pages[0] == page_orders(first_rows, planned_mode(first_search))
    &&& forall|k: int|
        0 < k < pages.len() ==> pages[k - 1].len() > 0 && is_query_result(
            table,
            Mode::Forward,
            Some(order_key(pages[k - 1].last())),
            offsets[k],
            limits[k],
            #[trigger] pages[k],
            id_lt,
        )
}

proof fn lemma_walk_page(
    table: Seq<Order>,
    first_search: OrderSearch,
    first_rows: Seq<Order>,
    offsets: Seq<int>,
    limits: Seq<int>,
    pages: Seq<Seq<Order>>,
    id_lt: spec_fn(Seq<char>, Seq<char>) -> bool,
    k: int,
)
    requires
        is_next_walk(table, first_search, first_rows, offsets, limits, pages, id_lt),
        0 <= k < pages.len(),
    ensures
        strictly_descending(pages[k], id_lt),
        forall|i: int| 0 <= i < pages[k].len() ==> table.contains(#[trigger] pages[k][i]),
{
    if k == 0 {
        lemma_page_descending(table, first_search, first_rows, id_lt);
        let n = first_rows.len();
        assert forall|i: int| 0 <= i < pages[k].len() implies table.contains(
            #[trigger] pages[k][i],
        ) by {
            if planned_mode(first_search) == Mode::Backward {
                assert(pages[k][i] == first_rows[n - 1 - i]);
            } else {
                assert(pages[k][i] == first_rows[i]);
            }
        }
    } else {
        let page = pages[k];
        assert forall|i: int, j: int| 0 <= i < j < page.len() implies key_lt(
            order_key(#[trigger] page[j]),
            order_key(#[trigger] page[i]),
            id_lt,
        ) by {
            assert(precedes(Mode::Forward, page[i], page[j], id_lt));
        }
    }
}

proof fn lemma_walk_later_below(
    table: Seq<Order>,
    first_search: OrderSearch,
    first_rows: Seq<Order>,
    offsets: Seq<int>,
    limits: Seq<int>,
    pages: Seq<Seq<Order>>,
    id_lt: spec_fn(Seq<char>, Seq<char>) -> bool,
    k1: int,
    k2: int,
    i: int,
    j: int,
)
    requires
        is_collation(id_lt),
        is_next_walk(table, first_search, first_rows, offsets, limits, pages, id_lt),
        0 <= k1 < k2 < pages.len(),
        0 <= i < pages[k1].len(),
        0 <= j < pages[k2].len(),
    ensures
        key_lt(order_key(pages[k2][j]), order_key(pages[k1][i]), id_lt),
    decreases k2 - k1,
{
    let prev = pages[k2 - 1];
    let last = prev.last();
    assert(0 < k2 < pages.len());
    assert(is_query_result(table, Mode::Forward, Some(order_key(last)), offsets[k2], limits[k2], pages[k2], id_lt));
    assert(admits(Mode::Forward, Some(order_key(last)), pages[k2][j], id_lt));
    if k2 - 1 == k1 {
        if i < prev.len() - 1 {
            lemma_walk_page(table, first_search, first_rows, offsets, limits, pages, id_lt, k1);
            assert(key_lt(order_key(prev[prev.len() - 1]), order_key(prev[i]), id_lt));
            lemma_key_lt_transitive(order_key(pages[k2][j]), order_key(last), order_key(prev[i]), id_lt);
        }
    } else {
        lemma_walk_later_below(table, first_search, first_rows, offsets, limits, pages, id_lt, k1, k2 - 1, i, prev.len() - 1);
        lemma_key_lt_transitive(order_key(pages[k2][j]), order_key(last), order_key(pages[k1][i]), id_lt);
    }
}

/// Over a walk by next tokens, no id comes twice: every order sorts strictly
/// below all that came before it, and the table has one order per id.
pub proof fn lemma_walk_no_duplicates(
    table: Seq<Order>,
    first_search: OrderSearch,
    first_rows: Seq<Order>,
    offsets: Seq<int>,
    limits: Seq<int>,
    pages: Seq<Seq<Order>>,
    id_lt: spec_fn(Seq<char>, Seq<char>) -> bool,
)
    requires
        is_collation(id_lt),
        unique_ids(table),
        is_next_walk(table, first_search, first_rows, offsets, limits, pages, id_lt),
    ensures
        forall|k1: int, i: int, k2: int, j: int|
            0 <= k1 < pages.len() && 0 <= k2 < pages.len() && 0 <= i < pages[k1].len() && 0 <= j
                < pages[k2].len() && (k1 != k2 || i != j) ==> (#[trigger] pages[k1][i]).id@ != (
            #[trigger] pages[k2][j]).id@,
{
    assert forall|k1: int, i: int, k2: int, j: int|
        0 <= k1 < pages.len() && 0 <= k2 < pages.len() && 0 <= i < pages[k1].len() && 0 <= j
            < pages[k2].len() && (k1 != k2 || i != j) implies (#[trigger] pages[k1][i]).id@ != (
        #[trigger] pages[k2][j]).id@ by {
        let x = pages[k1][i];
        let y = pages[k2][j];
        if x.id@ == y.id@ {
            lemma_walk_page(table, first_search, first_rows, offsets, limits, pages, id_lt, k1);
            lemma_walk_page(table, first_search, first_rows, offsets, limits, pages, id_lt, k2);
            assert(table.contains(x));
            assert(table.contains(y));
            let a = choose|a: int| 0 <= a < table.len() && table[a] == x;
            let b = choose|b: int| 0 <= b < table.len() && table[b] == y;
            assert(a == b);
            lemma_key_lt_irreflexive(order_key(x), id_lt);
            if k1 < k2 {
                lemma_walk_later_below(table, first_search, first_rows, offsets, limits, pages, id_lt, k1, k2, i, j);
            } else if k2 < k1 {
                lemma_walk_later_below(table, first_search, first_rows, offsets, limits, pages, id_lt, k2, k1, j, i);
            } else if i < j {
                assert(key_lt(order_key(pages[k1][j]), order_key(pages[k1][i]), id_lt));
            } else {
                assert(key_lt(order_key(pages[k1][i]), order_key(pages[k1][j]), id_lt));
            }
        }
    }
}

} // verus!
