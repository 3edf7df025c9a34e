//! Going back from the page after a page gives that page again.
use crate::counting::{
    lemma_filter_filter_len, lemma_filter_len_eq, lemma_filter_len_le, lemma_filter_len_lt,
    lemma_filter_len_one, lemma_filter_len_split,
};
use crate::keyset::{
    admits, admitted_by, before_in, is_collation, is_query_result, key_lt,
    lemma_key_lt_irreflexive, lemma_key_lt_transitive, order_key, precedes, rank, unique_ids,
};
use crate::models::Order;
use crate::pages::{page_orders, reversed};
use crate::planner::Mode;
use vstd::prelude::*;
use vstd::relations::connected;

verus! {

/// The collation orders any two different ids.
pub open spec fn is_total_collation(id_lt: spec_fn(Seq<char>, Seq<char>) -> bool) -> bool {
    is_collation(id_lt) && connected(id_lt)
}

/// Passes the query's `where` clause and comes before `o` in its order.
pub open spec fn admitted_before(
    mode: Mode,
    anchor: Option<((int, int), Seq<char>)>,
    o: Order,
    id_lt: spec_fn(Seq<char>, Seq<char>) -> bool,
) -> spec_fn(Order) -> bool {
    |z: Order| admits(mode, anchor, z, id_lt) && precedes(mode, z, o, id_lt)
}

/// Two keys that neither sorts before the other are equal.
pub proof fn lemma_key_lt_total(
    a: ((int, int), Seq<char>),
    b: ((int, int), Seq<char>),
    id_lt: spec_fn(Seq<char>, Seq<char>) -> bool,
)
    requires
        is_total_collation(id_lt),
        !key_lt(a, b, id_lt),
        !key_lt(b, a, id_lt),
    ensures
        a == b,
{
    assert(a.0 == b.0);
    if a.1 != b.1 {
        assert(id_lt(a.1, b.1) || id_lt(b.1, a.1));
    }
}

/// A rank counts the table's orders that the query admits before `o`.
pub proof fn lemma_rank_len(
    table: Seq<Order>,
    mode: Mode,
    anchor: Option<((int, int), Seq<char>)>,
    o: Order,
    id_lt: spec_fn(Seq<char>, Seq<char>) -> bool,
)
    ensures
        rank(table, mode, anchor, o, id_lt) == table.filter(
            admitted_before(mode, anchor, o, id_lt),
        ).len(),
{
    lemma_filter_filter_len(
        table,
        admitted_by(mode, anchor, id_lt),
        before_in(mode, o, id_lt),
        admitted_before(mode, anchor, o, id_lt),
    );
}

/// Orders of a table with unique ids that share a key are the same order.
pub proof fn lemma_same_key_same_order(table: Seq<Order>, x: Order, y: Order)
    requires
        unique_ids(table),
        table.contains(x),
        table.contains(y),
        order_key(x) == order_key(y),
    ensures
        x == y,
{
    let a = choose|a: int| 0 <= a < table.len() && table[a] == x;
    let b = choose|b: int| 0 <= b < table.len() && table[b] == y;
    assert(table[a].id@ == table[b].id@);
}

/// Admitted by the query and sorting above the key `k`, as a predicate.
pub open spec fn admitted_above(
    mode: Mode,
    anchor: Option<((int, int), Seq<char>)>,
    k: ((int, int), Seq<char>),
    id_lt: spec_fn(Seq<char>, Seq<char>) -> bool,
) -> spec_fn(Order) -> bool {
    |z: Order| admits(mode, anchor, z, id_lt) && key_lt(k, order_key(z), id_lt)
}

/// Counted around one of them, `x`, the orders that a newest-first query
/// admits above the key `k` are those before `x`, `x` itself, and those
/// between `k` and `x`.
proof fn lemma_count_around(
    table: Seq<Order>,
    mode: Mode,
    anchor: Option<((int, int), Seq<char>)>,
    k: ((int, int), Seq<char>),
    x: Order,
    id_lt: spec_fn(Seq<char>, Seq<char>) -> bool,
)
    requires
        is_total_collation(id_lt),
        unique_ids(table),
        table.contains(x),
        mode != Mode::Backward,
        admits(mode, anchor, x, id_lt),
        key_lt(k, order_key(x), id_lt),
    ensures
        table.filter(admitted_above(mode, anchor, k, id_lt)).len() == rank(
            table,
            mode,
            anchor,
            x,
            id_lt,
        ) + 1 + rank(table, Mode::Backward, Some(k), x, id_lt),
{
    let kx = order_key(x);
    let r = admitted_above(mode, anchor, k, id_lt);
    let p1 = admitted_before(mode, anchor, x, id_lt);
    let p23 = |z: Order|
        admits(mode, anchor, z, id_lt) && key_lt(k, order_key(z), id_lt) && !key_lt(
            kx,
            order_key(z),
            id_lt,
        );
    let p2 = |z: Order| order_key(z) == kx;
    let p3 = admitted_before(Mode::Backward, Some(k), x, id_lt);
    lemma_key_lt_irreflexive(kx, id_lt);
    assert forall|i: int| 0 <= i < table.len() implies (r(#[trigger] table[i]) == (p1(table[i])
        || p23(table[i]))) && !(p1(table[i]) && p23(table[i])) by {
        let kz = order_key(table[i]);
        if key_lt(kx, kz, id_lt) {
            lemma_key_lt_transitive(k, kx, kz, id_lt);
        }
    }
    lemma_filter_len_split(table, p1, p23, r);
    assert forall|i: int| 0 <= i < table.len() implies (p23(#[trigger] table[i]) == (p2(table[i])
        || p3(table[i]))) && !(p2(table[i]) && p3(table[i])) by {
        let z = table[i];
        let kz = order_key(z);
        if p3(z) {
            if let Some(a) = anchor {
                if mode == Mode::Forward {
                    lemma_key_lt_transitive(kz, kx, a, id_lt);
                }
            }
            if key_lt(kx, kz, id_lt) {
                lemma_key_lt_transitive(kx, kz, kx, id_lt);
            }
        }
        if p23(z) && !key_lt(kz, kx, id_lt) {
            lemma_key_lt_total(kz, kx, id_lt);
        }
    }
    lemma_filter_len_split(table, p2, p3, p23);
    let ix = choose|ix: int| 0 <= ix < table.len() && table[ix] == x;
    assert forall|i: int| 0 <= i < table.len() && p2(#[trigger] table[i]) implies i == ix by {
        assert(table[i].id@ == table[ix].id@);
    }
    lemma_filter_len_one(table, p2, ix);
    lemma_rank_len(table, mode, anchor, x, id_lt);
    lemma_rank_len(table, Mode::Backward, Some(k), x, id_lt);
}

/// Two orders above the key `k` that the same number of orders lie between
/// `k` and sort equal.
proof fn lemma_equal_backward_rank(
    table: Seq<Order>,
    k: ((int, int), Seq<char>),
    x: Order,
    y: Order,
    id_lt: spec_fn(Seq<char>, Seq<char>) -> bool,
)
    requires
        is_total_collation(id_lt),
        table.contains(x),
        table.contains(y),
        key_lt(k, order_key(x), id_lt),
        key_lt(k, order_key(y), id_lt),
        rank(table, Mode::Backward, Some(k), x, id_lt) == rank(
            table,
            Mode::Backward,
            Some(k),
            y,
            id_lt,
        ),
    ensures
        order_key(x) == order_key(y),
{
    lemma_rank_len(table, Mode::Backward, Some(k), x, id_lt);
    lemma_rank_len(table, Mode::Backward, Some(k), y, id_lt);
    lemma_strictly_fewer_below(table, k, x, y, id_lt);
    lemma_strictly_fewer_below(table, k, y, x, id_lt);
    if !key_lt(order_key(x), order_key(y), id_lt) && !key_lt(order_key(y), order_key(x), id_lt) {
        lemma_key_lt_total(order_key(x), order_key(y), id_lt);
    }
}

/// Between `k` and a lower order lie fewer orders than between `k` and a
/// higher one.
proof fn lemma_strictly_fewer_below(
    table: Seq<Order>,
    k: ((int, int), Seq<char>),
    x: Order,
    y: Order,
    id_lt: spec_fn(Seq<char>, Seq<char>) -> bool,
)
    requires
        is_total_collation(id_lt),
        table.contains(x),
        key_lt(k, order_key(x), id_lt),
    ensures
        key_lt(order_key(x), order_key(y), id_lt) ==> table.filter(
            admitted_before(Mode::Backward, Some(k), x, id_lt),
        ).len() < table.filter(admitted_before(Mode::Backward, Some(k), y, id_lt)).len(),
{
    if key_lt(order_key(x), order_key(y), id_lt) {
        let p = admitted_before(Mode::Backward, Some(k), x, id_lt);
        let q = admitted_before(Mode::Backward, Some(k), y, id_lt);
        assert forall|i: int| 0 <= i < table.len() && p(#[trigger] table[i]) implies q(
            table[i],
        ) by {
            lemma_key_lt_transitive(order_key(table[i]), order_key(x), order_key(y), id_lt);
        }
        let ix = choose|ix: int| 0 <= ix < table.len() && table[ix] == x;
        lemma_key_lt_irreflexive(order_key(x), id_lt);
        lemma_filter_len_lt(table, p, q, ix);
    }
}

/// The law below, for a first page read newest first.
proof fn lemma_previous_of_next_newest_first(
    table: Seq<Order>,
    mode: Mode,
    anchor: Option<((int, int), Seq<char>)>,
    limit: int,
    page: Seq<Order>,
    next_limit: int,
    next: Seq<Order>,
    back: Seq<Order>,
    id_lt: spec_fn(Seq<char>, Seq<char>) -> bool,
)
    requires
        is_total_collation(id_lt),
        unique_ids(table),
        mode != Mode::Backward,
        is_query_result(table, mode, anchor, 0, limit, page, id_lt),
        page.len() > 0,
        is_query_result(
            table,
            Mode::Forward,
            Some(order_key(page.last())),
            0,
            next_limit,
            next,
            id_lt,
        ),
        next.len() > 0,
        is_query_result(table, Mode::Backward, Some(order_key(next[0])), 0, limit, back, id_lt),
    ensures
        page_orders(back, Mode::Backward) == page,
{
    let n = page.len() as int;
    let last = page[n - 1];
    let kl = order_key(last);
    let q = next[0];
    let kq = order_key(q);
    assert(table.contains(q) && admits(Mode::Forward, Some(kl), q, id_lt));
    assert(table.contains(last) && admits(mode, anchor, last, id_lt));
    assert(rank(table, Mode::Forward, Some(kl), q, id_lt) == 0);
    lemma_rank_len(table, Mode::Forward, Some(kl), q, id_lt);
    lemma_rank_len(table, Mode::Backward, Some(kq), last, id_lt);
    lemma_filter_len_eq(
        table,
        admitted_before(Mode::Forward, Some(kl), q, id_lt),
        admitted_before(Mode::Backward, Some(kq), last, id_lt),
    );
    let big_n = table.filter(admitted_above(mode, anchor, kq, id_lt)).len() as int;
    assert(rank(table, mode, anchor, last, id_lt) == n - 1);
    lemma_count_around(table, mode, anchor, kq, last, id_lt);
    assert(big_n == n);
    // every order of the page lies above `q`, with n - 1 - j orders between
    assert forall|j: int| 0 <= j < n implies key_lt(kq, order_key(#[trigger] page[j]), id_lt)
        && table.contains(page[j]) && rank(table, Mode::Backward, Some(kq), page[j], id_lt) == n
        - 1 - j by {
        if j < n - 1 {
            assert(precedes(mode, page[j], last, id_lt));
            lemma_key_lt_transitive(kq, kl, order_key(page[j]), id_lt);
        }
        assert(rank(table, mode, anchor, page[j], id_lt) == j);
        lemma_count_around(table, mode, anchor, kq, page[j], id_lt);
    }
    // the first page is full: q passes its query too
    let iq = choose|iq: int| 0 <= iq < table.len() && table[iq] == q;
    if let Some(a) = anchor {
        if mode == Mode::Forward {
            lemma_key_lt_transitive(kq, kl, a, id_lt);
        }
    }
    lemma_key_lt_irreflexive(kq, id_lt);
    lemma_filter_len_lt(table, admitted_above(mode, anchor, kq, id_lt), admitted_by(mode, anchor, id_lt), iq);
    assert(n == limit);
    // the page before q has as many orders
    lemma_filter_len_le(table, admitted_above(mode, anchor, kq, id_lt), admitted_by(Mode::Backward, Some(kq), id_lt));
    assert(back.len() == n);
    let flipped = page_orders(back, Mode::Backward);
    assert forall|j: int| 0 <= j < n implies #[trigger] flipped[j] == page[j] by {
        let y = back[n - 1 - j];
        assert(flipped[j] == y);
        assert(table.contains(y) && admits(Mode::Backward, Some(kq), y, id_lt));
        assert(rank(table, Mode::Backward, Some(kq), y, id_lt) == n - 1 - j);
        lemma_equal_backward_rank(table, kq, y, page[j], id_lt);
        lemma_same_key_same_order(table, y, page[j]);
    }
    assert(flipped =~= page);
}

/// The law below, for a first page read oldest first above an anchor and
/// turned round: the orders above the first order of the next page are those
/// above that anchor.
proof fn lemma_previous_of_next_oldest_first(
    table: Seq<Order>,
    anchor: Option<((int, int), Seq<char>)>,
    limit: int,
    rows: Seq<Order>,
    next_limit: int,
    next: Seq<Order>,
    back: Seq<Order>,
    id_lt: spec_fn(Seq<char>, Seq<char>) -> bool,
)
    requires
        is_total_collation(id_lt),
        unique_ids(table),
        is_query_result(table, Mode::Backward, anchor, 0, limit, rows, id_lt),
        rows.len() > 0,
        is_query_result(
            table,
            Mode::Forward,
            Some(order_key(page_orders(rows, Mode::Backward).last())),
            0,
            next_limit,
            next,
            id_lt,
        ),
        next.len() > 0,
        is_query_result(table, Mode::Backward, Some(order_key(next[0])), 0, limit, back, id_lt),
    ensures
        back == rows,
{
    let first = rows[0];
    assert(page_orders(rows, Mode::Backward).last() == first);
    let kl = order_key(first);
    let q = next[0];
    let kq = order_key(q);
    assert(admits(Mode::Backward, anchor, first, id_lt));
    let kb = anchor->Some_0;
    assert(key_lt(kb, kl, id_lt));
    assert(admits(Mode::Forward, Some(kl), q, id_lt));
    assert(rank(table, Mode::Forward, Some(kl), q, id_lt) == 0);
    assert(rank(table, Mode::Backward, anchor, first, id_lt) == 0);
    lemma_rank_len(table, Mode::Forward, Some(kl), q, id_lt);
    lemma_rank_len(table, Mode::Backward, anchor, first, id_lt);
    let below_first = admitted_before(Mode::Backward, anchor, first, id_lt);
    let between = admitted_before(Mode::Forward, Some(kl), q, id_lt);
    // above q and above the anchor are the same orders of the table
    assert forall|i: int| 0 <= i < table.len() implies key_lt(
        kq,
        order_key(#[trigger] table[i]),
        id_lt,
    ) == key_lt(kb, order_key(table[i]), id_lt) by {
        let kz = order_key(table[i]);
        if key_lt(kz, kl, id_lt) {
            if key_lt(kb, kz, id_lt) {
                table.lemma_filter_contains(below_first, i);
            }
            if key_lt(kq, kz, id_lt) {
                table.lemma_filter_contains(between, i);
            }
        } else {
            if kz != kl {
                if !key_lt(kl, kz, id_lt) {
                    lemma_key_lt_total(kz, kl, id_lt);
                }
                lemma_key_lt_transitive(kq, kl, kz, id_lt);
                lemma_key_lt_transitive(kb, kl, kz, id_lt);
            }
        }
    }
    lemma_filter_len_eq(
        table,
        admitted_by(Mode::Backward, Some(kq), id_lt),
        admitted_by(Mode::Backward, anchor, id_lt),
    );
    assert(back.len() == rows.len());
    assert forall|i: int| 0 <= i < rows.len() implies #[trigger] back[i] == rows[i] by {
        let x = rows[i];
        assert(table.contains(x) && admits(Mode::Backward, anchor, x, id_lt));
        assert(rank(table, Mode::Backward, anchor, x, id_lt) == i);
        assert(table.contains(back[i]) && admits(Mode::Backward, Some(kq), back[i], id_lt));
        assert(rank(table, Mode::Backward, Some(kq), back[i], id_lt) == i);
        lemma_rank_len(table, Mode::Backward, anchor, x, id_lt);
        lemma_rank_len(table, Mode::Backward, Some(kq), x, id_lt);
        lemma_filter_len_eq(
            table,
            admitted_before(Mode::Backward, Some(kq), x, id_lt),
            admitted_before(Mode::Backward, anchor, x, id_lt),
        );
        let ix = choose|ix: int| 0 <= ix < table.len() && table[ix] == x;
        assert(key_lt(kq, order_key(table[ix]), id_lt));
        lemma_equal_backward_rank(table, kq, back[i], x, id_lt);
        lemma_same_key_same_order(table, back[i], x);
    }
    assert(back =~= rows);
}

/// Backward and forward agree: where a page was read from its start and the
/// page after it, read from its start too, is not empty, the page before the
/// first order of that next page, read from its start with the first page's
/// limit, is the first page again.
pub proof fn lemma_previous_of_next_page(
    table: Seq<Order>,
    mode: Mode,
    anchor: Option<((int, int), Seq<char>)>,
    limit: int,
    rows: Seq<Order>,
    next_limit: int,
    next: Seq<Order>,
    back: Seq<Order>,
    id_lt: spec_fn(Seq<char>, Seq<char>) -> bool,
)
    requires
        is_total_collation(id_lt),
        unique_ids(table),
        is_query_result(table, mode, anchor, 0, limit, rows, id_lt),
        rows.len() > 0,
        is_query_result(
            table,
            Mode::Forward,
            Some(order_key(page_orders(rows, mode).last())),
            0,
            next_limit,
            next,
            id_lt,
        ),
        next.len() > 0,
        is_query_result(table, Mode::Backward, Some(order_key(next[0])), 0, limit, back, id_lt),
    ensures
        page_orders(back, Mode::Backward) == page_orders(rows, mode),
{
    if mode == Mode::Backward {
        lemma_previous_of_next_oldest_first(table, anchor, limit, rows, next_limit, next, back, id_lt);
    } else {
        lemma_previous_of_next_newest_first(table, mode, anchor, limit, rows, next_limit, next, back, id_lt);
    }
}

} // verus!
