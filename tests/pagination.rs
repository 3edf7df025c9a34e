use order_pages::models::{Error, Order, OrderSearch, Token};
use order_pages::pages::{
    all_orders_encodable, assemble_page, order_from_rows, DEFAULT_LIMIT, DEFAULT_OFFSET,
};
use order_pages::planner::{
    plan, Mode, GET_ORDERS_AFTER_QUERY, GET_ORDERS_BEFORE_QUERY, GET_ORDERS_QUERY,
};
use order_pages::timestamp::Timestamp;

const A_SECS: i64 = 1705314600;

fn at(secs: i64) -> Timestamp {
    Timestamp { secs, nanos: 0 }
}

fn order(id: &str, secs: i64) -> Order {
    Order { id: id.to_string(), creation_date: at(secs), update_date: at(secs + 3600) }
}

/// The seed table: A to E, one minute apart, A earliest.
fn seed(id: &str) -> Order {
    let k = "ABCDE".find(id).unwrap() as i64;
    order(id, A_SECS + 60 * k)
}

fn encoded(id: &str) -> String {
    Token::from_order(&seed(id)).encode()
}

fn token(id: &str) -> Token {
    Token::decode(&encoded(id)).unwrap()
}

fn search(previous: Option<&str>, next: Option<&str>, offset: i32, limit: i32) -> OrderSearch {
    OrderSearch {
        previous_token: previous.map(token),
        next_token: next.map(token),
        offset,
        limit,
    }
}

fn ids(orders: &[Order]) -> Vec<String> {
    orders.iter().map(|o| o.id.clone()).collect()
}

#[test]
fn encode_writes_id_hash_and_rfc3339() {
    assert_eq!(encoded("A"), "A#2024-01-15T10:30:00+00:00");
    let t = Token { id: "ord_42".to_string(), creation_date: at(A_SECS) };
    assert_eq!(t.encode(), "ord_42#2024-01-15T10:30:00+00:00");
}

#[test]
fn encode_writes_subseconds() {
    let t = Token {
        id: "x".to_string(),
        creation_date: Timestamp { secs: A_SECS, nanos: 500_000_000 },
    };
    assert_eq!(t.encode(), "x#2024-01-15T10:30:00.500+00:00");
}

#[test]
fn decode_reads_example_token() {
    let t = Token::decode("ord_42#2024-01-15T10:30:00+00:00").unwrap();
    assert_eq!(t.id, "ord_42");
    assert_eq!(t.creation_date, at(A_SECS));
}

#[test]
fn decode_of_encode_gives_the_key_back() {
    let dates = [
        Timestamp { secs: A_SECS, nanos: 0 },
        Timestamp { secs: A_SECS, nanos: 123_456_789 },
        Timestamp { secs: 0, nanos: 1_000 },
        Timestamp { secs: -62167219200, nanos: 0 },
        Timestamp { secs: 253402300799, nanos: 999_999_999 },
    ];
    for d in dates {
        let t = Token { id: "ord_7".to_string(), creation_date: d };
        let back = Token::decode(&t.encode()).unwrap();
        assert_eq!(back.id, "ord_7");
        assert_eq!(back.creation_date, d);
    }
}

#[test]
fn decode_converts_offset_to_utc() {
    let t = Token::decode("B#2024-01-15T12:30:00+02:00").unwrap();
    assert_eq!(t.id, "B");
    assert_eq!(t.creation_date, at(A_SECS));
}

#[test]
fn decode_keeps_every_character_but_hash_in_id() {
    let id = " !\"$%&'()*+,-./09:;<=>?@AZ[\\]^_`az{|}~\tä€";
    let t = Token { id: id.to_string(), creation_date: at(A_SECS) };
    let back = Token::decode(&t.encode()).unwrap();
    assert_eq!(back.id, id);
    assert_eq!(back.creation_date, at(A_SECS));
}

#[test]
fn decode_splits_at_first_hash() {
    match Token::decode("a#b#2024-01-15T10:30:00+00:00") {
        Err(Error::ChonoParse(_)) => {}
        other => panic!("unexpected {:?}", other),
    }
}

#[test]
fn decode_without_hash_is_parse_error() {
    match Token::decode("not-a-token") {
        Err(e @ Error::Parse(_)) => {
            if let Error::Parse(m) = &e {
                assert_eq!(m, "invalid token : not-a-token");
            }
            assert_eq!(e.status_and_body(), (400, "unable to parse"));
        }
        other => panic!("unexpected {:?}", other),
    }
}

#[test]
fn decode_bad_timestamp_is_chrono_error() {
    match Token::decode("A#yesterday") {
        Err(e @ Error::ChonoParse(_)) => {
            assert_eq!(e.status_and_body(), (400, "unable to parse"));
        }
        other => panic!("unexpected {:?}", other),
    }
}

#[test]
fn error_statuses_and_bodies() {
    assert_eq!(Error::Pool.status_and_body(), (500, "pool error"));
    assert_eq!(Error::NotFound.status_and_body(), (404, "not found"));
    assert_eq!(Error::Parse(String::new()).status_and_body(), (400, "unable to parse"));
}

#[test]
fn plan_without_tokens_is_initial() {
    let p = plan(&search(None, None, 3, 7));
    assert_eq!(p.mode, Mode::Initial);
    assert!(p.anchor.is_none());
    assert_eq!((p.offset, p.limit), (3, 7));
    assert_eq!(p.mode.sql(), GET_ORDERS_QUERY);
}

#[test]
fn plan_with_next_token_is_forward() {
    let p = plan(&search(None, Some("D"), 0, 2));
    assert_eq!(p.mode, Mode::Forward);
    let a = p.anchor.unwrap();
    assert_eq!(a.id, "D");
    assert_eq!(a.creation_date, at(A_SECS + 180));
    assert!(p.mode.sql().contains("(creation_date, id) < ($3, $4)"));
    assert_eq!(p.mode.sql(), GET_ORDERS_AFTER_QUERY);
}

#[test]
fn plan_with_previous_token_is_backward() {
    let p = plan(&search(Some("C"), None, 0, 2));
    assert_eq!(p.mode, Mode::Backward);
    assert_eq!(p.anchor.unwrap().id, "C");
    assert!(p.mode.sql().contains("order by creation_date asc, id asc"));
    assert_eq!(p.mode.sql(), GET_ORDERS_BEFORE_QUERY);
}

#[test]
fn plan_next_token_wins_over_previous() {
    let p = plan(&search(Some("C"), Some("B"), 0, 2));
    assert_eq!(p.mode, Mode::Forward);
    assert_eq!(p.anchor.unwrap().id, "B");
}

#[test]
fn from_params_defaults() {
    let s = OrderSearch::from_params(None, None, None, None).unwrap();
    assert!(s.previous_token.is_none() && s.next_token.is_none());
    assert_eq!((s.offset, s.limit), (DEFAULT_OFFSET, DEFAULT_LIMIT));
    assert_eq!((s.offset, s.limit), (0, 10));
}

#[test]
fn from_params_decodes_tokens() {
    let s = OrderSearch::from_params(Some(encoded("C")), Some(encoded("D")), Some(4), Some(2))
        .unwrap();
    assert_eq!(s.previous_token.unwrap().id, "C");
    assert_eq!(s.next_token.unwrap().creation_date, at(A_SECS + 180));
    assert_eq!((s.offset, s.limit), (4, 2));
}

#[test]
fn from_params_rejects_bad_token() {
    let r = OrderSearch::from_params(None, Some("not-a-token".to_string()), None, None);
    match r {
        Err(e) => assert_eq!(e.status_and_body(), (400, "unable to parse")),
        Ok(_) => panic!("accepted a bad token"),
    }
    let r = OrderSearch::from_params(Some("x#bad".to_string()), None, None, None);
    assert!(matches!(r, Err(Error::ChonoParse(_))));
}

#[test]
fn first_page_of_two() {
    // GET /orders?limit=2: the database returns E, D.
    let p = plan(&search(None, None, 0, 2));
    let page = assemble_page(vec![seed("E"), seed("D")], p.mode);
    assert_eq!(ids(&page.orders), ["E", "D"]);
    assert_eq!(page.previous_token, Some(encoded("E")));
    assert_eq!(page.next_token, Some(encoded("D")));
}

#[test]
fn second_page_after_d() {
    let p = plan(&search(None, Some("D"), 0, 2));
    let page = assemble_page(vec![seed("C"), seed("B")], p.mode);
    assert_eq!(ids(&page.orders), ["C", "B"]);
    assert_eq!(page.previous_token, Some(encoded("C")));
    assert_eq!(page.next_token, Some(encoded("B")));
}

#[test]
fn short_last_page_still_has_next_token() {
    let p = plan(&search(None, Some("B"), 0, 2));
    let page = assemble_page(vec![seed("A")], p.mode);
    assert_eq!(ids(&page.orders), ["A"]);
    assert_eq!(page.previous_token, Some(encoded("A")));
    assert_eq!(page.next_token, Some(encoded("A")));
}

#[test]
fn page_after_last_is_empty_without_tokens() {
    let p = plan(&search(None, Some("A"), 0, 2));
    let page = assemble_page(vec![], p.mode);
    assert!(page.orders.is_empty());
    assert_eq!(page.previous_token, None);
    assert_eq!(page.next_token, None);
}

#[test]
fn offset_past_the_table_gives_empty_page() {
    let p = plan(&search(None, None, 9, 2));
    let page = assemble_page(vec![], p.mode);
    assert!(page.orders.is_empty() && page.previous_token.is_none() && page.next_token.is_none());
}

#[test]
fn page_before_c_is_turned_round() {
    // GET /orders?previous_token=Encode(C)&limit=2: the database returns D, E.
    let p = plan(&search(Some("C"), None, 0, 2));
    let page = assemble_page(vec![seed("D"), seed("E")], p.mode);
    assert_eq!(ids(&page.orders), ["E", "D"]);
    assert_eq!(page.previous_token, Some(encoded("E")));
    assert_eq!(page.next_token, Some(encoded("D")));
}

#[test]
fn limit_one_page() {
    let p = plan(&search(None, Some("C"), 0, 1));
    let page = assemble_page(vec![seed("B")], p.mode);
    assert_eq!(ids(&page.orders), ["B"]);
    assert_eq!(page.previous_token, page.next_token);
}

#[test]
fn equal_instants_backward_page_descends_by_id() {
    // Above the anchor (t, "b") the database returns (t, "c"), (t, "d") in ascending order.
    let t = A_SECS;
    let p = plan(&OrderSearch {
        previous_token: Some(Token { id: "b".to_string(), creation_date: at(t) }),
        next_token: None,
        offset: 0,
        limit: 2,
    });
    let page = assemble_page(vec![order("c", t), order("d", t)], p.mode);
    assert_eq!(ids(&page.orders), ["d", "c"]);
    assert_eq!(page.next_token.unwrap(), "c#2024-01-15T10:30:00+00:00");
}

#[test]
fn walk_by_next_tokens_repeats_no_id() {
    let pages = [vec!["E", "D"], vec!["C", "B"], vec!["A"], vec![]];
    let mut seen: Vec<String> = Vec::new();
    let mut next: Option<String> = None;
    for rows in pages {
        let s = OrderSearch::from_params(None, next.clone(), None, Some(2)).unwrap();
        let p = plan(&s);
        if let Some(a) = &p.anchor {
            // the database returns only orders below the anchor
            for id in &rows {
                assert!(seed(id).creation_date.secs < a.creation_date.secs);
            }
        }
        let page = assemble_page(rows.iter().map(|id| seed(id)).collect(), p.mode);
        for o in &page.orders {
            assert!(!seen.contains(&o.id));
            seen.push(o.id.clone());
        }
        next = page.next_token;
    }
    assert_eq!(seen, ["E", "D", "C", "B", "A"]);
    assert_eq!(next, None);
}

#[test]
fn order_by_id_found_and_missing() {
    let found = order_from_rows(vec![seed("C")]).unwrap();
    assert_eq!(found.id, "C");
    match order_from_rows(vec![]) {
        Err(e @ Error::NotFound) => assert_eq!(e.status_and_body(), (404, "not found")),
        other => panic!("unexpected {:?}", other),
    }
}

#[test]
fn encodable_instants_are_years_zero_to_9999() {
    assert!(at(-62167219200).is_encodable());
    assert!(!at(-62167219201).is_encodable());
    assert!(at(253402300799).is_encodable());
    assert!(!at(253402300800).is_encodable());
    assert!(!Timestamp { secs: A_SECS, nanos: 1_000_000_000 }.is_encodable());
    assert!(all_orders_encodable(&vec![seed("A"), seed("B")]));
    assert!(!all_orders_encodable(&vec![seed("A"), order("Z", 253402300800)]));
    assert!(all_orders_encodable(&vec![]));
}
