use std::rc::Rc;

use reburn::parse_selector;
use reburn::reduce::{recursive_join, route_combine};
use reburn::routes::{NameMatch, RouteItem};
use reburn::selector::Selector;

fn lit(s: &str) -> NameMatch {
    NameMatch::Literal(s.to_string())
}

fn neg(s: &str) -> NameMatch {
    NameMatch::NegatedLiteral(s.to_string())
}

#[test]
fn expand_brace_concat() {
    // a/b{c,d} denotes exactly the two routes a/bc and a/bd
    let sel = parse_selector("a/b{c,d}").unwrap();
    let routes = recursive_join(&sel).unwrap();
    assert_eq!(
        routes,
        vec![
            vec![
                RouteItem::Name(vec![lit("a")]),
                RouteItem::Name(vec![lit("b"), lit("c")]),
            ],
            vec![
                RouteItem::Name(vec![lit("a")]),
                RouteItem::Name(vec![lit("b"), lit("d")]),
            ],
        ]
    );
}

#[test]
fn expand_deep_wildcard() {
    // **/* denotes one route: a depth wildcard, then a one-segment wildcard
    let sel = parse_selector("**/*").unwrap();
    let routes = recursive_join(&sel).unwrap();
    assert_eq!(
        routes,
        vec![vec![
            RouteItem::AnySubRoute,
            RouteItem::Name(vec![NameMatch::Any]),
        ]]
    );
}

#[test]
fn expand_negated_option() {
    // each alternative of a negated group reduces independently
    let sel = parse_selector("!{a,b}").unwrap();
    let routes = recursive_join(&sel).unwrap();
    assert_eq!(
        routes,
        vec![
            vec![RouteItem::Name(vec![neg("a")])],
            vec![RouteItem::Name(vec![neg("b")])],
        ]
    );
}

#[test]
fn expand_negated_concat_fails() {
    // a negated segment of two fragments cannot be negated
    let sel = Selector::Not(Rc::new(Selector::Concat(vec![
        Selector::Word("a".to_string()),
        Selector::WildCard,
    ])));
    assert_eq!(recursive_join(&sel), Err("Only literals can be negated"));
    let parsed = parse_selector("!{a*}").unwrap();
    assert_eq!(recursive_join(&parsed), Err("Only literals can be negated"));
}

#[test]
fn expand_negated_wildcard_fails() {
    let sel = parse_selector("!*").unwrap();
    assert_eq!(recursive_join(&sel), Err("Can not negate any"));
}

#[test]
fn expand_concat_with_depth_wildcard_fails() {
    let sel = parse_selector("a**").unwrap();
    assert_eq!(recursive_join(&sel), Err("Trying to concat with **"));
}

#[test]
fn combine_empty_routes_fails() {
    assert_eq!(route_combine(&[], &[]), Err("Empty concat"));
    assert_eq!(
        route_combine(&[RouteItem::AnySubRoute], &[RouteItem::Name(vec![lit("a")])]),
        Err("Trying to concat with **")
    );
}

#[test]
fn expand_empty_group_fails() {
    assert_eq!(
        recursive_join(&Selector::Option(vec![])),
        Err("Empty group")
    );
    assert_eq!(recursive_join(&Selector::Route(vec![])), Err("Empty group"));
    assert_eq!(recursive_join(&Selector::Concat(vec![])), Err("Empty group"));
}

#[test]
fn expand_word_and_wildcards() {
    let routes = recursive_join(&parse_selector("a").unwrap()).unwrap();
    assert_eq!(routes, vec![vec![RouteItem::Name(vec![lit("a")])]]);
    let routes = recursive_join(&parse_selector("*").unwrap()).unwrap();
    assert_eq!(routes, vec![vec![RouteItem::Name(vec![NameMatch::Any])]]);
    let routes = recursive_join(&parse_selector("**").unwrap()).unwrap();
    assert_eq!(routes, vec![vec![RouteItem::AnySubRoute]]);
}

#[test]
fn expand_option_union() {
    // {ab,cd}/c: the cross product distributes the tail over both heads
    let sel = parse_selector("{ab,cd}/c").unwrap();
    let routes = recursive_join(&sel).unwrap();
    assert_eq!(
        routes,
        vec![
            vec![
                RouteItem::Name(vec![lit("ab")]),
                RouteItem::Name(vec![lit("c")]),
            ],
            vec![
                RouteItem::Name(vec![lit("cd")]),
                RouteItem::Name(vec![lit("c")]),
            ],
        ]
    );
}
