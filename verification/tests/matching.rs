use reburn::routes::{NameMatch, RouteItem};

fn lit(s: &str) -> NameMatch {
    NameMatch::Literal(s.to_string())
}

fn neg(s: &str) -> NameMatch {
    NameMatch::NegatedLiteral(s.to_string())
}

#[test]
fn test_matches() {
    assert!(RouteItem::AnySubRoute.matches("anything i want"));
    let pattern = RouteItem::Name(vec![lit("sm"), NameMatch::Any, lit("t")]);
    assert!(pattern.matches("smt"));
    assert!(pattern.matches("sm t"));
    assert!(pattern.matches("sm__t"));
    assert!(!pattern.matches("sm__t_"));
    assert!(!pattern.matches("_sm__t"));
    let pattern = RouteItem::Name(vec![NameMatch::Any, lit("smt"), NameMatch::Any]);
    assert!(pattern.matches("smt"));
    assert!(pattern.matches("_smt"));
    assert!(pattern.matches("smt_"));
    assert!(!pattern.matches("sm"));
    assert!(!pattern.matches("mt"));
    let pattern = RouteItem::Name(vec![NameMatch::Any, neg("_gen")]);
    assert!(pattern.matches("afile"));
    assert!(pattern.matches("afile_other"));
    assert!(!pattern.matches("afile_gen"));
    assert!(!pattern.matches("afile_gen_other"));
    let pattern = RouteItem::Name(vec![NameMatch::Any, neg("_gen"), lit(".rs")]);
    assert!(pattern.matches("afile.rs"));
    assert!(pattern.matches("afile_other.rs"));
    assert!(!pattern.matches("afile_gen.rs"));
    assert!(!pattern.matches("afile"));
    assert!(!pattern.matches("afile_other"));
    let pattern = RouteItem::Name(vec![neg("private_"), NameMatch::Any]);
    assert!(pattern.matches("afile.rs"));
    assert!(pattern.matches("afile_other.rs"));
    assert!(pattern.matches("anything"));
    assert!(pattern.matches("priv_smt"));
    assert!(!pattern.matches("private_anything"));
    assert!(!pattern.matches("private_"));
    let pattern = RouteItem::Name(vec![neg("private_"), lit("file")]);
    assert!(pattern.matches("file"));
    // makes no sense to use a negated without a wildcard
    assert!(!pattern.matches("private_file"));
    assert!(!pattern.matches("anything_file"));
    let pattern = RouteItem::Name(vec![NameMatch::Any, neg("avoid"), lit("_"), NameMatch::Any]);
    assert!(pattern.matches("_avoid"));
    assert!(pattern.matches("_avoid_smt"));
    assert!(!pattern.matches("avoid_"));
    assert!(!pattern.matches("avoid"));
}

#[test]
fn negate_fragments() {
    assert_eq!(lit("a").negate(), Ok(neg("a")));
    assert_eq!(neg("a").negate(), Ok(lit("a")));
    assert_eq!(NameMatch::Any.negate(), Err("Can not negate any"));
}

#[test]
fn is_name_compares_fragments() {
    let item = RouteItem::Name(vec![lit(".")]);
    assert!(item.is_name(&[lit(".")]));
    assert!(!item.is_name(&[lit("..")]));
    assert!(!item.is_name(&[lit("."), lit(".")]));
    assert!(!RouteItem::AnySubRoute.is_name(&[lit(".")]));
}

#[test]
fn matches_multibyte_names() {
    let pattern = RouteItem::Name(vec![NameMatch::Any, lit("\u{e9}.rs")]);
    assert!(pattern.matches("caf\u{e9}.rs"));
    assert!(!pattern.matches("cafe.rs"));
}

#[test]
fn matches_empty_cases() {
    // no fragments accept only the empty segment
    let pattern = RouteItem::Name(vec![]);
    assert!(pattern.matches(""));
    assert!(!pattern.matches("x"));
    // a bare wildcard accepts anything
    let pattern = RouteItem::Name(vec![NameMatch::Any]);
    assert!(pattern.matches(""));
    assert!(pattern.matches("anything"));
}
