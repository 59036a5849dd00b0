//! Route reducer: expands a selector tree into the disjoint set of
//! concrete routes it denotes.
//!
//! Alternation becomes union, path concatenation becomes the cross
//! product of the parts' route sets, same-segment concatenation
//! additionally merges the touching segment matchers, and negation
//! toggles a single literal matcher.

use vstd::prelude::*;
use crate::selector::{Selector, SelectorV, spec_view_selector};
use crate::routes::{NameMatch, NameMatchV, Route, RouteItem, RouteItemV, spec_negate_match};

verus! {

pub open spec fn msg_empty_group() -> Seq<char> {
    "Empty group"@
}

pub open spec fn msg_concat_wildcard() -> Seq<char> {
    "Trying to concat with **"@
}

pub open spec fn msg_empty_concat() -> Seq<char> {
    "Empty concat"@
}

pub open spec fn msg_only_literals() -> Seq<char> {
    "Only literals can be negated"@
}

/// A route in the model: a sequence of route-item models.
pub type RouteV = Seq<RouteItemV>;

/// How two routes combine in a cross product: one after the other for a
/// path boundary, or merging the touching segment matchers for a
/// same-segment boundary.
#[derive(Clone, Copy, Debug)]
pub enum JoinKind {
    Sequence,
    Merge,
}

/// Negating one route: only a route of exactly one `Name` with exactly
/// one fragment can be negated, by toggling that fragment.
pub open spec fn spec_negate_route(r: RouteV) -> Result<RouteV, Seq<char>> {
    if r.len() == 1 && (r[0] matches RouteItemV::Name(n) && n.len() == 1) {
        match spec_negate_match(r[0]->Name_0[0]) {
            Ok(m) => Ok(seq![RouteItemV::Name(seq![m])]),
            Err(e) => Err(e),
        }
    } else {
        Err(msg_only_literals())
    }
}

/// Merging two routes across a same-segment boundary: the last `Name` of
/// `a` and the first `Name` of `b` fuse into one `Name` holding both
/// fragment lists; a depth wildcard at the boundary, or an empty side,
/// is an error.
pub open spec fn spec_route_combine(a: RouteV, b: RouteV) -> Result<RouteV, Seq<char>> {
    if (a.len() > 0 && a.last() is AnySubRoute) || (b.len() > 0 && b[0] is AnySubRoute) {
        Err(msg_concat_wildcard())
    } else if a.len() == 0 || b.len() == 0 {
        Err(msg_empty_concat())
    } else {
        Ok(
            a.drop_last() + seq![RouteItemV::Name(a.last()->Name_0 + b[0]->Name_0)]
                + b.drop_first(),
        )
    }
}

/// One combine step of the cross product.
pub open spec fn spec_combine(kind: JoinKind, a: RouteV, b: RouteV) -> Result<RouteV, Seq<char>> {
    match kind {
        JoinKind::Sequence => Ok(a + b),
        JoinKind::Merge => spec_route_combine(a, b),
    }
}

/// One row of the cross product: `a` combined with each route of `bs` in
/// order, stopping at the first error.
pub open spec fn spec_cross_row(kind: JoinKind, a: RouteV, bs: Seq<RouteV>) -> Result<
    Seq<RouteV>,
    Seq<char>,
>
    decreases bs.len(),
{
    if bs.len() == 0 {
        Ok(Seq::empty())
    } else {
        match spec_combine(kind, a, bs[0]) {
            Err(e) => Err(e),
            Ok(r) => match spec_cross_row(kind, a, bs.drop_first()) {
                Err(e) => Err(e),
                Ok(rest) => Ok(seq![r] + rest),
            },
        }
    }
}

/// The cross product of two route sets, row by row, stopping at the
/// first error.
pub open spec fn spec_cross(kind: JoinKind, aa: Seq<RouteV>, bs: Seq<RouteV>) -> Result<
    Seq<RouteV>,
    Seq<char>,
>
    decreases aa.len(),
{
    if aa.len() == 0 {
        Ok(Seq::empty())
    } else {
        match spec_cross_row(kind, aa[0], bs) {
            Err(e) => Err(e),
            Ok(row) => match spec_cross(kind, aa.drop_first(), bs) {
                Err(e) => Err(e),
                Ok(rest) => Ok(row + rest),
            },
        }
    }
}

/// Folding the cross product left to right across the children's route
/// sets.
pub open spec fn spec_reduce_fold(kind: JoinKind, sets: Seq<Seq<RouteV>>) -> Result<
    Seq<RouteV>,
    Seq<char>,
>
    decreases sets.len(),
{
    if sets.len() == 0 {
        Ok(Seq::empty())
    } else if sets.len() == 1 {
        Ok(sets[0])
    } else {
        match spec_reduce_fold(kind, sets.drop_last()) {
            Err(e) => Err(e),
            Ok(acc) => spec_cross(kind, acc, sets.last()),
        }
    }
}

/// The union of the children's route sets, in order.
pub open spec fn spec_flatten_sets(sets: Seq<Seq<RouteV>>) -> Seq<RouteV>
    decreases sets.len(),
{
    if sets.len() == 0 {
        Seq::empty()
    } else {
        sets[0] + spec_flatten_sets(sets.drop_first())
    }
}

/// Negating every route of a set independently, stopping at the first
/// error.
pub open spec fn spec_negate_all(rs: Seq<RouteV>) -> Result<Seq<RouteV>, Seq<char>>
    decreases rs.len(),
{
    if rs.len() == 0 {
        Ok(Seq::empty())
    } else {
        match spec_negate_route(rs[0]) {
            Err(e) => Err(e),
            Ok(r) => match spec_negate_all(rs.drop_first()) {
                Err(e) => Err(e),
                Ok(rest) => Ok(seq![r] + rest),
            },
        }
    }
}

/// The route set a selector denotes — or the first reduction error.
pub open spec fn spec_reduce(s: SelectorV) -> Result<Seq<RouteV>, Seq<char>>
    decreases s,
    via spec_reduce_decreases
{
    match s {
        SelectorV::Option(v) => if v.len() == 0 {
            Err(msg_empty_group())
        } else {
            match spec_reduce_many(v) {
                Err(e) => Err(e),
                Ok(sets) => Ok(spec_flatten_sets(sets)),
            }
        },
        SelectorV::Route(v) => if v.len() == 0 {
            Err(msg_empty_group())
        } else {
            match spec_reduce_many(v) {
                Err(e) => Err(e),
                Ok(sets) => spec_reduce_fold(JoinKind::Sequence, sets),
            }
        },
        SelectorV::Concat(v) => if v.len() == 0 {
            Err(msg_empty_group())
        } else {
            match spec_reduce_many(v) {
                Err(e) => Err(e),
                Ok(sets) => spec_reduce_fold(JoinKind::Merge, sets),
            }
        },
        SelectorV::Not(inner) => match spec_reduce(*inner) {
            Err(e) => Err(e),
            Ok(rs) => spec_negate_all(rs),
        },
        SelectorV::WildCard => Ok(seq![seq![RouteItemV::Name(seq![NameMatchV::Any])]]),
        SelectorV::WildCardDepth => Ok(seq![seq![RouteItemV::AnySubRoute]]),
        SelectorV::Word(n) => Ok(seq![seq![RouteItemV::Name(seq![NameMatchV::Literal(n)])]]),
    }
}

/// The route sets of a sequence of selectors, in order, stopping at the
/// first error.
pub open spec fn spec_reduce_many(v: Seq<SelectorV>) -> Result<Seq<Seq<RouteV>>, Seq<char>>
    decreases v,
    via spec_reduce_many_decreases
{
    if v.len() == 0 {
        Ok(Seq::empty())
    } else {
        match spec_reduce(v[0]) {
            Err(e) => Err(e),
            Ok(rs) => match spec_reduce_many(v.drop_first()) {
                Err(e) => Err(e),
                Ok(rest) => Ok(seq![rs] + rest),
            },
        }
    }
}

#[via_fn]
proof fn spec_reduce_decreases(s: SelectorV) {
    match s {
        SelectorV::Option(v) => {
            assert(decreases_to!(s => v));
        },
        SelectorV::Route(v) => {
            assert(decreases_to!(s => v));
        },
        SelectorV::Concat(v) => {
            assert(decreases_to!(s => v));
        },
        _ => {},
    }
}

#[via_fn]
proof fn spec_reduce_many_decreases(v: Seq<SelectorV>) {
    if v.len() != 0 {
        assert(decreases_to!(v => v[0]));
        assert(v.drop_first() == v.subrange(1, v.len() as int));
        assert(decreases_to!(v => v.subrange(1, v.len() as int)));
    }
}


/// Copies one fragment.
fn clone_name_match(m: &NameMatch) -> (r: NameMatch)
    ensures
        r.deep_view() == m.deep_view(),
{
    match m {
        NameMatch::Literal(s) => NameMatch::Literal(s.clone()),
        NameMatch::NegatedLiteral(s) => NameMatch::NegatedLiteral(s.clone()),
        NameMatch::Any => NameMatch::Any,
    }
}

/// Copies a fragment list.
fn clone_name_matches(v: &Vec<NameMatch>) -> (r: Vec<NameMatch>)
    ensures
        r.deep_view() == v.deep_view(),
{
    let mut r: Vec<NameMatch> = Vec::new();
    let mut i: usize = 0;
    while i < v.len()
        invariant
            i <= v@.len(),
            r@.len() == i,
            forall|j: int| 0 <= j < i ==> r@[j].deep_view() == v@[j].deep_view(),
        decreases v@.len() - i,
    {
        r.push(clone_name_match(&v[i]));
        i += 1;
    }
    proof {
        assert(r.deep_view() =~= v.deep_view());
    }
    r
}

/// Copies one route item.
fn clone_route_item(it: &RouteItem) -> (r: RouteItem)
    ensures
        r.deep_view() == it.deep_view(),
{
    match it {
        RouteItem::Name(v) => RouteItem::Name(clone_name_matches(v)),
        RouteItem::AnySubRoute => RouteItem::AnySubRoute,
    }
}

/// Copies a route.
fn clone_route(v: &Route) -> (r: Route)
    ensures
        r.deep_view() == v.deep_view(),
{
    let mut r: Route = Vec::new();
    let mut i: usize = 0;
    while i < v.len()
        invariant
            i <= v@.len(),
            r@.len() == i,
            forall|j: int| 0 <= j < i ==> r@[j].deep_view() == v@[j].deep_view(),
        decreases v@.len() - i,
    {
        r.push(clone_route_item(&v[i]));
        i += 1;
    }
    proof {
        assert(r.deep_view() =~= v.deep_view());
    }
    r
}

/// Copies a route set.
fn clone_routes(v: &Vec<Route>) -> (r: Vec<Route>)
    ensures
        r.deep_view() == v.deep_view(),
{
    let mut r: Vec<Route> = Vec::new();
    let mut i: usize = 0;
    while i < v.len()
        invariant
            i <= v@.len(),
            r@.len() == i,
            forall|j: int| 0 <= j < i ==> r@[j].deep_view() == v@[j].deep_view(),
        decreases v@.len() - i,
    {
        r.push(clone_route(&v[i]));
        i += 1;
    }
    proof {
        assert(r.deep_view() =~= v.deep_view());
    }
    r
}

/// Negates one route, as [`spec_negate_route`] states: only a route of
/// exactly one `Name` holding exactly one fragment.
pub fn negate(v: Route) -> (r: Result<Route, &'static str>)
    ensures
        ({
            let spec = spec_negate_route(v.deep_view());
            match r {
                Ok(rt) => spec is Ok && rt.deep_view() == spec->Ok_0,
                Err(e) => spec is Err && e@ == spec->Err_0,
            }
        }),
{
    if v.len() == 1 {
        if let RouteItem::Name(n) = &v[0] {
            if n.len() == 1 {
                let m = clone_name_match(&n[0]);
                proof {
                    assert(v.deep_view()[0] == v@[0].deep_view());
                    assert(n.deep_view()[0] == n@[0].deep_view());
                }
                match m.negate() {
                    Ok(m2) => {
                        let ghost m2v = m2.deep_view();
                        let mut inner: Vec<NameMatch> = Vec::new();
                        inner.push(m2);
                        proof {
                            assert(inner.deep_view() =~= seq![m2v]);
                        }
                        let ghost innerv = inner.deep_view();
                        let mut out: Route = Vec::new();
                        out.push(RouteItem::Name(inner));
                        proof {
                            assert(out.deep_view() =~= seq![RouteItemV::Name(innerv)]);
                        }
                        return Ok(out);
                    },
                    Err(e) => {
                        return Err(e);
                    },
                }
            }
        }
    }
    proof {
        if v@.len() == 1 {
            assert(v.deep_view()[0] == v@[0].deep_view());
        }
    }
    Err("Only literals can be negated")
}

/// Merges two routes across a same-segment boundary, as
/// [`spec_route_combine`] states.
pub fn route_combine(a: &[RouteItem], b: &[RouteItem]) -> (r: Result<Route, &'static str>)
    ensures
        ({
            let spec = spec_route_combine(a.deep_view(), b.deep_view());
            match r {
                Ok(rt) => spec is Ok && rt.deep_view() == spec->Ok_0,
                Err(e) => spec is Err && e@ == spec->Err_0,
            }
        }),
{
    let alen = a.len();
    let blen = b.len();
    if alen > 0 && a[alen - 1].omittable() {
        return Err("Trying to concat with **");
    }
    if blen > 0 && b[0].omittable() {
        return Err("Trying to concat with **");
    }
    if alen == 0 || blen == 0 {
        return Err("Empty concat");
    }
    let mut v: Route = Vec::new();
    let mut i: usize = 0;
    while i < alen - 1
        invariant
            alen == a@.len(),
            1 <= alen,
            i <= alen - 1,
            v@.len() == i,
            forall|j: int| 0 <= j < i ==> v@[j].deep_view() == a@[j].deep_view(),
        decreases alen - i,
    {
        v.push(clone_route_item(&a[i]));
        i += 1;
    }
    let mut merged: Vec<NameMatch> = if let RouteItem::Name(l) = &a[alen - 1] {
        clone_name_matches(l)
    } else {
        proof {
            assert(false);
        }
        vstd::pervasive::unreached()
    };
    let ghost left = merged.deep_view();
    let right: Vec<NameMatch> = if let RouteItem::Name(rl) = &b[0] {
        clone_name_matches(rl)
    } else {
        proof {
            assert(false);
        }
        vstd::pervasive::unreached()
    };
    let mut right = right;
    merged.append(&mut right);
    proof {
        assert(merged.deep_view() =~= left + b@[0].deep_view()->Name_0);
    }
    v.push(RouteItem::Name(merged));
    let mut k: usize = 1;
    while k < blen
        invariant
            alen == a@.len(),
            blen == b@.len(),
            1 <= alen,
            1 <= k <= blen,
            v@.len() == alen - 1 + k,
            forall|j: int| 0 <= j < alen - 1 ==> v@[j].deep_view() == a@[j].deep_view(),
            v@[alen - 1].deep_view() == RouteItemV::Name(
                a@[alen - 1].deep_view()->Name_0 + b@[0].deep_view()->Name_0,
            ),
            forall|j: int|
                alen <= j < alen - 1 + k ==> v@[j].deep_view() == b@[j - alen + 1].deep_view(),
        decreases blen - k,
    {
        v.push(clone_route_item(&b[k]));
        k += 1;
    }
    proof {
        assert(a.deep_view().last() == a@[alen - 1].deep_view());
        assert(b.deep_view()[0] == b@[0].deep_view());
        assert(v.deep_view() =~= a.deep_view().drop_last() + seq![
            RouteItemV::Name(a.deep_view().last()->Name_0 + b.deep_view()[0]->Name_0),
        ] + b.deep_view().drop_first());
    }
    Ok(v)
}


/// An `Ok` route set with `pre` prepended; an error passes through.
pub open spec fn spec_prepend(pre: Seq<RouteV>, r: Result<Seq<RouteV>, Seq<char>>) -> Result<
    Seq<RouteV>,
    Seq<char>,
> {
    match r {
        Ok(s) => Ok(pre + s),
        Err(e) => Err(e),
    }
}

/// An `Ok` sequence of route sets with `pre` prepended; an error passes
/// through.
pub open spec fn spec_prepend_sets(
    pre: Seq<Seq<RouteV>>,
    r: Result<Seq<Seq<RouteV>>, Seq<char>>,
) -> Result<Seq<Seq<RouteV>>, Seq<char>> {
    match r {
        Ok(s) => Ok(pre + s),
        Err(e) => Err(e),
    }
}

/// One combine step of the cross product, by kind.
fn join_routes(kind: JoinKind, a: &Route, b: &Route) -> (r: Result<Route, &'static str>)
    ensures
        ({
            let spec = spec_combine(kind, a.deep_view(), b.deep_view());
            match r {
                Ok(rt) => spec is Ok && rt.deep_view() == spec->Ok_0,
                Err(e) => spec is Err && e@ == spec->Err_0,
            }
        }),
{
    match kind {
        JoinKind::Sequence => {
            let mut v = clone_route(a);
            let mut w = clone_route(b);
            let ghost vv = v.deep_view();
            v.append(&mut w);
            proof {
                assert(v.deep_view() =~= vv + b.deep_view());
            }
            Ok(v)
        },
        JoinKind::Merge => route_combine(a.as_slice(), b.as_slice()),
    }
}

/// One row of the cross product: `a` against every route of `bs`.
fn cross_row(kind: JoinKind, a: &Route, bs: &Vec<Route>) -> (r: Result<Vec<Route>, &'static str>)
    ensures
        ({
            let spec = spec_cross_row(kind, a.deep_view(), bs.deep_view());
            match r {
                Ok(rows) => spec is Ok && rows.deep_view() == spec->Ok_0,
                Err(e) => spec is Err && e@ == spec->Err_0,
            }
        }),
{
    let ghost adv = a.deep_view();
    let ghost bdv = bs.deep_view();
    let mut acc: Vec<Route> = Vec::new();
    proof {
        assert(bdv.skip(0) =~= bdv);
        assert(acc.deep_view() =~= Seq::<RouteV>::empty());
    }
    let mut j: usize = 0;
    while j < bs.len()
        invariant
            adv == a.deep_view(),
            bdv == bs.deep_view(),
            j <= bs@.len(),
            spec_cross_row(kind, adv, bdv) == spec_prepend(
                acc.deep_view(),
                spec_cross_row(kind, adv, bdv.skip(j as int)),
            ),
        decreases bs@.len() - j,
    {
        proof {
            assert(bdv.skip(j as int)[0] == bdv[j as int]);
            assert(bdv[j as int] == bs@[j as int].deep_view());
            assert(bdv.skip(j as int).drop_first() =~= bdv.skip(j + 1 as int));
        }
        let ghost accv = acc.deep_view();
        match join_routes(kind, a, &bs[j]) {
            Err(e) => {
                return Err(e);
            },
            Ok(row) => {
                let ghost rv = row.deep_view();
                acc.push(row);
                proof {
                    assert(acc.deep_view() =~= accv.push(rv));
                    match spec_cross_row(kind, adv, bdv.skip(j + 1 as int)) {
                        Ok(rest) => {
                            assert(accv + (seq![rv] + rest) =~= accv.push(rv) + rest);
                        },
                        Err(_) => {},
                    }
                }
            },
        }
        j += 1;
    }
    proof {
        assert(bdv.skip(bs@.len() as int) =~= Seq::<RouteV>::empty());
        assert(acc.deep_view() + Seq::<RouteV>::empty() =~= acc.deep_view());
    }
    Ok(acc)
}

/// The cross product of two route sets.
fn cross_sets(kind: JoinKind, aa: &Vec<Route>, bs: &Vec<Route>) -> (r: Result<
    Vec<Route>,
    &'static str,
>)
    ensures
        ({
            let spec = spec_cross(kind, aa.deep_view(), bs.deep_view());
            match r {
                Ok(out) => spec is Ok && out.deep_view() == spec->Ok_0,
                Err(e) => spec is Err && e@ == spec->Err_0,
            }
        }),
{
    let ghost adv = aa.deep_view();
    let ghost bdv = bs.deep_view();
    let mut acc: Vec<Route> = Vec::new();
    proof {
        assert(adv.skip(0) =~= adv);
        assert(acc.deep_view() =~= Seq::<RouteV>::empty());
    }
    let mut i: usize = 0;
    while i < aa.len()
        invariant
            adv == aa.deep_view(),
            bdv == bs.deep_view(),
            i <= aa@.len(),
            spec_cross(kind, adv, bdv) == spec_prepend(
                acc.deep_view(),
                spec_cross(kind, adv.skip(i as int), bdv),
            ),
        decreases aa@.len() - i,
    {
        proof {
            assert(adv.skip(i as int)[0] == adv[i as int]);
            assert(adv[i as int] == aa@[i as int].deep_view());
            assert(adv.skip(i as int).drop_first() =~= adv.skip(i + 1 as int));
        }
        let ghost accv = acc.deep_view();
        match cross_row(kind, &aa[i], bs) {
            Err(e) => {
                return Err(e);
            },
            Ok(row) => {
                let ghost rv = row.deep_view();
                let mut row = row;
                acc.append(&mut row);
                proof {
                    assert(acc.deep_view() =~= accv + rv);
                    match spec_cross(kind, adv.skip(i + 1 as int), bdv) {
                        Ok(rest) => {
                            assert(accv + (rv + rest) =~= (accv + rv) + rest);
                        },
                        Err(_) => {},
                    }
                }
            },
        }
        i += 1;
    }
    proof {
        assert(adv.skip(aa@.len() as int) =~= Seq::<RouteV>::empty());
        assert(acc.deep_view() + Seq::<RouteV>::empty() =~= acc.deep_view());
    }
    Ok(acc)
}

/// Once a prefix of the fold has failed, the whole fold fails with the
/// same error.
proof fn lemma_fold_extend_err(kind: JoinKind, sets: Seq<Seq<RouteV>>, i: int, e: Seq<char>)
    requires
        1 <= i <= sets.len(),
        spec_reduce_fold(kind, sets.take(i)) == Err::<Seq<RouteV>, Seq<char>>(e),
    ensures
        spec_reduce_fold(kind, sets) == Err::<Seq<RouteV>, Seq<char>>(e),
    decreases sets.len() - i,
{
    if i == sets.len() {
        assert(sets.take(i) =~= sets);
    } else {
        assert(sets.take(i + 1).drop_last() =~= sets.take(i));
        assert(sets.take(i + 1).len() == i + 1);
        lemma_fold_extend_err(kind, sets, i + 1, e);
    }
}

/// Folds the cross product across the children's route sets, left to
/// right, as [`spec_reduce_fold`] states.
pub fn reduce_routes(routes: Vec<Vec<Route>>, kind: JoinKind) -> (r: Result<
    Vec<Route>,
    &'static str,
>)
    requires
        routes@.len() > 0,
    ensures
        ({
            let spec = spec_reduce_fold(kind, routes.deep_view());
            match r {
                Ok(out) => spec is Ok && out.deep_view() == spec->Ok_0,
                Err(e) => spec is Err && e@ == spec->Err_0,
            }
        }),
{
    let ghost dv = routes.deep_view();
    let mut acc: Vec<Route> = clone_routes(&routes[0]);
    proof {
        assert(dv.take(1).len() == 1);
        assert(dv.take(1)[0] == dv[0]);
        assert(dv[0] == routes@[0].deep_view());
    }
    let mut i: usize = 1;
    while i < routes.len()
        invariant
            dv == routes.deep_view(),
            1 <= i <= routes@.len(),
            spec_reduce_fold(kind, dv.take(i as int)) == Ok::<Seq<RouteV>, Seq<char>>(
                acc.deep_view(),
            ),
        decreases routes@.len() - i,
    {
        proof {
            assert(dv.take(i + 1 as int).drop_last() =~= dv.take(i as int));
            assert(dv.take(i + 1 as int).last() == dv[i as int]);
            assert(dv[i as int] == routes@[i as int].deep_view());
            assert(dv.take(i + 1 as int).len() == i + 1);
        }
        match cross_sets(kind, &acc, &routes[i]) {
            Err(e) => {
                proof {
                    lemma_fold_extend_err(kind, dv, i + 1 as int, e@);
                }
                return Err(e);
            },
            Ok(next) => {
                acc = next;
            },
        }
        i += 1;
    }
    proof {
        assert(dv.take(routes@.len() as int) =~= dv);
    }
    Ok(acc)
}


/// The union of the children's route sets, in order.
fn flatten_sets(sets: &Vec<Vec<Route>>) -> (r: Vec<Route>)
    ensures
        r.deep_view() == spec_flatten_sets(sets.deep_view()),
{
    let ghost dv = sets.deep_view();
    let mut out: Vec<Route> = Vec::new();
    proof {
        assert(dv.skip(0) =~= dv);
        assert(out.deep_view() =~= Seq::<RouteV>::empty());
    }
    let mut i: usize = 0;
    while i < sets.len()
        invariant
            dv == sets.deep_view(),
            i <= sets@.len(),
            spec_flatten_sets(dv) == out.deep_view() + spec_flatten_sets(dv.skip(i as int)),
        decreases sets@.len() - i,
    {
        proof {
            assert(dv.skip(i as int)[0] == dv[i as int]);
            assert(dv[i as int] == sets@[i as int].deep_view());
            assert(dv.skip(i as int).drop_first() =~= dv.skip(i + 1 as int));
        }
        let ghost outv = out.deep_view();
        let mut part = clone_routes(&sets[i]);
        let ghost pv = part.deep_view();
        out.append(&mut part);
        proof {
            assert(out.deep_view() =~= outv + pv);
            assert(outv + (pv + spec_flatten_sets(dv.skip(i + 1 as int))) =~= (outv + pv)
                + spec_flatten_sets(dv.skip(i + 1 as int)));
        }
        i += 1;
    }
    proof {
        assert(dv.skip(sets@.len() as int) =~= Seq::<Seq<RouteV>>::empty());
        assert(out.deep_view() + Seq::<RouteV>::empty() =~= out.deep_view());
    }
    out
}

/// Negates every route of a set independently, as [`spec_negate_all`]
/// states.
fn negate_all(rs: &Vec<Route>) -> (r: Result<Vec<Route>, &'static str>)
    ensures
        ({
            let spec = spec_negate_all(rs.deep_view());
            match r {
                Ok(out) => spec is Ok && out.deep_view() == spec->Ok_0,
                Err(e) => spec is Err && e@ == spec->Err_0,
            }
        }),
{
    let ghost dv = rs.deep_view();
    let mut out: Vec<Route> = Vec::new();
    proof {
        assert(dv.skip(0) =~= dv);
        assert(out.deep_view() =~= Seq::<RouteV>::empty());
    }
    let mut i: usize = 0;
    while i < rs.len()
        invariant
            dv == rs.deep_view(),
            i <= rs@.len(),
            spec_negate_all(dv) == spec_prepend(
                out.deep_view(),
                spec_negate_all(dv.skip(i as int)),
            ),
        decreases rs@.len() - i,
    {
        proof {
            assert(dv.skip(i as int)[0] == dv[i as int]);
            assert(dv[i as int] == rs@[i as int].deep_view());
            assert(dv.skip(i as int).drop_first() =~= dv.skip(i + 1 as int));
        }
        let ghost outv = out.deep_view();
        match negate(clone_route(&rs[i])) {
            Err(e) => {
                return Err(e);
            },
            Ok(n) => {
                let ghost nv = n.deep_view();
                out.push(n);
                proof {
                    assert(out.deep_view() =~= outv.push(nv));
                    match spec_negate_all(dv.skip(i + 1 as int)) {
                        Ok(rest) => {
                            assert(outv + (seq![nv] + rest) =~= outv.push(nv) + rest);
                        },
                        Err(_) => {},
                    }
                }
            },
        }
        i += 1;
    }
    proof {
        assert(dv.skip(rs@.len() as int) =~= Seq::<RouteV>::empty());
        assert(out.deep_view() + Seq::<RouteV>::empty() =~= out.deep_view());
    }
    Ok(out)
}

/// The route sets of each child selector, in order, as
/// [`spec_reduce_many`] states.
pub fn recursive_join_many(v: &Vec<Selector>) -> (r: Result<Vec<Vec<Route>>, &'static str>)
    ensures
        ({
            let spec = spec_reduce_many(crate::selector::spec_view_selectors(v@));
            match r {
                Ok(sets) => spec is Ok && sets.deep_view() == spec->Ok_0,
                Err(e) => spec is Err && e@ == spec->Err_0,
            }
        }),
    decreases v@,
{
    let ghost svs = crate::selector::spec_view_selectors(v@);
    proof {
        crate::selector::lemma_view_selectors(v@);
        assert(svs.skip(0) =~= svs);
    }
    let mut out: Vec<Vec<Route>> = Vec::new();
    proof {
        assert(out.deep_view() =~= Seq::<Seq<RouteV>>::empty());
    }
    let mut i: usize = 0;
    while i < v.len()
        invariant
            svs == crate::selector::spec_view_selectors(v@),
            svs.len() == v@.len(),
            forall|j: int| 0 <= j < v@.len() ==> svs[j] == spec_view_selector(v@[j]),
            i <= v@.len(),
            spec_reduce_many(svs) == spec_prepend_sets(
                out.deep_view(),
                spec_reduce_many(svs.skip(i as int)),
            ),
        decreases v@.len() - i,
    {
        proof {
            assert(svs.skip(i as int)[0] == svs[i as int]);
            assert(svs.skip(i as int).drop_first() =~= svs.skip(i + 1 as int));
            assert(decreases_to!(v@ => v@[i as int]));
        }
        let ghost outv = out.deep_view();
        match recursive_join(&v[i]) {
            Err(e) => {
                return Err(e);
            },
            Ok(set) => {
                let ghost sv = set.deep_view();
                out.push(set);
                proof {
                    assert(out.deep_view() =~= outv.push(sv));
                    match spec_reduce_many(svs.skip(i + 1 as int)) {
                        Ok(rest) => {
                            assert(outv + (seq![sv] + rest) =~= outv.push(sv) + rest);
                        },
                        Err(_) => {},
                    }
                }
            },
        }
        i += 1;
    }
    proof {
        assert(svs.skip(v@.len() as int) =~= Seq::<SelectorV>::empty());
        assert(out.deep_view() + Seq::<Seq<RouteV>>::empty() =~= out.deep_view());
    }
    Ok(out)
}

/// Expands a selector tree into the set of concrete routes it denotes,
/// as [`spec_reduce`] states.
pub fn recursive_join(selector: &Selector) -> (r: Result<Vec<Route>, &'static str>)
    ensures
        ({
            let spec = spec_reduce(spec_view_selector(*selector));
            match r {
                Ok(rs) => spec is Ok && rs.deep_view() == spec->Ok_0,
                Err(e) => spec is Err && e@ == spec->Err_0,
            }
        }),
    decreases *selector,
{
    match selector {
        Selector::Option(v) => {
            if v.len() == 0 {
                proof {
                    crate::selector::lemma_view_selectors(v@);
                }
                return Err("Empty group");
            }
            proof {
                assert(decreases_to!(*selector => *v));
                assert(decreases_to!(*v => v@));
            }
            match recursive_join_many(v) {
                Err(e) => Err(e),
                Ok(sets) => Ok(flatten_sets(&sets)),
            }
        },
        Selector::Route(v) => {
            if v.len() == 0 {
                proof {
                    crate::selector::lemma_view_selectors(v@);
                }
                return Err("Empty group");
            }
            proof {
                assert(decreases_to!(*selector => *v));
                assert(decreases_to!(*v => v@));
                crate::selector::lemma_view_selectors(v@);
            }
            match recursive_join_many(v) {
                Err(e) => Err(e),
                Ok(sets) => {
                    proof {
                        if spec_reduce_many(crate::selector::spec_view_selectors(v@)) is Ok {
                            assert(sets@.len() == sets.deep_view().len());
                        }
                    }
                    reduce_routes(sets, JoinKind::Sequence)
                },
            }
        },
        Selector::Concat(v) => {
            if v.len() == 0 {
                proof {
                    crate::selector::lemma_view_selectors(v@);
                }
                return Err("Empty group");
            }
            proof {
                assert(decreases_to!(*selector => *v));
                assert(decreases_to!(*v => v@));
                crate::selector::lemma_view_selectors(v@);
            }
            match recursive_join_many(v) {
                Err(e) => Err(e),
                Ok(sets) => reduce_routes(sets, JoinKind::Merge),
            }
        },
        Selector::Not(inner) => {
            proof {
                assert(decreases_to!(*selector => *inner));
            }
            match recursive_join(&**inner) {
                Err(e) => Err(e),
                Ok(rs) => negate_all(&rs),
            }
        },
        Selector::WildCard => {
            let mut inner: Vec<NameMatch> = Vec::new();
            inner.push(NameMatch::Any);
            proof {
                assert(inner.deep_view() =~= seq![NameMatchV::Any]);
            }
            let ghost iv = inner.deep_view();
            let mut route: Route = Vec::new();
            route.push(RouteItem::Name(inner));
            proof {
                assert(route.deep_view() =~= seq![RouteItemV::Name(iv)]);
            }
            let ghost rv = route.deep_view();
            let mut out: Vec<Route> = Vec::new();
            out.push(route);
            proof {
                assert(out.deep_view() =~= seq![rv]);
            }
            Ok(out)
        },
        Selector::WildCardDepth => {
            let mut route: Route = Vec::new();
            route.push(RouteItem::AnySubRoute);
            proof {
                assert(route.deep_view() =~= seq![RouteItemV::AnySubRoute]);
            }
            let ghost rv = route.deep_view();
            let mut out: Vec<Route> = Vec::new();
            out.push(route);
            proof {
                assert(out.deep_view() =~= seq![rv]);
            }
            Ok(out)
        },
        Selector::Word(n) => {
            let mut inner: Vec<NameMatch> = Vec::new();
            inner.push(NameMatch::Literal(n.clone()));
            proof {
                assert(inner.deep_view() =~= seq![NameMatchV::Literal(n@)]);
            }
            let ghost iv = inner.deep_view();
            let mut route: Route = Vec::new();
            route.push(RouteItem::Name(inner));
            proof {
                assert(route.deep_view() =~= seq![RouteItemV::Name(iv)]);
            }
            let ghost rv = route.deep_view();
            let mut out: Vec<Route> = Vec::new();
            out.push(route);
            proof {
                assert(out.deep_view() =~= seq![rv]);
            }
            Ok(out)
        },
    }
}


/// Negation distributes over alternation of literals: a negated group
/// whose alternatives are all plain words expands successfully, each
/// alternative negated independently.
pub proof fn lemma_negate_option_of_words(words: Seq<SelectorV>)
    requires
        words.len() > 0,
        forall|i: int| 0 <= i < words.len() ==> words[i] is Word,
    ensures
        spec_reduce(SelectorV::Not(Box::new(SelectorV::Option(words)))) is Ok,
{
    lemma_reduce_many_words(words);
    let sets = spec_reduce_many(words)->Ok_0;
    lemma_flatten_words(words, sets);
    let flat = spec_flatten_sets(sets);
    lemma_negate_all_literal_routes(flat);
    let inner = SelectorV::Option(words);
    assert(spec_reduce(inner) == Ok::<Seq<RouteV>, Seq<char>>(flat));
    let s = SelectorV::Not(Box::new(inner));
    assert(spec_reduce(s) == spec_negate_all(flat));
}

/// Each word of a list reduces to the one route of its literal, and the
/// list reduces to the list of those singleton sets.
proof fn lemma_reduce_many_words(words: Seq<SelectorV>)
    requires
        forall|i: int| 0 <= i < words.len() ==> words[i] is Word,
    ensures
        spec_reduce_many(words) is Ok,
        ({
            let sets = spec_reduce_many(words)->Ok_0;
            sets.len() == words.len() && forall|i: int|
                0 <= i < words.len() ==> sets[i] == seq![
                    seq![RouteItemV::Name(seq![NameMatchV::Literal(words[i]->Word_0)])],
                ]
        }),
    decreases words.len(),
{
    if words.len() > 0 {
        lemma_reduce_many_words(words.drop_first());
        let rest = spec_reduce_many(words.drop_first())->Ok_0;
        let first = spec_reduce(words[0])->Ok_0;
        assert forall|i: int|
            0 <= i < words.len() implies (seq![first] + rest)[i] == seq![
            seq![RouteItemV::Name(seq![NameMatchV::Literal(words[i]->Word_0)])],
        ] by {
            if i > 0 {
                assert(words.drop_first()[i - 1] == words[i]);
                assert(rest[i - 1] == (seq![first] + rest)[i]);
            }
        }
    }
}

/// Flattening singleton sets of single-literal routes yields only
/// single-literal routes.
proof fn lemma_flatten_words(words: Seq<SelectorV>, sets: Seq<Seq<RouteV>>)
    requires
        sets.len() == words.len(),
        forall|i: int| 0 <= i < words.len() ==> words[i] is Word,
        forall|i: int|
            0 <= i < words.len() ==> sets[i] == seq![
                seq![RouteItemV::Name(seq![NameMatchV::Literal(words[i]->Word_0)])],
            ],
    ensures
        forall|j: int|
            0 <= j < spec_flatten_sets(sets).len() ==> ((#[trigger] spec_flatten_sets(
                sets,
            )[j]).len() == 1 && (spec_flatten_sets(sets)[j][0] matches RouteItemV::Name(n)
                && n.len() == 1 && n[0] is Literal)),
    decreases sets.len(),
{
    if sets.len() > 0 {
        lemma_flatten_words(words.drop_first(), sets.drop_first());
        let rest = spec_flatten_sets(sets.drop_first());
        assert forall|j: int|
            0 <= j < spec_flatten_sets(sets).len() implies (spec_flatten_sets(sets)[j].len() == 1
            && (spec_flatten_sets(sets)[j][0] matches RouteItemV::Name(n) && n.len() == 1 && n[0]
            is Literal)) by {
            if j >= sets[0].len() {
                assert(spec_flatten_sets(sets)[j] == rest[j - sets[0].len()]);
            }
        }
    }
}

/// Negating a set of routes that each hold exactly one single-literal
/// name succeeds.
proof fn lemma_negate_all_literal_routes(rs: Seq<RouteV>)
    requires
        forall|j: int|
            0 <= j < rs.len() ==> (#[trigger] rs[j]).len() == 1 && (rs[j][0] matches
            RouteItemV::Name(n) && n.len() == 1 && n[0] is Literal),
    ensures
        spec_negate_all(rs) is Ok,
    decreases rs.len(),
{
    if rs.len() > 0 {
        assert(rs[0].len() == 1);
        lemma_negate_all_literal_routes(rs.drop_first());
    }
}

} // verus!
