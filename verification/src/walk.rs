//! Walker: matches routes against a directory tree, emitting watch
//! targets.
//!
//! The tree is an in-memory value: a node is a file or a directory with
//! named entries. The walker descends from the root, consuming one route
//! item per directory level — `.` stays in place, `..` climbs to the
//! parent or drops the branch at the root, and a mid-route depth wildcard
//! may consume zero or more extra levels. A route ending in a depth
//! wildcard emits its path as a recursive target; an exhausted route
//! emits a non-recursive one.

use vstd::prelude::*;
use crate::routes::{NameMatch, NameMatchV, Route, RouteItem, RouteItemV, spec_item_matches};

verus! {

/// A node of a directory tree: a file, or a directory with named
/// children in order.
#[derive(Debug)]
pub enum FsNode {
    File,
    Dir(Vec<(String, FsNode)>),
}

/// Mathematical model of a tree node.
pub enum FsNodeV {
    File,
    Dir(Seq<(Seq<char>, FsNodeV)>),
}

/// The model of a node.
pub open spec fn spec_view_node(n: FsNode) -> FsNodeV
    decreases n,
    via spec_view_node_decreases
{
    match n {
        FsNode::File => FsNodeV::File,
        FsNode::Dir(es) => FsNodeV::Dir(spec_view_entries(es@)),
    }
}

/// The models of a directory's entries, in order.
pub open spec fn spec_view_entries(es: Seq<(String, FsNode)>) -> Seq<(Seq<char>, FsNodeV)>
    decreases es,
    via spec_view_entries_decreases
{
    if es.len() == 0 {
        Seq::empty()
    } else {
        spec_view_entries(es.drop_last()).push((es.last().0@, spec_view_node(es.last().1)))
    }
}

#[via_fn]
proof fn spec_view_node_decreases(n: FsNode) {
    match n {
        FsNode::Dir(es) => {
            assert(decreases_to!(n => es));
            assert(decreases_to!(es => es@));
        },
        _ => {},
    }
}

#[via_fn]
proof fn spec_view_entries_decreases(es: Seq<(String, FsNode)>) {
    if es.len() != 0 {
        assert(es.drop_last() == es.subrange(0, es.len() - 1));
        assert(decreases_to!(es => es.subrange(0, es.len() - 1)));
        assert(decreases_to!(es => es[es.len() - 1]));
        assert(decreases_to!(es[es.len() - 1] => es[es.len() - 1].1));
    }
}

impl DeepView for FsNode {
    type V = FsNodeV;

    open spec fn deep_view(&self) -> FsNodeV {
        spec_view_node(*self)
    }
}

/// The length and elements of [`spec_view_entries`]: each entry's name
/// and child model, in place.
pub proof fn lemma_view_entries(es: Seq<(String, FsNode)>)
    ensures
        spec_view_entries(es).len() == es.len(),
        forall|i: int|
            0 <= i < es.len() ==> spec_view_entries(es)[i] == (es[i].0@, spec_view_node(
                es[i].1,
            )),
    decreases es.len(),
{
    if es.len() != 0 {
        lemma_view_entries(es.drop_last());
    }
}

/// A resolved watch target in the model: a path as a sequence of
/// segments, and whether subdirectories are watched too.
pub type TargetV = (Seq<Seq<char>>, bool);

/// The entries a directory level offers: none for a file.
pub open spec fn spec_entries_of(n: FsNodeV) -> Seq<(Seq<char>, FsNodeV)> {
    match n {
        FsNodeV::Dir(es) => es,
        FsNodeV::File => Seq::empty(),
    }
}

/// A segment matcher of exactly one literal.
pub open spec fn spec_lit_name(s: Seq<char>) -> RouteItemV {
    RouteItemV::Name(seq![NameMatchV::Literal(s)])
}

/// The targets one route emits from `node`, with the ancestor nodes and
/// the path segments that led here.
pub open spec fn spec_walk(
    remain: Seq<RouteItemV>,
    node: FsNodeV,
    ancestors: Seq<FsNodeV>,
    path: Seq<Seq<char>>,
) -> Seq<TargetV>
    decreases remain.len(), node, 1int, 0int,
{
    if remain.len() == 1 && remain[0] is AnySubRoute {
        seq![(path, true)]
    } else if remain.len() == 0 {
        seq![(path, false)]
    } else if remain[0] == spec_lit_name("."@) {
        spec_walk(remain.drop_first(), node, ancestors, path)
    } else if remain[0] == spec_lit_name(".."@) {
        if ancestors.len() > 0 {
            spec_walk(
                remain.drop_first(),
                ancestors.last(),
                ancestors.drop_last(),
                path.drop_last(),
            )
        } else {
            Seq::empty()
        }
    } else {
        let tail_walk = spec_walk_children(
            remain.drop_first(),
            remain[0],
            node,
            0,
            ancestors,
            path,
        );
        if remain[0] is AnySubRoute {
            tail_walk + spec_walk_children(remain, remain[0], node, 0, ancestors, path)
                + spec_walk(remain.drop_first(), node, ancestors, path)
        } else {
            tail_walk
        }
    }
}

/// The targets the entries of `node` from index `k` on emit, walking
/// `remain` in each child whose name `head` accepts.
pub open spec fn spec_walk_children(
    remain: Seq<RouteItemV>,
    head: RouteItemV,
    node: FsNodeV,
    k: int,
    ancestors: Seq<FsNodeV>,
    path: Seq<Seq<char>>,
) -> Seq<TargetV>
    decreases remain.len(), node, 0int, spec_entries_of(node).len() - k,
    via spec_walk_children_decreases
{
    let es = spec_entries_of(node);
    if k < 0 || k >= es.len() {
        Seq::empty()
    } else {
        let rest = spec_walk_children(remain, head, node, k + 1, ancestors, path);
        if spec_item_matches(head, es[k].0) {
            spec_walk(remain, es[k].1, ancestors.push(node), path.push(es[k].0)) + rest
        } else {
            rest
        }
    }
}

#[via_fn]
proof fn spec_walk_children_decreases(
    remain: Seq<RouteItemV>,
    head: RouteItemV,
    node: FsNodeV,
    k: int,
    ancestors: Seq<FsNodeV>,
    path: Seq<Seq<char>>,
) {
    let es = spec_entries_of(node);
    if 0 <= k < es.len() {
        match node {
            FsNodeV::Dir(entries) => {
                assert(decreases_to!(node => entries));
                assert(decreases_to!(entries => entries[k]));
                assert(decreases_to!(entries[k] => entries[k].1));
            },
            FsNodeV::File => {},
        }
    }
}


/// Copies a vector of node references.
fn copy_refs<'a>(v: &Vec<&'a FsNode>, upto: usize) -> (r: Vec<&'a FsNode>)
    requires
        upto <= v@.len(),
    ensures
        r@ == v@.take(upto as int),
{
    let mut r: Vec<&'a FsNode> = Vec::new();
    let mut i: usize = 0;
    while i < upto
        invariant
            upto <= v@.len(),
            i <= upto,
            r@ == v@.take(i as int),
        decreases upto - i,
    {
        r.push(v[i]);
        proof {
            assert(v@.take(i + 1 as int) =~= v@.take(i as int).push(v@[i as int]));
        }
        i += 1;
    }
    r
}

/// Copies the first `upto` segments of a path.
fn copy_path(v: &Vec<String>, upto: usize) -> (r: Vec<String>)
    requires
        upto <= v@.len(),
    ensures
        r@ == v@.take(upto as int),
        r.deep_view() == v.deep_view().take(upto as int),
{
    let mut r: Vec<String> = Vec::new();
    let mut i: usize = 0;
    while i < upto
        invariant
            upto <= v@.len(),
            i <= upto,
            r@ == v@.take(i as int),
        decreases upto - i,
    {
        r.push(v[i].clone());
        proof {
            assert(v@.take(i + 1 as int) =~= v@.take(i as int).push(v@[i as int]));
        }
        i += 1;
    }
    proof {
        assert(r.deep_view() =~= v.deep_view().take(upto as int));
    }
    r
}

/// A matcher of exactly the one literal `s`.
fn singleton_matcher(s: &str) -> (r: Vec<NameMatch>)
    ensures
        r.deep_view() == seq![NameMatchV::Literal(s@)],
{
    let mut r: Vec<NameMatch> = Vec::new();
    r.push(NameMatch::Literal(s.to_owned()));
    proof {
        assert(r.deep_view() =~= seq![NameMatchV::Literal(s@)]);
    }
    r
}

/// Emits into `out` the targets of the route from item `from` on,
/// walking `node` with the ancestors and path segments that led here, as
/// [`spec_walk`] states.
pub fn match_route<'a>(
    route: &[RouteItem],
    from: usize,
    node: &'a FsNode,
    ancestors: &Vec<&'a FsNode>,
    path: &Vec<String>,
    out: &mut Vec<(Vec<String>, bool)>,
)
    requires
        from <= route@.len(),
        path@.len() == ancestors@.len(),
    ensures
        final(out).deep_view() == old(out).deep_view() + spec_walk(
            route.deep_view().skip(from as int),
            spec_view_node(*node),
            ancestors.deep_view(),
            path.deep_view(),
        ),
    decreases route@.len() - from, *node,
{
    let ghost rdv = route.deep_view().skip(from as int);
    let ghost ndv = spec_view_node(*node);
    let ghost adv = ancestors.deep_view();
    let ghost pdv = path.deep_view();
    let ghost out0 = out.deep_view();
    let n = route.len();
    if from == n {
        let p = copy_path(path, path.len());
        proof {
            assert(p.deep_view() =~= pdv);
        }
        out.push((p, false));
        proof {
            assert(out.deep_view() =~= out0 + seq![(pdv, false)]);
        }
        return;
    }
    proof {
        assert(rdv[0] == route.deep_view()[from as int]);
        assert(route.deep_view()[from as int] == route@[from as int].deep_view());
        assert(rdv.drop_first() =~= route.deep_view().skip(from + 1 as int));
    }
    if from + 1 == n && route[from].omittable() {
        let p = copy_path(path, path.len());
        proof {
            assert(p.deep_view() =~= pdv);
        }
        out.push((p, true));
        proof {
            assert(out.deep_view() =~= out0 + seq![(pdv, true)]);
        }
        return;
    }
    let dot = singleton_matcher(".");
    if route[from].is_name(dot.as_slice()) {
        match_route(route, from + 1, node, ancestors, path, out);
        return;
    }
    let dotdot = singleton_matcher("..");
    if route[from].is_name(dotdot.as_slice()) {
        if ancestors.len() > 0 {
            let parent = ancestors[ancestors.len() - 1];
            let new_anc = copy_refs(ancestors, ancestors.len() - 1);
            let new_path = copy_path(path, path.len() - 1);
            proof {
                assert(new_anc.deep_view() =~= adv.drop_last());
                assert(new_path.deep_view() =~= pdv.drop_last());
                assert(adv.last() == spec_view_node(*ancestors@[ancestors@.len() - 1]));
            }
            match_route(route, from + 1, parent, &new_anc, &new_path, out);
        }
        return;
    }
    let omit = route[from].omittable();
    match node {
        FsNode::File => {
            proof {
                assert(spec_walk_children(rdv.drop_first(), rdv[0], ndv, 0, adv, pdv)
                    =~= Seq::<TargetV>::empty());
                assert(spec_walk_children(rdv, rdv[0], ndv, 0, adv, pdv)
                    =~= Seq::<TargetV>::empty());
            }
        },
        FsNode::Dir(es) => {
            proof {
                lemma_view_entries(es@);
            }
            let ghost tailv = rdv.drop_first();
            let mut k: usize = 0;
            while k < es.len()
                invariant
                    rdv == route.deep_view().skip(from as int),
                    tailv == rdv.drop_first(),
                    tailv == route.deep_view().skip(from + 1 as int),
                    from < route@.len(),
                    rdv[0] == route@[from as int].deep_view(),
                    ndv == spec_view_node(*node),
                    *node matches FsNode::Dir(es2) && es2 == *es,
                    ndv == FsNodeV::Dir(spec_view_entries(es@)),
                    spec_view_entries(es@).len() == es@.len(),
                    forall|i: int|
                        0 <= i < es@.len() ==> spec_view_entries(es@)[i] == (es@[i].0@,
                        spec_view_node(es@[i].1)),
                    adv == ancestors.deep_view(),
                    pdv == path.deep_view(),
                    path@.len() == ancestors@.len(),
                    from + 1 <= route@.len(),
                    k <= es@.len(),
                    out.deep_view() + spec_walk_children(tailv, rdv[0], ndv, k as int, adv, pdv)
                        == out0 + spec_walk_children(tailv, rdv[0], ndv, 0, adv, pdv),
                decreases es@.len() - k,
            {
                if route[from].matches(es[k].0.as_str()) {
                    let mut new_anc = copy_refs(ancestors, ancestors.len());
                    new_anc.push(node);
                    let mut new_path = copy_path(path, path.len());
                    new_path.push(es[k].0.clone());
                    proof {
                        assert(new_anc.deep_view() =~= adv.push(ndv));
                        assert(new_path.deep_view() =~= pdv.push(es@[k as int].0@));
                        assert(decreases_to!(*node => *es));
                        assert(decreases_to!(*es => es@));
                        assert(decreases_to!(es@ => es@[k as int]));
                        assert(decreases_to!(es@[k as int] => es@[k as int].1));
                    }
                    match_route(route, from + 1, &es[k].1, &new_anc, &new_path, out);
                }
                k += 1;
            }
            proof {
                assert(spec_walk_children(tailv, rdv[0], ndv, es@.len() as int, adv, pdv)
                    =~= Seq::<TargetV>::empty());
                assert(out.deep_view() =~= out0 + spec_walk_children(
                    tailv,
                    rdv[0],
                    ndv,
                    0,
                    adv,
                    pdv,
                ));
            }
            if omit {
                let ghost out1 = out.deep_view();
                let mut k: usize = 0;
                while k < es.len()
                    invariant
                        rdv == route.deep_view().skip(from as int),
                        from < route@.len(),
                        rdv[0] == route@[from as int].deep_view(),
                        rdv[0] is AnySubRoute,
                        ndv == spec_view_node(*node),
                        *node matches FsNode::Dir(es2) && es2 == *es,
                        ndv == FsNodeV::Dir(spec_view_entries(es@)),
                        spec_view_entries(es@).len() == es@.len(),
                        forall|i: int|
                            0 <= i < es@.len() ==> spec_view_entries(es@)[i] == (es@[i].0@,
                            spec_view_node(es@[i].1)),
                        adv == ancestors.deep_view(),
                        pdv == path.deep_view(),
                        path@.len() == ancestors@.len(),
                        from <= route@.len(),
                        k <= es@.len(),
                        out.deep_view() + spec_walk_children(rdv, rdv[0], ndv, k as int, adv, pdv)
                            == out1 + spec_walk_children(rdv, rdv[0], ndv, 0, adv, pdv),
                    decreases es@.len() - k,
                {
                    if route[from].matches(es[k].0.as_str()) {
                        let mut new_anc = copy_refs(ancestors, ancestors.len());
                        new_anc.push(node);
                        let mut new_path = copy_path(path, path.len());
                        new_path.push(es[k].0.clone());
                        proof {
                            assert(new_anc.deep_view() =~= adv.push(ndv));
                            assert(new_path.deep_view() =~= pdv.push(es@[k as int].0@));
                            assert(decreases_to!(*node => *es));
                            assert(decreases_to!(*es => es@));
                            assert(decreases_to!(es@ => es@[k as int]));
                            assert(decreases_to!(es@[k as int] => es@[k as int].1));
                        }
                        match_route(route, from, &es[k].1, &new_anc, &new_path, out);
                    }
                    k += 1;
                }
                proof {
                    assert(spec_walk_children(rdv, rdv[0], ndv, es@.len() as int, adv, pdv)
                        =~= Seq::<TargetV>::empty());
                    assert(out.deep_view() =~= out1 + spec_walk_children(
                        rdv,
                        rdv[0],
                        ndv,
                        0,
                        adv,
                        pdv,
                    ));
                }
            }
        },
    }
    if omit {
        match_route(route, from + 1, node, ancestors, path, out);
        proof {
            assert(out.deep_view() =~= out0 + (spec_walk_children(
                rdv.drop_first(),
                rdv[0],
                ndv,
                0,
                adv,
                pdv,
            ) + spec_walk_children(rdv, rdv[0], ndv, 0, adv, pdv) + spec_walk(
                rdv.drop_first(),
                ndv,
                adv,
                pdv,
            )));
        }
    }
}


/// The targets all routes emit from the root, in order.
pub open spec fn spec_walk_all(routes: Seq<Seq<RouteItemV>>, root: FsNodeV) -> Seq<TargetV>
    decreases routes.len(),
{
    if routes.len() == 0 {
        Seq::empty()
    } else {
        spec_walk(routes[0], root, Seq::empty(), Seq::empty()) + spec_walk_all(
            routes.drop_first(),
            root,
        )
    }
}

/// Emits the targets of every route of the set, matched against the
/// tree rooted at the working directory, as [`spec_walk_all`] states.
pub fn match_all(routes: &Vec<Route>, root: &FsNode) -> (r: Vec<(Vec<String>, bool)>)
    ensures
        r.deep_view() == spec_walk_all(routes.deep_view(), spec_view_node(*root)),
{
    let ghost dv = routes.deep_view();
    let ghost rootv = spec_view_node(*root);
    let mut out: Vec<(Vec<String>, bool)> = Vec::new();
    proof {
        assert(dv.skip(0) =~= dv);
        assert(out.deep_view() =~= Seq::<TargetV>::empty());
    }
    let mut i: usize = 0;
    while i < routes.len()
        invariant
            dv == routes.deep_view(),
            rootv == spec_view_node(*root),
            i <= routes@.len(),
            out.deep_view() + spec_walk_all(dv.skip(i as int), rootv) == spec_walk_all(dv, rootv),
        decreases routes@.len() - i,
    {
        proof {
            assert(dv.skip(i as int)[0] == dv[i as int]);
            assert(dv[i as int] == routes@[i as int].deep_view());
            assert(dv.skip(i as int).drop_first() =~= dv.skip(i + 1 as int));
        }
        let anc: Vec<&FsNode> = Vec::new();
        let path: Vec<String> = Vec::new();
        proof {
            assert(anc.deep_view() =~= Seq::<FsNodeV>::empty());
            assert(path.deep_view() =~= Seq::<Seq<char>>::empty());
            assert(routes@[i as int].deep_view().skip(0) =~= routes@[i as int].deep_view());
        }
        match_route(routes[i].as_slice(), 0, root, &anc, &path, &mut out);
        i += 1;
    }
    proof {
        assert(dv.skip(routes@.len() as int) =~= Seq::<Seq<RouteItemV>>::empty());
        assert(out.deep_view() + Seq::<TargetV>::empty() =~= out.deep_view());
    }
    out
}

/// Walking an unchanged tree is deterministic: any two walks of the same
/// route set against the same tree yield the same set of targets.
pub proof fn lemma_walk_idempotent(
    routes: Seq<Seq<RouteItemV>>,
    root: FsNodeV,
    first: Seq<TargetV>,
    second: Seq<TargetV>,
)
    requires
        first == spec_walk_all(routes, root),
        second == spec_walk_all(routes, root),
    ensures
        first.to_set() == second.to_set(),
{
}

/// Omission: a depth wildcard standing mid-route may consume zero
/// directory levels, so every target of the walk without the wildcard is
/// among the targets of the walk with it.
pub proof fn lemma_walk_omission(
    post: Seq<RouteItemV>,
    node: FsNodeV,
    ancestors: Seq<FsNodeV>,
    path: Seq<Seq<char>>,
    t: TargetV,
)
    requires
        post.len() > 0,
        spec_walk(post, node, ancestors, path).contains(t),
    ensures
        spec_walk(seq![RouteItemV::AnySubRoute] + post, node, ancestors, path).contains(t),
{
    let remain = seq![RouteItemV::AnySubRoute] + post;
    assert(remain.len() == 1 + post.len());
    assert(remain[0] is AnySubRoute);
    assert(remain.drop_first() =~= post);
    let a = spec_walk_children(post, remain[0], node, 0, ancestors, path);
    let b = spec_walk_children(remain, remain[0], node, 0, ancestors, path);
    let c = spec_walk(post, node, ancestors, path);
    assert(spec_walk(remain, node, ancestors, path) == a + b + c);
    let i = choose|i: int| 0 <= i < c.len() && c[i] == t;
    assert((a + b + c)[a.len() + b.len() + i] == t);
}

} // verus!
