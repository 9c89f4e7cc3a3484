//! Nested route trees and depth-first matching.
//!
//! Route definitions live in an arena: each definition is referenced by
//! index, children always carry larger indices than their parent, and every
//! sibling list is strictly increasing, so declaration order and insertion
//! order coincide. Matching walks the tree depth-first, trying sibling
//! patterns in declaration order; the first definition that consumes the
//! whole path (leaf with empty remainder, or a layout route whose child
//! tree consumes the remainder) wins. A definition with children is a
//! layout route: its view wraps the matched child's view, so a match
//! carries the chain of view handles from the outermost layout to the leaf.

use vstd::prelude::*;
use crate::pattern::{SegSpec, PathPattern};
use crate::matcher::{pattern_test_spec, params_view, PartialMatch};

verus! {

/// Mathematical model of one route definition.
#[verifier::ext_equal]
pub struct RouteDefSpec {
    /// The definition's compiled pattern.
    pub pattern: Seq<SegSpec>,
    /// Arena indices of the nested child definitions, in declaration order.
    pub children: Seq<int>,
    /// The opaque view handle this definition produces.
    pub view_id: u64,
}

/// Mathematical model of a route tree.
#[verifier::ext_equal]
pub struct RouteTreeSpec {
    /// All route definitions, in insertion order.
    pub defs: Seq<RouteDefSpec>,
    /// Arena indices of the top-level definitions, in declaration order.
    pub roots: Seq<int>,
}

/// Mathematical model of a full route match: the merged parameters
/// (outer first, so an inner name shadows an outer one on lookup from the
/// end) and the chain of view handles from outermost layout to leaf.
#[verifier::ext_equal]
pub struct RouteMatchSpec {
    /// Extracted parameters of every level, outer levels first.
    pub params: Seq<(Seq<u8>, Seq<u8>)>,
    /// View handles from the outermost layout route down to the leaf.
    pub view_ids: Seq<u64>,
}

/// A well-formed sibling list: every index lies in `(lo, n)` and the list
/// is strictly increasing.
pub open spec fn idx_list_wf(idxs: Seq<int>, lo: int, n: int) -> bool {
    &&& forall|a: int| 0 <= a < idxs.len() ==> lo < #[trigger] idxs[a] < n
    &&& forall|a: int| 0 <= a < idxs.len() - 1 ==> #[trigger] idxs[a] < idxs[a + 1]
}

/// The tree invariant: children indices exceed their parent's index and
/// every sibling list is well formed.
pub open spec fn tree_wf(t: RouteTreeSpec) -> bool {
    &&& forall|i: int|
        0 <= i < t.defs.len() ==> idx_list_wf(
            #[trigger] t.defs[i].children,
            i,
            t.defs.len() as int,
        )
    &&& idx_list_wf(t.roots, -1, t.defs.len() as int)
}

/// The first index of the list, or `d` when the list is empty.
pub open spec fn first_or(idxs: Seq<int>, d: int) -> int {
    if idxs.len() == 0 {
        d
    } else {
        idxs[0]
    }
}

/// Whether definition `i` claims the whole of `path`: its pattern must
/// match, and the remainder must be empty at a leaf or be claimed by the
/// child tree at a layout route.
pub open spec fn match_at_spec(t: RouteTreeSpec, i: int, path: Seq<Seq<u8>>) -> Option<
    RouteMatchSpec,
>
    decreases t.defs.len() - i, 0int, 0int,
    when 0 <= i < t.defs.len() && tree_wf(t)
{
    match pattern_test_spec(t.defs[i].pattern, path) {
        None => None,
        Some(pm) => {
            if t.defs[i].children.len() == 0 {
                if pm.remaining.len() == 0 {
                    Some(RouteMatchSpec { params: pm.params, view_ids: seq![t.defs[i].view_id] })
                } else {
                    None
                }
            } else {
                match match_list_spec(t, t.defs[i].children, pm.remaining) {
                    None => None,
                    Some(inner) => Some(
                        RouteMatchSpec {
                            params: pm.params + inner.params,
                            view_ids: seq![t.defs[i].view_id] + inner.view_ids,
                        },
                    ),
                }
            }
        },
    }
}

/// The first full match among the sibling definitions `idxs`, tried in
/// declaration order.
pub open spec fn match_list_spec(t: RouteTreeSpec, idxs: Seq<int>, path: Seq<Seq<u8>>) -> Option<
    RouteMatchSpec,
>
    decreases t.defs.len() - first_or(idxs, t.defs.len() as int), 1int, idxs.len(),
    when tree_wf(t) && idx_list_wf(idxs, -1, t.defs.len() as int)
{
    if idxs.len() == 0 {
        None
    } else {
        match match_at_spec(t, idxs[0], path) {
            Some(m) => Some(m),
            None => match_list_spec(t, idxs.drop_first(), path),
        }
    }
}

/// The route the tree selects for `path`: the first full match among the
/// roots in declaration order, or `None`, which resolves to the fallback.
pub open spec fn match_route_spec(t: RouteTreeSpec, path: Seq<Seq<u8>>) -> Option<RouteMatchSpec> {
    match_list_spec(t, t.roots, path)
}

/// Sibling lists stay well formed under `skip`.
pub proof fn lemma_idx_list_wf_skip(idxs: Seq<int>, lo: int, n: int, j: int)
    requires
        idx_list_wf(idxs, lo, n),
        0 <= j <= idxs.len(),
    ensures
        idx_list_wf(idxs.skip(j), lo, n),
{
    let d = idxs.skip(j);
    assert forall|a: int| 0 <= a < d.len() implies lo < #[trigger] d[a] < n by {
        assert(d[a] == idxs[a + j]);
    }
    assert forall|a: int| 0 <= a < d.len() - 1 implies #[trigger] d[a] < d[a + 1] by {
        assert(d[a] == idxs[a + j]);
        assert(d[a + 1] == idxs[a + j + 1]);
    }
}

/// Sibling lists stay well formed when the first element is dropped.
proof fn lemma_idx_list_wf_drop_first(idxs: Seq<int>, lo: int, n: int)
    requires
        idx_list_wf(idxs, lo, n),
        idxs.len() > 0,
    ensures
        idx_list_wf(idxs.drop_first(), lo, n),
{
    let d = idxs.drop_first();
    assert forall|a: int| 0 <= a < d.len() implies lo < #[trigger] d[a] < n by {
        assert(d[a] == idxs[a + 1]);
    }
    assert forall|a: int| 0 <= a < d.len() - 1 implies #[trigger] d[a] < d[a + 1] by {
        assert(d[a] == idxs[a + 1]);
        assert(d[a + 1] == idxs[a + 2]);
    }
}

/// Siblings whose matches all fail contribute nothing: the list match
/// equals the match of the list with those first `j` siblings skipped.
proof fn lemma_match_list_skip_none(t: RouteTreeSpec, idxs: Seq<int>, j: int, path: Seq<Seq<u8>>)
    requires
        tree_wf(t),
        idx_list_wf(idxs, -1, t.defs.len() as int),
        0 <= j <= idxs.len(),
        forall|k: int| 0 <= k < j ==> match_at_spec(t, #[trigger] idxs[k], path) is None,
    ensures
        match_list_spec(t, idxs, path) == match_list_spec(t, idxs.skip(j), path),
    decreases j,
{
    if j == 0 {
        assert(idxs.skip(0) =~= idxs);
    } else {
        let d = idxs.drop_first();
        lemma_idx_list_wf_drop_first(idxs, -1, t.defs.len() as int);
        assert(match_at_spec(t, idxs[0], path) is None);
        assert(match_list_spec(t, idxs, path) == match_list_spec(t, d, path));
        assert forall|k: int| 0 <= k < j - 1 implies match_at_spec(
            t,
            #[trigger] d[k],
            path,
        ) is None by {
            assert(d[k] == idxs[k + 1]);
        }
        lemma_match_list_skip_none(t, d, j - 1, path);
        assert(d.skip(j - 1) =~= idxs.skip(j));
    }
}

/// One route definition in the arena.
#[derive(Debug)]
pub struct RouteDef {
    pattern: PathPattern,
    children: Vec<usize>,
    view_id: u64,
}

impl View for RouteDef {
    type V = RouteDefSpec;

    closed spec fn view(&self) -> RouteDefSpec {
        RouteDefSpec {
            pattern: self.pattern@,
            children: Seq::new(self.children@.len(), |a: int| self.children@[a] as int),
            view_id: self.view_id,
        }
    }
}

/// An ordered, arena-indexed collection of route definitions. Built once,
/// then treated as read-only for matching and route-list generation.
#[derive(Debug)]
pub struct RouteTree {
    defs: Vec<RouteDef>,
    roots: Vec<usize>,
}

impl View for RouteTree {
    type V = RouteTreeSpec;

    closed spec fn view(&self) -> RouteTreeSpec {
        RouteTreeSpec {
            defs: Seq::new(self.defs@.len(), |i: int| self.defs@[i]@),
            roots: Seq::new(self.roots@.len(), |a: int| self.roots@[a] as int),
        }
    }
}

/// A full route match: merged parameters and the view-handle chain.
#[derive(Debug)]
pub struct RouteMatch {
    /// Extracted parameters of every level, outer levels first; an inner
    /// name shadows an outer one on lookup from the end.
    pub params: Vec<(Vec<u8>, Vec<u8>)>,
    /// View handles from the outermost layout route down to the leaf.
    pub view_ids: Vec<u64>,
}

impl View for RouteMatch {
    type V = RouteMatchSpec;

    open spec fn view(&self) -> RouteMatchSpec {
        RouteMatchSpec { params: params_view(self.params@), view_ids: self.view_ids@ }
    }
}

impl RouteMatch {
    /// The value extracted for parameter `name`: duplicate names across
    /// nested levels are allowed, and the innermost binding wins.
    pub fn param(&self, name: &[u8]) -> (r: Option<Vec<u8>>)
        ensures
            match r {
                Some(v) => crate::matcher::lookup_spec(self@.params, name@) == Some(v@),
                None => crate::matcher::lookup_spec(self@.params, name@) is None,
            },
    {
        let r = crate::matcher::lookup_param(self.params.as_slice(), name);
        proof {
            assert forall|a: int| 0 <= a < self.params@.len() implies self.params.deep_view()[a]
                == params_view(self.params@)[a] by {
                assert(self.params.deep_view()[a] == self.params@[a].deep_view());
            }
            assert(self.params.deep_view() =~= params_view(self.params@));
        }
        r
    }
}

impl RouteTree {
    /// The tree invariant.
    pub open spec fn wf(&self) -> bool {
        tree_wf(self@)
    }

    /// An empty tree.
    pub fn new() -> (r: RouteTree)
        ensures
            r@.defs.len() == 0,
            r@.roots.len() == 0,
            r.wf(),
    {
        let r = RouteTree { defs: Vec::new(), roots: Vec::new() };
        proof {
            assert(r@.defs =~= Seq::<RouteDefSpec>::empty());
            assert(r@.roots =~= Seq::<int>::empty());
        }
        r
    }

    /// The number of route definitions.
    pub fn len(&self) -> (r: usize)
        ensures
            r == self@.defs.len(),
    {
        self.defs.len()
    }

    /// Appends a route definition and returns its arena index.
    ///
    /// With `parent` equal to `None` the definition becomes a new last
    /// root; otherwise it becomes the new last child of `parent`. The new
    /// definition has no children of its own and produces `view_id`.
    /// Declaration order is append order, and the tree stays well formed.
    pub fn add_route(&mut self, parent: Option<usize>, pattern: PathPattern, view_id: u64) -> (r:
        usize)
        requires
            old(self).wf(),
            match parent {
                Some(p) => p < old(self)@.defs.len(),
                None => true,
            },
            old(self)@.defs.len() < usize::MAX,
        ensures
            final(self).wf(),
            r == old(self)@.defs.len(),
            final(self)@.defs.len() == old(self)@.defs.len() + 1,
            final(self)@.defs[r as int].pattern == pattern@,
            final(self)@.defs[r as int].children.len() == 0,
            final(self)@.defs[r as int].view_id == view_id,
            match parent {
                Some(p) => {
                    &&& final(self)@.roots == old(self)@.roots
                    &&& final(self)@.defs[p as int].children == old(self)@.defs[
                        p as int
                    ].children.push(r as int)
                    &&& forall|i: int|
                        0 <= i < old(self)@.defs.len() && i != p ==> final(self)@.defs[i] == old(
                            self,
                        )@.defs[i]
                },
                None => {
                    &&& final(self)@.roots == old(self)@.roots.push(r as int)
                    &&& forall|i: int|
                        0 <= i < old(self)@.defs.len() ==> final(self)@.defs[i] == old(
                            self,
                        )@.defs[i]
                },
            },
    {
        let idx = self.defs.len();
        let def = RouteDef { pattern, children: Vec::new(), view_id };
        proof {
            assert(def@.children =~= Seq::<int>::empty());
        }
        self.defs.push(def);
        match parent {
            Some(p) => {
                self.defs[p].children.push(idx);
                proof {
                    let ghost pre = old(self)@;
                    let ghost cur = self@;
                    assert forall|i: int|
                        0 <= i < pre.defs.len() && i != p implies cur.defs[i] == pre.defs[i] by {
                        assert(cur.defs[i] =~= pre.defs[i]);
                    }
                    assert(cur.defs[p as int].children =~= pre.defs[p as int].children.push(
                        idx as int,
                    ));
                    assert(cur.defs[p as int].pattern == pre.defs[p as int].pattern);
                    assert(cur.defs[p as int].view_id == pre.defs[p as int].view_id);
                    assert(cur.roots =~= pre.roots);
                    assert(cur.defs[idx as int].children =~= Seq::<int>::empty());
                    assert forall|i: int|
                        0 <= i < cur.defs.len() implies idx_list_wf(
                        #[trigger] cur.defs[i].children,
                        i,
                        cur.defs.len() as int,
                    ) by {
                        if i == p {
                            let c = cur.defs[p as int].children;
                            let old_c = pre.defs[p as int].children;
                            assert(idx_list_wf(old_c, p as int, pre.defs.len() as int));
                            assert forall|a: int| 0 <= a < c.len() implies i < #[trigger] c[a]
                                < cur.defs.len() by {
                                if a < old_c.len() {
                                    assert(c[a] == old_c[a]);
                                }
                            }
                            assert forall|a: int| 0 <= a < c.len() - 1 implies #[trigger] c[a] < c[a
                                + 1] by {
                                if a + 1 < old_c.len() {
                                    assert(c[a] == old_c[a]);
                                    assert(c[a + 1] == old_c[a + 1]);
                                } else {
                                    assert(c[a] == old_c[a]);
                                    assert(c[a + 1] == idx as int);
                                }
                            }
                        } else if i < idx {
                            assert(idx_list_wf(pre.defs[i].children, i, pre.defs.len() as int));
                            assert(cur.defs[i].children == pre.defs[i].children);
                            assert forall|a: int|
                                0 <= a < cur.defs[i].children.len() implies i
                                < #[trigger] cur.defs[i].children[a] < cur.defs.len() by {}
                        } else {
                        }
                    }
                }
            },
            None => {
                self.roots.push(idx);
                proof {
                    let ghost pre = old(self)@;
                    let ghost cur = self@;
                    assert forall|i: int|
                        0 <= i < pre.defs.len() implies cur.defs[i] == pre.defs[i] by {
                        assert(cur.defs[i] =~= pre.defs[i]);
                    }
                    assert(cur.roots =~= pre.roots.push(idx as int));
                    assert(cur.defs[idx as int].children =~= Seq::<int>::empty());
                    assert forall|i: int|
                        0 <= i < cur.defs.len() implies idx_list_wf(
                        #[trigger] cur.defs[i].children,
                        i,
                        cur.defs.len() as int,
                    ) by {
                        if i < idx {
                            assert(idx_list_wf(pre.defs[i].children, i, pre.defs.len() as int));
                            assert(cur.defs[i].children == pre.defs[i].children);
                        }
                    }
                    let r = cur.roots;
                    let old_r = pre.roots;
                    assert forall|a: int| 0 <= a < r.len() implies -1 < #[trigger] r[a]
                        < cur.defs.len() by {
                        if a < old_r.len() {
                            assert(r[a] == old_r[a]);
                        }
                    }
                    assert forall|a: int| 0 <= a < r.len() - 1 implies #[trigger] r[a] < r[a
                        + 1] by {
                        if a + 1 < old_r.len() {
                            assert(r[a] == old_r[a]);
                            assert(r[a + 1] == old_r[a + 1]);
                        } else {
                            assert(r[a] == old_r[a]);
                            assert(r[a + 1] == idx as int);
                        }
                    }
                }
            },
        }
        idx
    }

    /// The compiled pattern of definition `i`.
    pub fn def_pattern(&self, i: usize) -> (r: &PathPattern)
        requires
            i < self@.defs.len(),
        ensures
            r@ == self@.defs[i as int].pattern,
    {
        &self.defs[i].pattern
    }

    /// How many children definition `i` has.
    pub fn child_count(&self, i: usize) -> (r: usize)
        requires
            i < self@.defs.len(),
        ensures
            r == self@.defs[i as int].children.len(),
    {
        self.defs[i].children.len()
    }

    /// The arena index of child `j` of definition `i`.
    pub fn child(&self, i: usize, j: usize) -> (r: usize)
        requires
            i < self@.defs.len(),
            j < self@.defs[i as int].children.len(),
        ensures
            r as int == self@.defs[i as int].children[j as int],
    {
        self.defs[i].children[j]
    }

    /// How many root definitions the tree has.
    pub fn root_count(&self) -> (r: usize)
        ensures
            r == self@.roots.len(),
    {
        self.roots.len()
    }

    /// The arena index of root `j`.
    pub fn root(&self, j: usize) -> (r: usize)
        requires
            j < self@.roots.len(),
        ensures
            r as int == self@.roots[j as int],
    {
        self.roots[j]
    }

    /// The view handle of definition `i`.
    pub fn def_view_id(&self, i: usize) -> (r: u64)
        requires
            i < self@.defs.len(),
        ensures
            r == self@.defs[i as int].view_id,
    {
        self.defs[i].view_id
    }

    /// Whether definition `i` claims the whole of `path`.
    fn match_at(&self, i: usize, path: &[Vec<u8>]) -> (r: Option<RouteMatch>)
        requires
            self.wf(),
            i < self@.defs.len(),
        ensures
            match r {
                Some(m) => match_at_spec(self@, i as int, path.deep_view()) == Some(m@),
                None => match_at_spec(self@, i as int, path.deep_view()) is None,
            },
        decreases self@.defs.len() - i,
    {
        let ghost t = self@;
        let ghost gpath = path.deep_view();
        let def = &self.defs[i];
        proof {
            assert(t.defs[i as int] == def@);
        }
        let pm: Option<PartialMatch> = def.pattern.test(path);
        match pm {
            None => None,
            Some(pm) => {
                let ghost gpm = pm@;
                if def.children.len() == 0 {
                    if pm.remaining.len() == 0 {
                        let mut view_ids: Vec<u64> = Vec::new();
                        view_ids.push(def.view_id);
                        let m = RouteMatch { params: pm.params, view_ids };
                        proof {
                            assert(gpm.remaining.len() == 0);
                            assert(m@.view_ids =~= seq![t.defs[i as int].view_id]);
                            assert(m@ =~= RouteMatchSpec {
                                params: gpm.params,
                                view_ids: seq![t.defs[i as int].view_id],
                            });
                            assert(match_at_spec(t, i as int, gpath) == Some(m@));
                        }
                        Some(m)
                    } else {
                        proof {
                            assert(gpm.remaining.len() > 0);
                        }
                        None
                    }
                } else {
                    let ghost children = t.defs[i as int].children;
                    proof {
                        assert(idx_list_wf(children, i as int, t.defs.len() as int));
                    }
                    let n = def.children.len();
                    let mut j: usize = 0;
                    proof {
                        assert(idx_list_wf(children, -1, t.defs.len() as int));
                    }
                    while j < n
                        invariant
                            self.wf(),
                            i < self@.defs.len(),
                            t == self@,
                            n == def.children@.len(),
                            def@ == t.defs[i as int],
                            0 <= j <= n,
                            idx_list_wf(children, -1, t.defs.len() as int),
                            idx_list_wf(children, i as int, t.defs.len() as int),
                            gpath == path.deep_view(),
                            children == t.defs[i as int].children,
                            children.len() == n,
                            forall|a: int| 0 <= a < n ==> children[a] == def.children@[a] as int,
                            pattern_test_spec(t.defs[i as int].pattern, path.deep_view()) == Some(
                                gpm,
                            ),
                            gpm == pm@,
                            forall|k: int|
                                0 <= k < j ==> match_at_spec(
                                    t,
                                    #[trigger] children[k],
                                    gpm.remaining,
                                ) is None,
                        decreases n - j,
                    {
                        let c = def.children[j];
                        proof {
                            assert(children[j as int] == c as int);
                            assert((i as int) < children[j as int] < t.defs.len() as int);
                        }
                        let m = self.match_at(c, pm.remaining.as_slice());
                        match m {
                            Some(inner) => {
                                let ghost ginner = inner@;
                                proof {
                                    lemma_match_list_skip_none(
                                        t,
                                        children,
                                        j as int,
                                        gpm.remaining,
                                    );
                                    lemma_idx_list_wf_skip(
                                        children,
                                        -1,
                                        t.defs.len() as int,
                                        j as int,
                                    );
                                    assert(children.skip(j as int)[0] == children[j as int]);
                                    assert(match_list_spec(t, children.skip(j as int), gpm.remaining)
                                        == Some(ginner));
                                    assert(match_list_spec(t, children, gpm.remaining) == Some(
                                        ginner,
                                    ));
                                }
                                let mut params = pm.params;
                                let mut inner_params = inner.params;
                                let ghost outer_params = params_view(params@);
                                params.append(&mut inner_params);
                                let mut view_ids: Vec<u64> = Vec::new();
                                view_ids.push(def.view_id);
                                let mut inner_views = inner.view_ids;
                                view_ids.append(&mut inner_views);
                                let m = RouteMatch { params, view_ids };
                                proof {
                                    assert(params_view(m.params@) =~= outer_params + ginner.params);
                                    assert(outer_params =~= gpm.params);
                                    assert(m@.view_ids =~= seq![t.defs[i as int].view_id]
                                        + ginner.view_ids);
                                    assert(m@ =~= RouteMatchSpec {
                                        params: gpm.params + ginner.params,
                                        view_ids: seq![t.defs[i as int].view_id] + ginner.view_ids,
                                    });
                                    assert(pattern_test_spec(t.defs[i as int].pattern, gpath)
                                        == Some(gpm));
                                    assert(t.defs[i as int].children.len() > 0);
                                    assert(t.defs[i as int].children == children);
                                    assert(match_list_spec(t, t.defs[i as int].children, gpm.remaining)
                                        == Some(ginner));
                                    assert(match_at_spec(t, i as int, gpath) == Some(m@));
                                }
                                return Some(m);
                            },
                            None => {
                                j = j + 1;
                            },
                        }
                    }
                    proof {
                        lemma_match_list_skip_none(t, children, n as int, gpm.remaining);
                        assert(children.skip(n as int) =~= Seq::<int>::empty());
                    }
                    None
                }
            },
        }
    }

    /// Selects the route for a segmented path: the first full match among
    /// the roots in declaration order, or `None` when no route claims the
    /// whole path, which the router resolves to the fallback branch.
    pub fn match_route(&self, path: &[Vec<u8>]) -> (r: Option<RouteMatch>)
        requires
            self.wf(),
        ensures
            match r {
                Some(m) => match_route_spec(self@, path.deep_view()) == Some(m@),
                None => match_route_spec(self@, path.deep_view()) is None,
            },
    {
        let ghost t = self@;
        let ghost gpath = path.deep_view();
        let n = self.roots.len();
        let mut j: usize = 0;
        proof {
            assert(idx_list_wf(t.roots, -1, t.defs.len() as int));
        }
        while j < n
            invariant
                self.wf(),
                t == self@,
                gpath == path.deep_view(),
                n == self.roots@.len(),
                0 <= j <= n,
                t.roots.len() == n,
                forall|a: int| 0 <= a < n ==> t.roots[a] == self.roots@[a] as int,
                forall|k: int|
                    0 <= k < j ==> match_at_spec(t, #[trigger] t.roots[k], gpath) is None,
            decreases n - j,
        {
            let c = self.roots[j];
            proof {
                assert(t.roots[j as int] == c as int);
                assert(-1 < t.roots[j as int] < t.defs.len() as int);
            }
            let m = self.match_at(c, path);
            match m {
                Some(m) => {
                    proof {
                        lemma_match_list_skip_none(t, t.roots, j as int, gpath);
                        lemma_idx_list_wf_skip(t.roots, -1, t.defs.len() as int, j as int);
                        assert(t.roots.skip(j as int)[0] == t.roots[j as int]);
                        assert(match_list_spec(t, t.roots.skip(j as int), gpath) == Some(m@));
                    }
                    return Some(m);
                },
                None => {
                    j = j + 1;
                },
            }
        }
        proof {
            lemma_match_list_skip_none(t, t.roots, n as int, gpath);
            assert(t.roots.skip(n as int) =~= Seq::<int>::empty());
        }
        None
    }
}

} // verus!
