//! Static route-list generation.
//!
//! A non-rendering, depth-first walk of the route tree enumerates every
//! concrete path the tree can produce, for external static-site
//! generation. Parameter and wildcard segments are emitted as symbolic
//! placeholders (`:name`, `*name`); resolving them to real data is an
//! external collaborator's job. Whether a pass is running is an explicitly
//! passed context, not ambient global state, so passes cannot interfere.

use vstd::prelude::*;
use crate::path::{SLASH, join_slash, join_segments_from, copy_bytes, copy_segments_from};
use crate::pattern::{SegSpec, Segment, PathPattern, COLON, STAR};
use crate::tree::{RouteTree, RouteTreeSpec, idx_list_wf, tree_wf, lemma_idx_list_wf_skip};
use crate::router::Router;

verus! {

/// Mathematical model of one route-list entry.
#[verifier::ext_equal]
pub struct RouteListEntrySpec {
    /// The fully expanded symbolic path, with a leading separator.
    pub path: Seq<u8>,
    /// The parameter names substituted with symbolic markers, in order.
    pub params: Seq<Seq<u8>>,
}

/// One concrete, fully expanded path a route tree can produce, with the
/// parameter names that were substituted with symbolic markers.
#[derive(Debug)]
pub struct RouteListEntry {
    /// The symbolic path, such as `/users/:id/edit`.
    pub path: Vec<u8>,
    /// The substituted parameter names, outermost first.
    pub params: Vec<Vec<u8>>,
}

impl View for RouteListEntry {
    type V = RouteListEntrySpec;

    open spec fn view(&self) -> RouteListEntrySpec {
        RouteListEntrySpec { path: self.path@, params: self.params.deep_view() }
    }
}

/// The view of an entry list.
pub open spec fn entries_view(s: Seq<RouteListEntry>) -> Seq<RouteListEntrySpec> {
    Seq::new(s.len(), |i: int| s[i]@)
}

/// The symbolic text of one pattern segment: the literal itself, `:name`,
/// or `*name`.
pub open spec fn seg_symbol(s: SegSpec) -> Seq<u8> {
    match s {
        SegSpec::Static(t) => t,
        SegSpec::Param(n) => seq![COLON] + n,
        SegSpec::Wildcard(n) => seq![STAR] + n,
    }
}

/// The parameter names one pattern segment contributes.
pub open spec fn seg_names(s: SegSpec) -> Seq<Seq<u8>> {
    match s {
        SegSpec::Static(_) => Seq::empty(),
        SegSpec::Param(n) => seq![n],
        SegSpec::Wildcard(n) => seq![n],
    }
}

/// The symbolic texts of a whole pattern.
pub open spec fn pattern_symbols(pat: Seq<SegSpec>) -> Seq<Seq<u8>> {
    Seq::new(pat.len(), |i: int| seg_symbol(pat[i]))
}

/// The parameter names of a whole pattern, in declaration order.
pub open spec fn pattern_param_names(pat: Seq<SegSpec>) -> Seq<Seq<u8>>
    decreases pat.len(),
{
    if pat.len() == 0 {
        Seq::empty()
    } else {
        seg_names(pat[0]) + pattern_param_names(pat.drop_first())
    }
}

/// The path text of an entry: the accumulated symbolic segments joined
/// with `/` behind one leading separator; the empty accumulation is the
/// root path `/`.
pub open spec fn entry_path(syms: Seq<Seq<u8>>) -> Seq<u8> {
    seq![SLASH] + join_slash(syms)
}

/// The entries the subtree rooted at definition `i` produces, with the
/// symbolic segments and parameter names accumulated so far: one entry at
/// a leaf, and the children's entries in declaration order below a layout
/// route.
pub open spec fn route_list_at(
    t: RouteTreeSpec,
    i: int,
    syms: Seq<Seq<u8>>,
    names: Seq<Seq<u8>>,
) -> Seq<RouteListEntrySpec>
    decreases t.defs.len() - i, 0int, 0int,
    when 0 <= i < t.defs.len() && tree_wf(t)
{
    let syms2 = syms + pattern_symbols(t.defs[i].pattern);
    let names2 = names + pattern_param_names(t.defs[i].pattern);
    if t.defs[i].children.len() == 0 {
        seq![RouteListEntrySpec { path: entry_path(syms2), params: names2 }]
    } else {
        route_list_list(t, t.defs[i].children, syms2, names2)
    }
}

/// The entries a sibling list produces, in declaration order.
pub open spec fn route_list_list(
    t: RouteTreeSpec,
    idxs: Seq<int>,
    syms: Seq<Seq<u8>>,
    names: Seq<Seq<u8>>,
) -> Seq<RouteListEntrySpec>
    decreases t.defs.len() - crate::tree::first_or(idxs, t.defs.len() as int), 1int, idxs.len(),
    when tree_wf(t) && idx_list_wf(idxs, -1, t.defs.len() as int)
{
    if idxs.len() == 0 {
        Seq::empty()
    } else {
        route_list_at(t, idxs[0], syms, names) + route_list_list(t, idxs.drop_first(), syms, names)
    }
}

/// Every entry a route tree can produce, in depth-first declaration order.
pub open spec fn route_list_spec(t: RouteTreeSpec) -> Seq<RouteListEntrySpec> {
    route_list_list(t, t.roots, Seq::empty(), Seq::empty())
}

/// How many leaves the subtree rooted at definition `i` has.
pub open spec fn leaf_count_at(t: RouteTreeSpec, i: int) -> nat
    decreases t.defs.len() - i, 0int, 0int,
    when 0 <= i < t.defs.len() && tree_wf(t)
{
    if t.defs[i].children.len() == 0 {
        1
    } else {
        leaf_count_list(t, t.defs[i].children)
    }
}

/// How many leaves a sibling list carries in total.
pub open spec fn leaf_count_list(t: RouteTreeSpec, idxs: Seq<int>) -> nat
    decreases t.defs.len() - crate::tree::first_or(idxs, t.defs.len() as int), 1int, idxs.len(),
    when tree_wf(t) && idx_list_wf(idxs, -1, t.defs.len() as int)
{
    if idxs.len() == 0 {
        0
    } else {
        leaf_count_at(t, idxs[0]) + leaf_count_list(t, idxs.drop_first())
    }
}

/// Route-list completeness, per subtree: the generation pass emits
/// exactly one entry per leaf below definition `i`, whatever was
/// accumulated above it.
pub proof fn lemma_one_entry_per_leaf_at(
    t: RouteTreeSpec,
    i: int,
    syms: Seq<Seq<u8>>,
    names: Seq<Seq<u8>>,
)
    requires
        tree_wf(t),
        0 <= i < t.defs.len(),
    ensures
        route_list_at(t, i, syms, names).len() == leaf_count_at(t, i),
    decreases t.defs.len() - i, 0int, 0int,
{
    if t.defs[i].children.len() == 0 {
    } else {
        let syms2 = syms + pattern_symbols(t.defs[i].pattern);
        let names2 = names + pattern_param_names(t.defs[i].pattern);
        lemma_one_entry_per_leaf_list(t, t.defs[i].children, syms2, names2);
    }
}

/// Route-list completeness, per sibling list.
pub proof fn lemma_one_entry_per_leaf_list(
    t: RouteTreeSpec,
    idxs: Seq<int>,
    syms: Seq<Seq<u8>>,
    names: Seq<Seq<u8>>,
)
    requires
        tree_wf(t),
        idx_list_wf(idxs, -1, t.defs.len() as int),
    ensures
        route_list_list(t, idxs, syms, names).len() == leaf_count_list(t, idxs),
    decreases t.defs.len() - crate::tree::first_or(idxs, t.defs.len() as int), 1int, idxs.len(),
{
    if idxs.len() == 0 {
    } else {
        lemma_one_entry_per_leaf_at(t, idxs[0], syms, names);
        lemma_idx_list_wf_skip(idxs, -1, t.defs.len() as int, 1);
        assert(idxs.skip(1) =~= idxs.drop_first());
        lemma_one_entry_per_leaf_list(t, idxs.drop_first(), syms, names);
    }
}

/// Route-list completeness: a generation pass over a well-formed tree
/// produces exactly one entry for each leaf route definition.
pub proof fn lemma_route_list_completeness(t: RouteTreeSpec)
    requires
        tree_wf(t),
    ensures
        route_list_spec(t).len() == leaf_count_list(t, t.roots),
{
    lemma_one_entry_per_leaf_list(t, t.roots, Seq::empty(), Seq::empty());
}

/// The symbolic text of each segment of a compiled pattern.
fn pattern_symbols_exec(p: &PathPattern) -> (r: Vec<Vec<u8>>)
    ensures
        r.deep_view() == pattern_symbols(p@),
{
    let mut r: Vec<Vec<u8>> = Vec::new();
    let n = p.len();
    let mut k: usize = 0;
    while k < n
        invariant
            0 <= k <= n,
            n == p@.len(),
            r@.len() == k,
            forall|j: int| 0 <= j < k ==> (#[trigger] r@[j])@ == seg_symbol(p@[j]),
        decreases n - k,
    {
        let sym: Vec<u8> = match p.segment(k) {
            Segment::Static(t) => copy_bytes(t.as_slice()),
            Segment::Param(nm) => {
                let mut s = copy_bytes(nm.as_slice());
                s.insert(0, COLON);
                proof {
                    assert(s@ =~= seq![COLON] + nm@);
                }
                s
            },
            Segment::Wildcard(nm) => {
                let mut s = copy_bytes(nm.as_slice());
                s.insert(0, STAR);
                proof {
                    assert(s@ =~= seq![STAR] + nm@);
                }
                s
            },
        };
        r.push(sym);
        k = k + 1;
    }
    proof {
        assert forall|j: int| 0 <= j < r.deep_view().len() implies r.deep_view()[j]
            == pattern_symbols(p@)[j] by {
            assert(r.deep_view()[j] == r@[j].deep_view());
            assert(r@[j].deep_view() =~= r@[j]@);
        }
        assert(r.deep_view() =~= pattern_symbols(p@));
    }
    r
}

/// The parameter names of a compiled pattern, in declaration order.
fn pattern_param_names_exec(p: &PathPattern) -> (r: Vec<Vec<u8>>)
    ensures
        r.deep_view() == pattern_param_names(p@),
{
    let mut r: Vec<Vec<u8>> = Vec::new();
    let n = p.len();
    let mut k: usize = 0;
    proof {
        assert(p@.skip(0) =~= p@);
        assert(r.deep_view() =~= Seq::<Seq<u8>>::empty());
    }
    while k < n
        invariant
            0 <= k <= n,
            n == p@.len(),
            pattern_param_names(p@) == r.deep_view() + pattern_param_names(p@.skip(k as int)),
        decreases n - k,
    {
        let ghost tail = p@.skip(k as int);
        proof {
            assert(tail[0] == p@[k as int]);
            assert(tail.drop_first() =~= p@.skip(k + 1));
        }
        let ghost pre = r.deep_view();
        match p.segment(k) {
            Segment::Static(_) => {
                proof {
                    assert(seg_names(tail[0]) =~= Seq::<Seq<u8>>::empty());
                    assert(pattern_param_names(tail) =~= pattern_param_names(p@.skip(k + 1)));
                }
            },
            Segment::Param(nm) => {
                let c = copy_bytes(nm.as_slice());
                let ghost cv = c@;
                r.push(c);
                proof {
                    assert forall|j: int| 0 <= j < r@.len() implies r.deep_view()[j] == (pre + seq![
                        cv,
                    ])[j] by {
                        assert(r.deep_view()[j] == r@[j].deep_view());
                        assert(r@[j].deep_view() =~= r@[j]@);
                    }
                    assert(r.deep_view() =~= pre + seq![cv]);
                    assert(pattern_param_names(tail) =~= seq![cv] + pattern_param_names(
                        p@.skip(k + 1),
                    ));
                    assert(pre + (seq![cv] + pattern_param_names(p@.skip(k + 1))) =~= (pre + seq![
                        cv,
                    ]) + pattern_param_names(p@.skip(k + 1)));
                }
            },
            Segment::Wildcard(nm) => {
                let c = copy_bytes(nm.as_slice());
                let ghost cv = c@;
                r.push(c);
                proof {
                    assert forall|j: int| 0 <= j < r@.len() implies r.deep_view()[j] == (pre + seq![
                        cv,
                    ])[j] by {
                        assert(r.deep_view()[j] == r@[j].deep_view());
                        assert(r@[j].deep_view() =~= r@[j]@);
                    }
                    assert(r.deep_view() =~= pre + seq![cv]);
                    assert(pattern_param_names(tail) =~= seq![cv] + pattern_param_names(
                        p@.skip(k + 1),
                    ));
                    assert(pre + (seq![cv] + pattern_param_names(p@.skip(k + 1))) =~= (pre + seq![
                        cv,
                    ]) + pattern_param_names(p@.skip(k + 1)));
                }
            },
        }
        k = k + 1;
    }
    proof {
        assert(p@.skip(n as int) =~= Seq::<SegSpec>::empty());
        assert(r.deep_view() + Seq::<Seq<u8>>::empty() =~= r.deep_view());
    }
    r
}

/// The concatenation of two segment lists, freshly copied.
fn concat_segments(a: &Vec<Vec<u8>>, b: &Vec<Vec<u8>>) -> (r: Vec<Vec<u8>>)
    ensures
        r.deep_view() == a.deep_view() + b.deep_view(),
{
    let mut r = copy_segments_from(a.as_slice(), 0);
    let mut tail = copy_segments_from(b.as_slice(), 0);
    proof {
        assert(a@.skip(0) =~= a@);
    }
    let ghost rv = r.deep_view();
    let ghost tv = tail.deep_view();
    r.append(&mut tail);
    proof {
        assert forall|j: int| 0 <= j < r@.len() implies r.deep_view()[j] == (rv + tv)[j] by {
            assert(r.deep_view()[j] == r@[j].deep_view());
        }
        assert(r.deep_view() =~= rv + tv);
        assert(a.deep_view().skip(0) =~= a.deep_view());
        assert(b.deep_view().skip(0) =~= b.deep_view());
    }
    r
}

impl RouteTree {
    /// Appends the entries of the subtree rooted at definition `i`.
    fn generate_at(
        &self,
        i: usize,
        syms: &Vec<Vec<u8>>,
        names: &Vec<Vec<u8>>,
        out: &mut Vec<RouteListEntry>,
    )
        requires
            self.wf(),
            i < self@.defs.len(),
        ensures
            entries_view(final(out)@) == entries_view(old(out)@) + route_list_at(
                self@,
                i as int,
                syms.deep_view(),
                names.deep_view(),
            ),
        decreases self@.defs.len() - i,
    {
        let ghost t = self@;
        let pat = self.def_pattern(i);
        let psyms = pattern_symbols_exec(pat);
        let pnames = pattern_param_names_exec(pat);
        let syms2 = concat_segments(syms, &psyms);
        let names2 = concat_segments(names, &pnames);
        let ghost gsyms2 = syms.deep_view() + pattern_symbols(t.defs[i as int].pattern);
        let ghost gnames2 = names.deep_view() + pattern_param_names(t.defs[i as int].pattern);
        proof {
            assert(syms2.deep_view() == gsyms2);
            assert(names2.deep_view() == gnames2);
        }
        let c = self.child_count(i);
        if c == 0 {
            let mut path: Vec<u8> = Vec::new();
            path.push(SLASH);
            let mut joined = join_segments_from(syms2.as_slice(), 0);
            proof {
                assert(syms2@.skip(0) =~= syms2@);
                assert(syms2.deep_view().skip(0) =~= syms2.deep_view());
            }
            path.append(&mut joined);
            let entry = RouteListEntry { path, params: names2 };
            proof {
                assert(entry@.path =~= entry_path(gsyms2));
                assert(entry@ =~= RouteListEntrySpec { path: entry_path(gsyms2), params: gnames2 });
            }
            let ghost pre = entries_view(out@);
            out.push(entry);
            proof {
                assert forall|j: int| 0 <= j < out@.len() implies entries_view(out@)[j] == (pre
                    + seq![entry@])[j] by {}
                assert(entries_view(out@) =~= pre + seq![entry@]);
                assert(seq![entry@] =~= route_list_at(t, i as int, syms.deep_view(), names.deep_view()));
            }
        } else {
            let ghost children = t.defs[i as int].children;
            proof {
                assert(idx_list_wf(children, i as int, t.defs.len() as int));
                assert(idx_list_wf(children, -1, t.defs.len() as int));
                assert(children.skip(0) =~= children);
            }
            let ghost start = entries_view(out@);
            let mut j: usize = 0;
            while j < c
                invariant
                    self.wf(),
                    t == self@,
                    i < t.defs.len(),
                    0 <= j <= c,
                    c == t.defs[i as int].children.len(),
                    children == t.defs[i as int].children,
                    idx_list_wf(children, i as int, t.defs.len() as int),
                    idx_list_wf(children, -1, t.defs.len() as int),
                    gsyms2 == syms2.deep_view(),
                    gnames2 == names2.deep_view(),
                    start + route_list_list(t, children, gsyms2, gnames2) == entries_view(out@)
                        + route_list_list(t, children.skip(j as int), gsyms2, gnames2),
                decreases c - j,
            {
                let ch = self.child(i, j);
                let ghost pre = entries_view(out@);
                proof {
                    assert(children[j as int] == ch as int);
                    assert((i as int) < children[j as int] < t.defs.len() as int);
                    lemma_idx_list_wf_skip(children, -1, t.defs.len() as int, j as int);
                    assert(children.skip(j as int)[0] == children[j as int]);
                    assert(children.skip(j as int).drop_first() =~= children.skip(j + 1));
                }
                self.generate_at(ch, &syms2, &names2, out);
                proof {
                    let sub_entries = route_list_at(t, ch as int, gsyms2, gnames2);
                    assert(route_list_list(t, children.skip(j as int), gsyms2, gnames2) == sub_entries
                        + route_list_list(t, children.skip(j + 1), gsyms2, gnames2));
                    assert(pre + (sub_entries + route_list_list(t, children.skip(j + 1), gsyms2, gnames2))
                        =~= (pre + sub_entries) + route_list_list(t, children.skip(j + 1), gsyms2, gnames2));
                }
                j = j + 1;
            }
            proof {
                assert(children.skip(c as int) =~= Seq::<int>::empty());
                assert(entries_view(out@) + Seq::<RouteListEntrySpec>::empty() =~= entries_view(
                    out@,
                ));
            }
        }
    }

    /// Enumerates every entry the tree can produce, one per leaf, in
    /// depth-first declaration order, with parameter and wildcard segments
    /// emitted as symbolic placeholders.
    pub fn generate_route_list(&self) -> (r: Vec<RouteListEntry>)
        requires
            self.wf(),
        ensures
            entries_view(r@) == route_list_spec(self@),
    {
        let ghost t = self@;
        let mut out: Vec<RouteListEntry> = Vec::new();
        let syms: Vec<Vec<u8>> = Vec::new();
        let names: Vec<Vec<u8>> = Vec::new();
        proof {
            assert(idx_list_wf(t.roots, -1, t.defs.len() as int));
            assert(t.roots.skip(0) =~= t.roots);
            assert(syms.deep_view() =~= Seq::<Seq<u8>>::empty());
            assert(names.deep_view() =~= Seq::<Seq<u8>>::empty());
            assert(entries_view(out@) =~= Seq::<RouteListEntrySpec>::empty());
        }
        let n = self.root_count();
        let mut j: usize = 0;
        while j < n
            invariant
                self.wf(),
                t == self@,
                0 <= j <= n,
                n == t.roots.len(),
                syms.deep_view() == Seq::<Seq<u8>>::empty(),
                names.deep_view() == Seq::<Seq<u8>>::empty(),
                idx_list_wf(t.roots, -1, t.defs.len() as int),
                route_list_list(t, t.roots, Seq::empty(), Seq::empty()) == entries_view(out@)
                    + route_list_list(t, t.roots.skip(j as int), Seq::empty(), Seq::empty()),
            decreases n - j,
        {
            let ch = self.root(j);
            let ghost pre = entries_view(out@);
            proof {
                assert(t.roots[j as int] == ch as int);
                assert(-1 < t.roots[j as int] < t.defs.len() as int);
                lemma_idx_list_wf_skip(t.roots, -1, t.defs.len() as int, j as int);
                assert(t.roots.skip(j as int)[0] == t.roots[j as int]);
                assert(t.roots.skip(j as int).drop_first() =~= t.roots.skip(j + 1));
            }
            self.generate_at(ch, &syms, &names, &mut out);
            proof {
                let sub_entries = route_list_at(t, ch as int, Seq::empty(), Seq::empty());
                assert(route_list_list(t, t.roots.skip(j as int), Seq::empty(), Seq::empty())
                    == sub_entries + route_list_list(t, t.roots.skip(j + 1), Seq::empty(), Seq::empty()));
                assert(pre + (sub_entries + route_list_list(t, t.roots.skip(j + 1), Seq::empty(), Seq::empty()))
                    =~= (pre + sub_entries) + route_list_list(t, t.roots.skip(j + 1), Seq::empty(), Seq::empty()));
            }
            j = j + 1;
        }
        proof {
            assert(t.roots.skip(n as int) =~= Seq::<int>::empty());
            assert(entries_view(out@) + Seq::<RouteListEntrySpec>::empty() =~= entries_view(out@));
        }
        out
    }
}

/// The explicitly passed route-list generation context: whether a pass is
/// running, and the accumulator the pass fills. A pass resets the
/// accumulator at its start and must not run concurrently with another
/// pass or with request serving against the same accumulator.
#[derive(Debug)]
pub struct RouteListContext {
    /// Whether a generation pass is running.
    pub generating: bool,
    /// The entries collected by the current pass.
    pub entries: Vec<RouteListEntry>,
}

impl RouteListContext {
    /// A context that has begun a generation pass, with a fresh
    /// accumulator.
    pub fn new_pass() -> (r: RouteListContext)
        ensures
            r.generating,
            r.entries@.len() == 0,
    {
        RouteListContext { generating: true, entries: Vec::new() }
    }

    /// A context outside any generation pass.
    pub fn inactive() -> (r: RouteListContext)
        ensures
            !r.generating,
            r.entries@.len() == 0,
    {
        RouteListContext { generating: false, entries: Vec::new() }
    }
}

impl Router {
    /// Registers the router's route list with a generation pass: when the
    /// context is generating, the accumulator is replaced by this route
    /// tree's full entry list; outside a pass nothing happens. Rendering
    /// entry points call this instead of producing output while a pass is
    /// running.
    pub fn register_route_list(&self, ctx: &mut RouteListContext)
        requires
            self.wf(),
        ensures
            final(ctx).generating == old(ctx).generating,
            old(ctx).generating ==> entries_view(final(ctx).entries@) == route_list_spec(
                self@.routes,
            ),
            !old(ctx).generating ==> final(ctx).entries == old(ctx).entries,
    {
        if ctx.generating {
            ctx.entries = self.routes_tree().generate_route_list();
        }
    }
}

} // verus!
