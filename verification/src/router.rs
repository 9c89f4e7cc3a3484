//! The router and its render-state machine.
//!
//! A router composes a location, a route tree, and a fallback view handle.
//! Routing a URL yields one of two branches: `Matched`, when a route claims
//! the whole path, or `Fallback`, when none does or when the location could
//! not be converted to a URL (that failure is recovered locally and is
//! indistinguishable from "no route matched" at the render-state level).
//! The machine supports building fresh state, rebuilding it in place after
//! navigation (reusing the platform resource when the branch is unchanged,
//! tearing it down and allocating fresh when the branch changed), hydrating
//! state onto markup produced elsewhere, and serializing state to markup.

use vstd::prelude::*;
use crate::path::split_spec;
use crate::path::split_path;
use crate::matcher::params_view;
use crate::tree::{RouteTree, RouteTreeSpec, RouteMatchSpec, match_route_spec, tree_wf};

verus! {

/// A structured URL: a path and an ordered query mapping.
#[derive(Debug)]
pub struct Url {
    /// The path part, as bytes, query string already stripped.
    pub path: Vec<u8>,
    /// The query parameters, in order of appearance.
    pub search_params: Vec<(Vec<u8>, Vec<u8>)>,
}

/// Mathematical model of a structured URL.
pub struct UrlSpec {
    /// The path part.
    pub path: Seq<u8>,
    /// The query parameters, in order of appearance.
    pub query: Seq<(Seq<u8>, Seq<u8>)>,
}

impl View for Url {
    type V = UrlSpec;

    open spec fn view(&self) -> UrlSpec {
        UrlSpec { path: self.path@, query: params_view(self.search_params@) }
    }
}

/// The failure of converting a location into a structured URL.
#[derive(Clone, Copy, PartialEq, Eq, Structural, Debug)]
pub enum LocationError {
    /// The current location is not a well-formed URL.
    MalformedUrl,
}

/// Where the application currently is: a resolved URL, or a conversion
/// failure handed over by the platform location capability.
#[derive(Debug)]
pub enum Location {
    /// The current URL, already converted to structured form.
    Known(Url),
    /// The conversion failed; routing resolves this to the fallback.
    Invalid,
}

/// Mathematical model of a location.
pub enum LocationSpec {
    /// A resolved current URL.
    Known(UrlSpec),
    /// A failed URL conversion.
    Invalid,
}

impl View for Location {
    type V = LocationSpec;

    open spec fn view(&self) -> LocationSpec {
        match self {
            Location::Known(u) => LocationSpec::Known(u@),
            Location::Invalid => LocationSpec::Invalid,
        }
    }
}

/// The two outcomes of routing a URL.
#[derive(Clone, Copy, PartialEq, Eq, Structural, Debug)]
pub enum Branch {
    /// A route claimed the full path.
    Matched,
    /// No route did, or the location was malformed.
    Fallback,
}

/// Mathematical model of a router.
pub struct RouterSpec {
    /// An optional base path, stored for the application's use.
    pub base: Option<Seq<u8>>,
    /// The current location.
    pub location: LocationSpec,
    /// The route tree, built once and then read-only.
    pub routes: RouteTreeSpec,
    /// The opaque view handle the fallback produces.
    pub fallback_id: u64,
}

/// The route selection the router makes for its current location:
/// `Some` exactly when the location resolved and a route claimed the
/// whole path; `None` resolves to the fallback branch.
pub open spec fn router_selection(r: RouterSpec) -> Option<RouteMatchSpec> {
    match r.location {
        LocationSpec::Known(url) => match_route_spec(r.routes, split_spec(url.path)),
        LocationSpec::Invalid => None,
    }
}

/// The branch a selection resolves to.
pub open spec fn selection_branch(s: Option<RouteMatchSpec>) -> Branch {
    match s {
        Some(_) => Branch::Matched,
        None => Branch::Fallback,
    }
}

/// The view handles the selected branch renders, in document order:
/// the matched chain from outermost layout to leaf, or the fallback handle.
pub open spec fn selection_views(s: Option<RouteMatchSpec>, fallback_id: u64) -> Seq<u64> {
    match s {
        Some(m) => m.view_ids,
        None => seq![fallback_id],
    }
}

/// The parameter-derived content of the selected branch.
pub open spec fn selection_params(s: Option<RouteMatchSpec>) -> Seq<(Seq<u8>, Seq<u8>)> {
    match s {
        Some(m) => m.params,
        None => Seq::empty(),
    }
}

/// An allocator of platform-node identities. Each identity stands for one
/// platform resource owned by a render-state branch; identities of
/// discarded branches are handed back through `release`, so resource
/// teardown is observable.
#[derive(Debug)]
pub struct NodeAlloc {
    /// The next unused node identity.
    pub next: u64,
    /// The identities of resources that were torn down, in teardown order.
    pub released: Vec<u64>,
}

impl NodeAlloc {
    /// A fresh allocator.
    pub fn new() -> (r: NodeAlloc)
        ensures
            r.next == 0,
            r.released@.len() == 0,
    {
        NodeAlloc { next: 0, released: Vec::new() }
    }

    /// Hands out the next node identity.
    pub fn fresh(&mut self) -> (r: u64)
        requires
            old(self).next < u64::MAX,
        ensures
            r == old(self).next,
            final(self).next == old(self).next + 1,
            final(self).released == old(self).released,
    {
        let r = self.next;
        self.next = self.next + 1;
        r
    }

    /// Records that the platform resource behind `id` was torn down.
    pub fn release(&mut self, id: u64)
        ensures
            final(self).next == old(self).next,
            final(self).released@ == old(self).released@.push(id),
    {
        self.released.push(id);
    }
}

/// The long-lived render state of a router: which branch was chosen, the
/// identity of the platform resource that branch owns, the view structure
/// it renders, and its parameter-derived content.
#[derive(Debug)]
pub struct RenderState {
    /// The chosen branch.
    pub branch: Branch,
    /// The identity of the platform resource the branch owns.
    pub node_id: u64,
    /// The rendered view handles, in document order.
    pub view_ids: Vec<u64>,
    /// The parameter-derived content (empty on the fallback branch).
    pub params: Vec<(Vec<u8>, Vec<u8>)>,
    /// Whether this state was attached to existing markup.
    pub hydrated: bool,
}

/// The render state `state` is exactly what selection `s` of router `r`
/// prescribes, apart from where its platform resource came from.
pub open spec fn state_matches_selection(state: RenderState, r: RouterSpec) -> bool {
    &&& state.branch == selection_branch(router_selection(r))
    &&& state.view_ids@ == selection_views(router_selection(r), r.fallback_id)
    &&& params_view(state.params@) == selection_params(router_selection(r))
}

/// Serialized markup with its hydration-cursor scheme: the root resource
/// identity and the rendered view handles in document order. The marker
/// format is order-stable: serializing the same state twice yields the
/// same markup.
#[derive(Debug)]
pub struct Markup {
    /// The identity of the platform resource the markup's root represents.
    pub root_id: u64,
    /// The rendered view handles, in document order.
    pub view_ids: Vec<u64>,
}

/// A hydration cursor: an explicit position over the linearized markup,
/// not a live pointer that mutates the tree as it walks.
#[derive(Debug)]
pub struct HydrationCursor {
    /// The next unconsumed position in the markup's view sequence.
    pub pos: usize,
}

/// A hydration failure: the markup is shaped differently than what the
/// current route selection would produce. This is a programming-contract
/// violation (server and client disagreed on route state); the recommended
/// recovery is to discard the markup and build from scratch.
#[derive(Clone, Copy, PartialEq, Eq, Structural, Debug)]
pub enum HydrationError {
    /// The cursor-driven walk met markup that does not match the selection.
    Mismatch,
}

/// Whether the markup, walked from `pos`, carries exactly the view
/// structure `expected` that the current selection would render.
pub open spec fn hydrate_accepts(markup_views: Seq<u64>, pos: int, expected: Seq<u64>) -> bool {
    &&& pos + expected.len() <= markup_views.len()
    &&& markup_views.subrange(pos, pos + expected.len() as int) == expected
}

/// A router: a location, an exclusively-owned route tree, and a fallback
/// view handle, exposing the render-state machine and route-list
/// generation. The fallback is rendered if and only if no route fully
/// matches the current URL or the location is malformed.
pub struct Router {
    base: Option<Vec<u8>>,
    location: Location,
    routes: RouteTree,
    fallback_id: u64,
}

impl View for Router {
    type V = RouterSpec;

    closed spec fn view(&self) -> RouterSpec {
        RouterSpec {
            base: match self.base {
                Some(b) => Some(b@),
                None => None,
            },
            location: self.location@,
            routes: self.routes@,
            fallback_id: self.fallback_id,
        }
    }
}

impl Router {
    /// The router invariant: its route tree is well formed.
    pub open spec fn wf(&self) -> bool {
        tree_wf(self@.routes)
    }

    /// A router without a base path.
    pub fn new(location: Location, routes: RouteTree, fallback_id: u64) -> (r: Router)
        requires
            tree_wf(routes@),
        ensures
            r.wf(),
            r@ == (RouterSpec {
                base: None,
                location: location@,
                routes: routes@,
                fallback_id,
            }),
    {
        Router { base: None, location, routes, fallback_id }
    }

    /// A router with a base path.
    pub fn new_with_base(
        base: Vec<u8>,
        location: Location,
        routes: RouteTree,
        fallback_id: u64,
    ) -> (r: Router)
        requires
            tree_wf(routes@),
        ensures
            r.wf(),
            r@ == (RouterSpec {
                base: Some(base@),
                location: location@,
                routes: routes@,
                fallback_id,
            }),
    {
        Router { base: Some(base), location, routes, fallback_id }
    }

    /// Replaces the current location, leaving everything else unchanged.
    pub fn set_location(&mut self, new_location: Location)
        ensures
            final(self)@ == (RouterSpec { location: new_location@, ..old(self)@ }),
            final(self).wf() == old(self).wf(),
    {
        self.location = new_location;
    }

    /// The router's base path, when one was set.
    pub fn base(&self) -> (r: &Option<Vec<u8>>)
        ensures
            match r {
                Some(b) => self@.base == Some(b@),
                None => self@.base is None,
            },
    {
        &self.base
    }

    /// Shared read access to the route tree.
    pub fn routes_tree(&self) -> (r: &RouteTree)
        ensures
            r@ == self@.routes,
    {
        &self.routes
    }

    /// The fallback view handle.
    pub fn fallback(&self) -> (r: u64)
        ensures
            r == self@.fallback_id,
    {
        self.fallback_id
    }

    /// The route selection for the current location, or `None` when the
    /// fallback branch is chosen.
    fn select(&self) -> (r: Option<crate::tree::RouteMatch>)
        requires
            self.wf(),
        ensures
            match r {
                Some(m) => router_selection(self@) == Some(m@),
                None => router_selection(self@) is None,
            },
    {
        match &self.location {
            Location::Known(url) => {
                let segs = split_path(url.path.as_slice());
                self.routes.match_route(segs.as_slice())
            },
            Location::Invalid => None,
        }
    }

    /// Builds fresh render state for the current location: resolves the
    /// URL, runs the matcher, selects the matched or fallback branch, and
    /// constructs that branch's state around a freshly allocated platform
    /// resource.
    pub fn build(&self, alloc: &mut NodeAlloc) -> (s: RenderState)
        requires
            self.wf(),
            old(alloc).next < u64::MAX,
        ensures
            state_matches_selection(s, self@),
            s.node_id == old(alloc).next,
            final(alloc).next == old(alloc).next + 1,
            final(alloc).released == old(alloc).released,
            !s.hydrated,
    {
        let node_id = alloc.fresh();
        match self.select() {
            Some(m) => RenderState {
                branch: Branch::Matched,
                node_id,
                view_ids: m.view_ids,
                params: m.params,
                hydrated: false,
            },
            None => {
                let mut view_ids: Vec<u64> = Vec::new();
                view_ids.push(self.fallback_id);
                let s = RenderState {
                    branch: Branch::Fallback,
                    node_id,
                    view_ids,
                    params: Vec::new(),
                    hydrated: false,
                };
                proof {
                    assert(s.view_ids@ =~= seq![self@.fallback_id]);
                    assert(params_view(s.params@) =~= Seq::<(Seq<u8>, Seq<u8>)>::empty());
                }
                s
            },
        }
    }

    /// Rebuilds existing render state after the location changed: re-runs
    /// the matcher, and, when the chosen branch is unchanged, updates the
    /// state in place, keeping the platform resource identity and touching
    /// only parameter-derived content. When the branch changed, the old
    /// branch's resource is discarded and the new branch is built fresh.
    pub fn rebuild(&self, state: &mut RenderState, alloc: &mut NodeAlloc)
        requires
            self.wf(),
            old(alloc).next < u64::MAX,
        ensures
            state_matches_selection(*final(state), self@),
            if selection_branch(router_selection(self@)) == old(state).branch {
                &&& final(state).node_id == old(state).node_id
                &&& final(state).hydrated == old(state).hydrated
                &&& *final(alloc) == *old(alloc)
            } else {
                &&& final(state).node_id == old(alloc).next
                &&& !final(state).hydrated
                &&& final(alloc).next == old(alloc).next + 1
                &&& final(alloc).released@ == old(alloc).released@.push(old(state).node_id)
            },
    {
        match self.select() {
            Some(m) => {
                if state.branch == Branch::Matched {
                    state.view_ids = m.view_ids;
                    state.params = m.params;
                } else {
                    alloc.release(state.node_id);
                    let node_id = alloc.fresh();
                    *state = RenderState {
                        branch: Branch::Matched,
                        node_id,
                        view_ids: m.view_ids,
                        params: m.params,
                        hydrated: false,
                    };
                }
            },
            None => {
                let mut view_ids: Vec<u64> = Vec::new();
                view_ids.push(self.fallback_id);
                proof {
                    assert(view_ids@ =~= seq![self@.fallback_id]);
                }
                if state.branch == Branch::Fallback {
                    state.view_ids = view_ids;
                    state.params = Vec::new();
                } else {
                    alloc.release(state.node_id);
                    let node_id = alloc.fresh();
                    *state = RenderState {
                        branch: Branch::Fallback,
                        node_id,
                        view_ids,
                        params: Vec::new(),
                        hydrated: false,
                    };
                }
                proof {
                    assert(params_view(final(state).params@) =~= Seq::<(Seq<u8>, Seq<u8>)>::empty());
                }
            },
        }
    }

    /// The fallible form of `build`: where `build` recovers a malformed
    /// location by selecting the fallback branch, this form surfaces the
    /// conversion failure to the caller instead and builds nothing.
    pub fn try_build(&self, alloc: &mut NodeAlloc) -> (r: Result<RenderState, LocationError>)
        requires
            self.wf(),
            old(alloc).next < u64::MAX,
        ensures
            match r {
                Ok(s) => {
                    &&& !(self@.location is Invalid)
                    &&& state_matches_selection(s, self@)
                    &&& s.node_id == old(alloc).next
                    &&& final(alloc).next == old(alloc).next + 1
                    &&& final(alloc).released == old(alloc).released
                    &&& !s.hydrated
                },
                Err(e) => {
                    &&& self@.location is Invalid
                    &&& e == LocationError::MalformedUrl
                    &&& *final(alloc) == *old(alloc)
                },
            },
    {
        match &self.location {
            Location::Invalid => Err(LocationError::MalformedUrl),
            Location::Known(_) => Ok(self.build(alloc)),
        }
    }

    /// The fallible form of `rebuild`: surfaces a malformed location to
    /// the caller and leaves the state untouched, instead of resolving it
    /// to the fallback branch.
    pub fn try_rebuild(&self, state: &mut RenderState, alloc: &mut NodeAlloc) -> (r: Result<
        (),
        LocationError,
    >)
        requires
            self.wf(),
            old(alloc).next < u64::MAX,
        ensures
            match r {
                Ok(_) => {
                    &&& !(self@.location is Invalid)
                    &&& state_matches_selection(*final(state), self@)
                    &&& if selection_branch(router_selection(self@)) == old(state).branch {
                        &&& final(state).node_id == old(state).node_id
                        &&& *final(alloc) == *old(alloc)
                    } else {
                        &&& final(state).node_id == old(alloc).next
                        &&& final(alloc).next == old(alloc).next + 1
                        &&& final(alloc).released@ == old(alloc).released@.push(
                            old(state).node_id,
                        )
                    }
                },
                Err(e) => {
                    &&& self@.location is Invalid
                    &&& e == LocationError::MalformedUrl
                    &&& *final(state) == *old(state)
                    &&& *final(alloc) == *old(alloc)
                },
            },
    {
        match &self.location {
            Location::Invalid => Err(LocationError::MalformedUrl),
            Location::Known(_) => {
                self.rebuild(state, alloc);
                Ok(())
            },
        }
    }

    /// Serializes render state to markup: the root resource identity and
    /// the view handles in document order, with the hydration markers that
    /// let a client walk it back in the same order.
    pub fn to_markup(&self, state: &RenderState) -> (m: Markup)
        ensures
            m.root_id == state.node_id,
            m.view_ids@ == state.view_ids@,
    {
        let mut view_ids: Vec<u64> = Vec::new();
        let mut i: usize = 0;
        while i < state.view_ids.len()
            invariant
                0 <= i <= state.view_ids@.len(),
                view_ids@ == state.view_ids@.take(i as int),
            decreases state.view_ids@.len() - i,
        {
            view_ids.push(state.view_ids[i]);
            proof {
                assert(state.view_ids@.take(i as int).push(state.view_ids@[i as int])
                    =~= state.view_ids@.take(i + 1));
            }
            i = i + 1;
        }
        proof {
            assert(state.view_ids@.take(state.view_ids@.len() as int) =~= state.view_ids@);
        }
        Markup { root_id: state.node_id, view_ids }
    }

    /// Hydrates: re-runs the matcher exactly as `build` would, then walks
    /// the existing markup from the cursor in document order and attaches
    /// live behavior to it instead of creating platform resources. The
    /// resulting state owns the markup's root resource. When the markup is
    /// shaped differently than the selection would render, the mismatch is
    /// surfaced and nothing is consumed; the caller should then discard
    /// the markup and build from scratch.
    pub fn hydrate(&self, markup: &Markup, cursor: &mut HydrationCursor) -> (r: Result<
        RenderState,
        HydrationError,
    >)
        requires
            self.wf(),
        ensures
            match r {
                Ok(s) => {
                    &&& hydrate_accepts(
                        markup.view_ids@,
                        old(cursor).pos as int,
                        selection_views(router_selection(self@), self@.fallback_id),
                    )
                    &&& state_matches_selection(s, self@)
                    &&& s.node_id == markup.root_id
                    &&& s.hydrated
                    &&& final(cursor).pos == old(cursor).pos + selection_views(
                        router_selection(self@),
                        self@.fallback_id,
                    ).len()
                },
                Err(e) => {
                    &&& !hydrate_accepts(
                        markup.view_ids@,
                        old(cursor).pos as int,
                        selection_views(router_selection(self@), self@.fallback_id),
                    )
                    &&& e == HydrationError::Mismatch
                    &&& *final(cursor) == *old(cursor)
                },
            },
    {
        let ghost expected = selection_views(router_selection(self@), self@.fallback_id);
        let (branch, view_ids, params) = match self.select() {
            Some(m) => (Branch::Matched, m.view_ids, m.params),
            None => {
                let mut view_ids: Vec<u64> = Vec::new();
                view_ids.push(self.fallback_id);
                proof {
                    assert(view_ids@ =~= seq![self@.fallback_id]);
                }
                (Branch::Fallback, view_ids, Vec::new())
            },
        };
        proof {
            assert(view_ids@ == expected);
        }
        let n = view_ids.len();
        let start = cursor.pos;
        if n > markup.view_ids.len() || start > markup.view_ids.len() - n {
            return Err(HydrationError::Mismatch);
        }
        let mut i: usize = 0;
        while i < n
            invariant
                0 <= i <= n,
                n == view_ids@.len(),
                start + n <= markup.view_ids@.len(),
                markup.view_ids@.len() <= usize::MAX,
                start == old(cursor).pos,
                view_ids@ == expected,
                expected == selection_views(router_selection(self@), self@.fallback_id),
                forall|k: int|
                    0 <= k < i ==> markup.view_ids@[start + k] == #[trigger] view_ids@[k],
            decreases n - i,
        {
            if markup.view_ids[start + i] != view_ids[i] {
                proof {
                    if hydrate_accepts(markup.view_ids@, start as int, expected) {
                        assert(markup.view_ids@.subrange(start as int, start + n as int)[i as int]
                            == expected[i as int]);
                    }
                }
                return Err(HydrationError::Mismatch);
            }
            i = i + 1;
        }
        proof {
            assert(markup.view_ids@.subrange(start as int, start + n as int) =~= view_ids@);
        }
        cursor.pos = start + n;
        let s = RenderState { branch, node_id: markup.root_id, view_ids, params, hydrated: true };
        proof {
            if router_selection(self@) is None {
                assert(params_view(s.params@) =~= Seq::<(Seq<u8>, Seq<u8>)>::empty());
            }
        }
        Ok(s)
    }
}

/// What one navigation produced: the extracted parameters (insertion
/// order is declaration order, inner names shadow outer ones on lookup),
/// the matched sub-path, and the query mapping of the URL. Created fresh
/// per navigation and discarded when the next match replaces it.
#[derive(Debug)]
pub struct MatchedRoute {
    /// The merged extracted parameters, outer levels first.
    pub params: Vec<(Vec<u8>, Vec<u8>)>,
    /// The matched sub-path: on a full match, the URL's whole path.
    pub matched: Vec<u8>,
    /// The query parameters of the URL, in order of appearance.
    pub search_params: Vec<(Vec<u8>, Vec<u8>)>,
}

impl Router {
    /// The matched route of the current navigation: `Some` exactly when
    /// the location resolved and a route claimed the whole path.
    pub fn matched_route(&self) -> (r: Option<MatchedRoute>)
        requires
            self.wf(),
        ensures
            match r {
                Some(m) => {
                    &&& router_selection(self@) is Some
                    &&& self@.location is Known
                    &&& params_view(m.params@) == selection_params(router_selection(self@))
                    &&& m.matched@ == self@.location->Known_0.path
                    &&& params_view(m.search_params@) == self@.location->Known_0.query
                },
                None => router_selection(self@) is None,
            },
    {
        match &self.location {
            Location::Invalid => None,
            Location::Known(url) => {
                let segs = split_path(url.path.as_slice());
                match self.routes.match_route(segs.as_slice()) {
                    None => None,
                    Some(m) => Some(
                        MatchedRoute {
                            params: m.params,
                            matched: crate::path::copy_bytes(url.path.as_slice()),
                            search_params: crate::matcher::copy_pairs(url.search_params.as_slice()),
                        },
                    ),
                }
            },
        }
    }
}

/// One chunk of a streamed response.
#[derive(Clone, Copy, PartialEq, Eq, Structural, Debug)]
pub enum StreamChunk {
    /// A placeholder for a view, emitted immediately in document order.
    Placeholder(u64),
    /// The view's real content, back-filled when it became ready.
    Content(u64),
}

/// The chunk sequence of an out-of-order stream: one placeholder per
/// selected view, in declaration order, followed by one content chunk per
/// readiness event, in arrival order.
pub open spec fn stream_plan_spec(views: Seq<u64>, arrival: Seq<usize>) -> Seq<StreamChunk> {
    Seq::new(views.len(), |k: int| StreamChunk::Placeholder(views[k])) + Seq::new(
        arrival.len(),
        |k: int| StreamChunk::Content(views[arrival[k] as int]),
    )
}

/// Plans an out-of-order stream: every selected view gets a placeholder
/// immediately, in declaration order, and real content is back-filled in
/// the order the upstream data resolved (`arrival` carries the view
/// indices in readiness order), without blocking faster siblings.
pub fn stream_plan(views: &[u64], arrival: &[usize]) -> (r: Vec<StreamChunk>)
    requires
        forall|k: int| 0 <= k < arrival@.len() ==> #[trigger] arrival@[k] < views@.len(),
    ensures
        r@ == stream_plan_spec(views@, arrival@),
{
    let mut r: Vec<StreamChunk> = Vec::new();
    let n = views.len();
    let mut i: usize = 0;
    while i < n
        invariant
            0 <= i <= n,
            n == views@.len(),
            r@.len() == i,
            forall|k: int| 0 <= k < i ==> r@[k] == StreamChunk::Placeholder(views@[k]),
        decreases n - i,
    {
        r.push(StreamChunk::Placeholder(views[i]));
        i = i + 1;
    }
    let m = arrival.len();
    let mut j: usize = 0;
    while j < m
        invariant
            0 <= j <= m,
            m == arrival@.len(),
            n == views@.len(),
            forall|k: int| 0 <= k < m ==> #[trigger] arrival@[k] < views@.len(),
            r@.len() == n + j,
            forall|k: int| 0 <= k < n ==> r@[k] == StreamChunk::Placeholder(views@[k]),
            forall|k: int|
                0 <= k < j ==> r@[n + k] == StreamChunk::Content(views@[arrival@[k] as int]),
        decreases m - j,
    {
        r.push(StreamChunk::Content(views[arrival[j]]));
        j = j + 1;
    }
    proof {
        assert(r@ =~= stream_plan_spec(views@, arrival@));
    }
    r
}

/// Sibling order is preserved in the placeholder stream: whatever order
/// the real content resolves in, the placeholder prefix of the stream is
/// the declaration-order view sequence, unchanged.
pub proof fn lemma_stream_placeholder_order(views: Seq<u64>, a1: Seq<usize>, a2: Seq<usize>)
    ensures
        stream_plan_spec(views, a1).take(views.len() as int) == stream_plan_spec(views, a2).take(
            views.len() as int,
        ),
{
    assert(stream_plan_spec(views, a1).take(views.len() as int) =~= Seq::new(
        views.len(),
        |k: int| StreamChunk::Placeholder(views[k]),
    ));
    assert(stream_plan_spec(views, a2).take(views.len() as int) =~= Seq::new(
        views.len(),
        |k: int| StreamChunk::Placeholder(views[k]),
    ));
}

impl Router {
    /// Serializes the chosen branch's markup as an out-of-order stream:
    /// the same branch selection as `build`, with a placeholder emitted
    /// immediately for each view in document order and the real content
    /// back-filled in readiness order.
    pub fn to_stream(&self, state: &RenderState, arrival: &[usize]) -> (r: Vec<StreamChunk>)
        requires
            forall|k: int| 0 <= k < arrival@.len() ==> #[trigger] arrival@[k] < state.view_ids@.len(),
        ensures
            r@ == stream_plan_spec(state.view_ids@, arrival@),
    {
        stream_plan(state.view_ids.as_slice(), arrival)
    }
}

/// Hydration equivalence: for any route selection, markup serialized from
/// the state `build` produces is accepted by `hydrate` from position zero,
/// and the view structure hydration attaches is exactly the view structure
/// `build` would produce standalone.
pub proof fn lemma_hydration_equivalence(r: RouterSpec, built: RenderState)
    requires
        state_matches_selection(built, r),
    ensures
        hydrate_accepts(
            built.view_ids@,
            0,
            selection_views(router_selection(r), r.fallback_id),
        ),
        forall|hydrated: RenderState|
            state_matches_selection(hydrated, r) ==> hydrated.branch == built.branch
                && hydrated.view_ids@ == built.view_ids@ && params_view(hydrated.params@)
                == params_view(built.params@),
{
    let expected = selection_views(router_selection(r), r.fallback_id);
    assert(built.view_ids@.subrange(0, expected.len() as int) =~= expected);
}

} // verus!
