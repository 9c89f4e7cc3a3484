use routing::{
    Branch, HydrationCursor, HydrationError, Location, LocationError, NodeAlloc, PathPattern,
    RouteListContext, RouteTree, Router, StreamChunk, Url,
};

fn pat(s: &str) -> PathPattern {
    PathPattern::parse(s.as_bytes()).expect("pattern should compile")
}

fn url(path: &str) -> Location {
    Location::Known(Url {
        path: path.as_bytes().to_vec(),
        search_params: Vec::new(),
    })
}

fn user_router() -> Router {
    let mut tree = RouteTree::new();
    tree.add_route(None, pat("/users/:id"), 7);
    Router::new(url("/users/1"), tree, 99)
}

#[test]
fn build_selects_matched_branch() {
    let router = user_router();
    let mut alloc = NodeAlloc::new();
    let state = router.build(&mut alloc);
    assert_eq!(state.branch, Branch::Matched);
    assert_eq!(state.view_ids, vec![7]);
    assert_eq!(state.params, vec![(b"id".to_vec(), b"1".to_vec())]);
    assert!(!state.hydrated);
    assert_eq!(state.node_id, 0);
    assert_eq!(alloc.next, 1);
}

#[test]
fn no_match_selects_fallback_not_error() {
    let mut router = user_router();
    router.set_location(url("/about"));
    let mut alloc = NodeAlloc::new();
    let state = router.build(&mut alloc);
    assert_eq!(state.branch, Branch::Fallback);
    assert_eq!(state.view_ids, vec![99]);
    assert!(state.params.is_empty());
}

#[test]
fn malformed_location_selects_fallback() {
    let mut router = user_router();
    router.set_location(Location::Invalid);
    let mut alloc = NodeAlloc::new();
    let state = router.build(&mut alloc);
    assert_eq!(state.branch, Branch::Fallback);
    assert_eq!(state.view_ids, vec![99]);
}

#[test]
fn try_build_surfaces_malformed_location() {
    let mut router = user_router();
    router.set_location(Location::Invalid);
    let mut alloc = NodeAlloc::new();
    assert_eq!(router.try_build(&mut alloc).unwrap_err(), LocationError::MalformedUrl);
    router.set_location(url("/users/3"));
    let state = router.try_build(&mut alloc).expect("should build");
    assert_eq!(state.branch, Branch::Matched);
    assert_eq!(state.params, vec![(b"id".to_vec(), b"3".to_vec())]);
}

#[test]
fn rebuild_reuses_state_across_same_branch_navigation() {
    let mut router = user_router();
    let mut alloc = NodeAlloc::new();
    let mut state = router.build(&mut alloc);
    let first_node = state.node_id;
    assert_eq!(state.params, vec![(b"id".to_vec(), b"1".to_vec())]);

    router.set_location(url("/users/2"));
    router.rebuild(&mut state, &mut alloc);
    assert_eq!(state.branch, Branch::Matched);
    assert_eq!(state.node_id, first_node);
    assert_eq!(state.params, vec![(b"id".to_vec(), b"2".to_vec())]);

    assert!(alloc.released.is_empty());

    router.set_location(url("/about"));
    router.rebuild(&mut state, &mut alloc);
    assert_eq!(state.branch, Branch::Fallback);
    assert_ne!(state.node_id, first_node);
    assert_eq!(state.view_ids, vec![99]);
    assert_eq!(alloc.released, vec![first_node]);

    let fallback_node = state.node_id;
    router.set_location(url("/users/5"));
    router.rebuild(&mut state, &mut alloc);
    assert_eq!(state.branch, Branch::Matched);
    assert_ne!(state.node_id, fallback_node);
    assert_eq!(state.params, vec![(b"id".to_vec(), b"5".to_vec())]);
    assert_eq!(alloc.released, vec![first_node, fallback_node]);
}

#[test]
fn try_rebuild_keeps_state_on_malformed_location() {
    let mut router = user_router();
    let mut alloc = NodeAlloc::new();
    let mut state = router.build(&mut alloc);
    router.set_location(Location::Invalid);
    assert_eq!(
        router.try_rebuild(&mut state, &mut alloc).unwrap_err(),
        LocationError::MalformedUrl
    );
    assert_eq!(state.branch, Branch::Matched);
    assert_eq!(state.params, vec![(b"id".to_vec(), b"1".to_vec())]);
}

#[test]
fn hydration_is_equivalent_to_build() {
    let router = user_router();
    let mut alloc = NodeAlloc::new();
    let built = router.build(&mut alloc);
    let markup = router.to_markup(&built);

    let mut cursor = HydrationCursor { pos: 0 };
    let hydrated = router.hydrate(&markup, &mut cursor).expect("should hydrate");
    assert_eq!(hydrated.branch, built.branch);
    assert_eq!(hydrated.view_ids, built.view_ids);
    assert_eq!(hydrated.params, built.params);
    assert_eq!(hydrated.node_id, markup.root_id);
    assert!(hydrated.hydrated);
    assert_eq!(cursor.pos, built.view_ids.len());
}

#[test]
fn hydration_mismatch_is_surfaced() {
    let router = user_router();
    let mut alloc = NodeAlloc::new();
    let built = router.build(&mut alloc);
    let mut markup = router.to_markup(&built);
    markup.view_ids[0] = markup.view_ids[0] + 1;

    let mut cursor = HydrationCursor { pos: 0 };
    assert_eq!(
        router.hydrate(&markup, &mut cursor).unwrap_err(),
        HydrationError::Mismatch
    );
    assert_eq!(cursor.pos, 0);
}

#[test]
fn route_list_completeness() {
    let mut tree = RouteTree::new();
    tree.add_route(None, pat("/"), 1);
    tree.add_route(None, pat("/about"), 2);
    tree.add_route(None, pat("/users/:id"), 3);
    tree.add_route(None, pat("/users/:id/edit"), 4);
    let entries = tree.generate_route_list();
    let paths: Vec<Vec<u8>> = entries.iter().map(|e| e.path.clone()).collect();
    assert_eq!(
        paths,
        vec![
            b"/".to_vec(),
            b"/about".to_vec(),
            b"/users/:id".to_vec(),
            b"/users/:id/edit".to_vec(),
        ]
    );
    assert_eq!(entries[2].params, vec![b"id".to_vec()]);
    assert_eq!(entries[3].params, vec![b"id".to_vec()]);
    assert!(entries[0].params.is_empty());
}

#[test]
fn nested_route_list_walks_to_leaves() {
    let mut tree = RouteTree::new();
    let users = tree.add_route(None, pat("/users/:id"), 1);
    tree.add_route(Some(users), pat("/posts"), 2);
    tree.add_route(Some(users), pat("/files/*rest"), 3);
    let entries = tree.generate_route_list();
    let paths: Vec<Vec<u8>> = entries.iter().map(|e| e.path.clone()).collect();
    assert_eq!(
        paths,
        vec![b"/users/:id/posts".to_vec(), b"/users/:id/files/*rest".to_vec()]
    );
    assert_eq!(entries[1].params, vec![b"id".to_vec(), b"rest".to_vec()]);
}

#[test]
fn route_list_pass_is_explicit() {
    let router = user_router();
    let mut ctx = RouteListContext::inactive();
    router.register_route_list(&mut ctx);
    assert!(ctx.entries.is_empty());

    let mut ctx = RouteListContext::new_pass();
    router.register_route_list(&mut ctx);
    let paths: Vec<Vec<u8>> = ctx.entries.iter().map(|e| e.path.clone()).collect();
    assert_eq!(paths, vec![b"/users/:id".to_vec()]);
}

#[test]
fn stream_preserves_placeholder_order() {
    let mut tree = RouteTree::new();
    let a = tree.add_route(None, pat("/a"), 10);
    let b = tree.add_route(Some(a), pat("/b"), 11);
    tree.add_route(Some(b), pat("/c"), 12);
    let router = Router::new(url("/a/b/c"), tree, 99);
    let mut alloc = NodeAlloc::new();
    let state = router.build(&mut alloc);
    assert_eq!(state.view_ids, vec![10, 11, 12]);

    let chunks = router.to_stream(&state, &[2, 0, 1]);
    assert_eq!(
        chunks,
        vec![
            StreamChunk::Placeholder(10),
            StreamChunk::Placeholder(11),
            StreamChunk::Placeholder(12),
            StreamChunk::Content(12),
            StreamChunk::Content(10),
            StreamChunk::Content(11),
        ]
    );
}

#[test]
fn matched_route_carries_params_and_query() {
    let mut tree = RouteTree::new();
    tree.add_route(None, pat("/users/:id"), 7);
    let location = Location::Known(Url {
        path: b"/users/8".to_vec(),
        search_params: vec![(b"tab".to_vec(), b"posts".to_vec())],
    });
    let router = Router::new_with_base(b"/app".to_vec(), location, tree, 99);
    assert_eq!(router.fallback(), 99);
    assert_eq!(router.base(), &Some(b"/app".to_vec()));
    let m = router.matched_route().expect("should match");
    assert_eq!(m.params, vec![(b"id".to_vec(), b"8".to_vec())]);
    assert_eq!(m.matched, b"/users/8".to_vec());
    assert_eq!(m.search_params, vec![(b"tab".to_vec(), b"posts".to_vec())]);

    let mut router = router;
    router.set_location(url("/nope"));
    assert!(router.matched_route().is_none());
}
