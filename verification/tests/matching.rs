use routing::{PathPattern, PatternError, RouteTree, split_path};

fn pat(s: &str) -> PathPattern {
    PathPattern::parse(s.as_bytes()).expect("pattern should compile")
}

fn segs(path: &str) -> Vec<Vec<u8>> {
    split_path(path.as_bytes())
}

#[test]
fn split_prunes_empty_segments() {
    assert_eq!(segs("/users/42"), vec![b"users".to_vec(), b"42".to_vec()]);
    assert_eq!(segs("users/42"), vec![b"users".to_vec(), b"42".to_vec()]);
    assert_eq!(segs("//users//42//"), vec![b"users".to_vec(), b"42".to_vec()]);
    assert_eq!(segs(""), Vec::<Vec<u8>>::new());
    assert_eq!(segs("/"), Vec::<Vec<u8>>::new());
}

#[test]
fn trailing_slash_equivalent() {
    assert_eq!(segs("/users/42/"), segs("/users/42"));
    let p = pat("/users/:id");
    let a = p.test(&segs("/users/42/")).expect("should match");
    let b = p.test(&segs("/users/42")).expect("should match");
    assert_eq!(a.params, b.params);
    assert_eq!(a.remaining, b.remaining);
}

#[test]
fn parameter_extraction() {
    let p = pat("/users/:id/posts/:postId");
    let m = p.test(&segs("/users/42/posts/7")).expect("should match");
    assert_eq!(
        m.params,
        vec![
            (b"id".to_vec(), b"42".to_vec()),
            (b"postId".to_vec(), b"7".to_vec()),
        ]
    );
    assert!(m.remaining.is_empty());
    assert_eq!(m.matched, segs("/users/42/posts/7"));
}

#[test]
fn partial_match_remainder() {
    let p = pat("/users/:id");
    let m = p.test(&segs("/users/42/posts")).expect("should match");
    assert_eq!(m.params, vec![(b"id".to_vec(), b"42".to_vec())]);
    assert_eq!(m.matched, vec![b"users".to_vec(), b"42".to_vec()]);
    assert_eq!(m.remaining, vec![b"posts".to_vec()]);
}

#[test]
fn pattern_longer_than_path_fails() {
    let p = pat("/users/:id/posts");
    assert!(p.test(&segs("/users/42")).is_none());
}

#[test]
fn static_segment_is_case_sensitive() {
    let p = pat("/Users");
    assert!(p.test(&segs("/users")).is_none());
    assert!(p.test(&segs("/Users")).is_some());
}

#[test]
fn empty_pattern_matches_empty_path() {
    let p = pat("/");
    let m = p.test(&segs("/")).expect("should match");
    assert!(m.params.is_empty());
    assert!(m.matched.is_empty());
    assert!(m.remaining.is_empty());
}

#[test]
fn wildcard_catch_all() {
    let p = pat("/files/*rest");
    let m = p.test(&segs("/files/a/b/c")).expect("should match");
    assert_eq!(m.params, vec![(b"rest".to_vec(), b"a/b/c".to_vec())]);
    assert!(m.remaining.is_empty());

    let m = p.test(&segs("/files")).expect("should match zero segments");
    assert_eq!(m.params, vec![(b"rest".to_vec(), b"".to_vec())]);
    assert!(m.remaining.is_empty());
}

#[test]
fn root_wildcard_catches_everything() {
    let p = pat("/*all");
    let m = p.test(&segs("/")).expect("should match empty");
    assert_eq!(m.params, vec![(b"all".to_vec(), b"".to_vec())]);
    let m = p.test(&segs("/x/y")).expect("should match");
    assert_eq!(m.params, vec![(b"all".to_vec(), b"x/y".to_vec())]);
}

#[test]
fn wildcard_must_be_last() {
    assert_eq!(
        PathPattern::parse(b"/a/*x/b").unwrap_err(),
        PatternError::WildcardNotLast
    );
    assert!(PathPattern::parse(b"/a/*x").is_ok());
}

#[test]
fn static_precedence_over_param() {
    let mut tree = RouteTree::new();
    tree.add_route(None, pat("/new"), 1);
    tree.add_route(None, pat("/:id"), 2);
    let m = tree.match_route(&segs("/new")).expect("should match");
    assert_eq!(m.view_ids, vec![1]);

    let m = tree.match_route(&segs("/other")).expect("should match");
    assert_eq!(m.view_ids, vec![2]);
    assert_eq!(m.params, vec![(b"id".to_vec(), b"other".to_vec())]);
}

#[test]
fn nesting_with_remainder() {
    let mut tree = RouteTree::new();
    let users = tree.add_route(None, pat("/users/:id"), 1);
    tree.add_route(Some(users), pat("/posts"), 2);
    let m = tree.match_route(&segs("/users/42/posts")).expect("should match");
    assert_eq!(m.params, vec![(b"id".to_vec(), b"42".to_vec())]);
    assert_eq!(m.view_ids, vec![1, 2]);
}

#[test]
fn layout_route_alone_does_not_claim_leftover_path() {
    let mut tree = RouteTree::new();
    let users = tree.add_route(None, pat("/users/:id"), 1);
    tree.add_route(Some(users), pat("/posts"), 2);
    assert!(tree.match_route(&segs("/users/42/comments")).is_none());
    assert!(tree.match_route(&segs("/users/42")).is_none());
}

#[test]
fn nested_empty_child_pattern_matches_parent_path() {
    let mut tree = RouteTree::new();
    let users = tree.add_route(None, pat("/users/:id"), 1);
    tree.add_route(Some(users), pat("/"), 2);
    let m = tree.match_route(&segs("/users/42")).expect("should match");
    assert_eq!(m.params, vec![(b"id".to_vec(), b"42".to_vec())]);
    assert_eq!(m.view_ids, vec![1, 2]);
}

#[test]
fn inner_param_shadows_outer_on_lookup() {
    let mut tree = RouteTree::new();
    let parent = tree.add_route(None, pat("/users/:id"), 1);
    tree.add_route(Some(parent), pat("/:id"), 2);
    let m = tree.match_route(&segs("/users/1/2")).expect("should match");
    assert_eq!(
        m.params,
        vec![
            (b"id".to_vec(), b"1".to_vec()),
            (b"id".to_vec(), b"2".to_vec()),
        ]
    );
    assert_eq!(m.param(b"id"), Some(b"2".to_vec()));
    assert_eq!(m.param(b"missing"), None);
}

#[test]
fn sibling_order_decides_among_nested_routes() {
    let mut tree = RouteTree::new();
    let a = tree.add_route(None, pat("/docs"), 1);
    tree.add_route(Some(a), pat("/new"), 2);
    tree.add_route(Some(a), pat("/:page"), 3);
    let m = tree.match_route(&segs("/docs/new")).expect("should match");
    assert_eq!(m.view_ids, vec![1, 2]);
    let m = tree.match_route(&segs("/docs/intro")).expect("should match");
    assert_eq!(m.view_ids, vec![1, 3]);
}
