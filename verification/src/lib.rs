//! Routing core for a component-based UI framework.
//!
//! The crate compiles path patterns (static, parameter, and wildcard
//! segments), matches nested route trees against concrete paths with
//! declaration-order precedence and parameter extraction, drives a
//! two-branch (matched / fallback) render-state machine that supports
//! building, rebuilding, hydrating, and streaming, and enumerates the
//! symbolic paths a route tree can produce for static pre-rendering.

pub mod path;
pub mod pattern;
pub mod matcher;
pub mod tree;
pub mod router;
pub mod route_list;

pub use path::split_path;
pub use pattern::{PathPattern, PatternError, Segment};
pub use matcher::PartialMatch;
pub use tree::{RouteTree, RouteMatch};
pub use router::{
    Router, Url, Location, LocationError, Branch, NodeAlloc, RenderState, Markup,
    HydrationCursor, HydrationError, MatchedRoute, StreamChunk,
};
pub use route_list::{RouteListContext, RouteListEntry};
