//! Matching one compiled pattern against a segmented path.
//!
//! The match walks pattern segments and path segments pairwise: static
//! segments require exact equality, parameter segments consume exactly one
//! path segment unconditionally, and a wildcard consumes everything that
//! remains (possibly nothing) and ends the match. A pattern that runs out
//! before the path does yields a *partial* match whose remainder is handed
//! to a nested child tree; a pattern longer than the path fails.

use vstd::prelude::*;
use crate::path::{join_slash, join_segments_from, copy_bytes, copy_segments_from, bytes_eq};
use crate::pattern::{SegSpec, Segment, PathPattern};

verus! {

/// Mathematical model of a successful (possibly partial) pattern match.
#[verifier::ext_equal]
pub struct MatchSpec {
    /// Extracted parameters, in declaration order of the pattern.
    pub params: Seq<(Seq<u8>, Seq<u8>)>,
    /// The path segments the pattern consumed.
    pub matched: Seq<Seq<u8>>,
    /// The path segments left for a nested child tree.
    pub remaining: Seq<Seq<u8>>,
}

/// The result of one pattern match: extracted parameters, the matched
/// prefix, and the unmatched remainder.
#[derive(Debug)]
pub struct PartialMatch {
    /// Extracted `name -> value` pairs, in declaration order.
    pub params: Vec<(Vec<u8>, Vec<u8>)>,
    /// The path segments the pattern consumed.
    pub matched: Vec<Vec<u8>>,
    /// The path segments left over for nested matching.
    pub remaining: Vec<Vec<u8>>,
}

/// The view of an extracted parameter list.
pub open spec fn params_view(params: Seq<(Vec<u8>, Vec<u8>)>) -> Seq<(Seq<u8>, Seq<u8>)> {
    Seq::new(params.len(), |i: int| (params[i].0@, params[i].1@))
}

impl View for PartialMatch {
    type V = MatchSpec;

    open spec fn view(&self) -> MatchSpec {
        MatchSpec {
            params: params_view(self.params@),
            matched: self.matched.deep_view(),
            remaining: self.remaining.deep_view(),
        }
    }
}

/// What testing a pattern against a segmented path yields: `None` on
/// failure, otherwise the extracted parameters, the consumed prefix, and
/// the remainder.
pub open spec fn pattern_test_spec(pat: Seq<SegSpec>, path: Seq<Seq<u8>>) -> Option<MatchSpec>
    decreases pat.len(),
{
    if pat.len() == 0 {
        Some(MatchSpec { params: Seq::empty(), matched: Seq::empty(), remaining: path })
    } else {
        match pat[0] {
            SegSpec::Static(lit) => {
                if path.len() > 0 && path[0] == lit {
                    match pattern_test_spec(pat.drop_first(), path.drop_first()) {
                        Some(m) => Some(
                            MatchSpec {
                                params: m.params,
                                matched: seq![path[0]] + m.matched,
                                remaining: m.remaining,
                            },
                        ),
                        None => None,
                    }
                } else {
                    None
                }
            },
            SegSpec::Param(name) => {
                if path.len() > 0 {
                    match pattern_test_spec(pat.drop_first(), path.drop_first()) {
                        Some(m) => Some(
                            MatchSpec {
                                params: seq![(name, path[0])] + m.params,
                                matched: seq![path[0]] + m.matched,
                                remaining: m.remaining,
                            },
                        ),
                        None => None,
                    }
                } else {
                    None
                }
            },
            SegSpec::Wildcard(name) => Some(
                MatchSpec {
                    params: seq![(name, join_slash(path))],
                    matched: path,
                    remaining: Seq::empty(),
                },
            ),
        }
    }
}

/// A fresh copy of a `name -> value` pair list.
pub fn copy_pairs(v: &[(Vec<u8>, Vec<u8>)]) -> (r: Vec<(Vec<u8>, Vec<u8>)>)
    ensures
        params_view(r@) == params_view(v@),
{
    let mut r: Vec<(Vec<u8>, Vec<u8>)> = Vec::new();
    let mut i: usize = 0;
    while i < v.len()
        invariant
            0 <= i <= v@.len(),
            r@.len() == i,
            forall|k: int|
                0 <= k < i ==> (#[trigger] r@[k]).0@ == v@[k].0@ && r@[k].1@ == v@[k].1@,
        decreases v@.len() - i,
    {
        let n = copy_bytes(v[i].0.as_slice());
        let val = copy_bytes(v[i].1.as_slice());
        r.push((n, val));
        i = i + 1;
    }
    proof {
        assert(params_view(r@) =~= params_view(v@));
    }
    r
}

/// The value bound to `name`, looked up from the end of the parameter
/// list, so that an inner (later) binding shadows an outer one.
pub open spec fn lookup_spec(params: Seq<(Seq<u8>, Seq<u8>)>, name: Seq<u8>) -> Option<Seq<u8>>
    decreases params.len(),
{
    if params.len() == 0 {
        None
    } else if params.last().0 == name {
        Some(params.last().1)
    } else {
        lookup_spec(params.drop_last(), name)
    }
}

/// Looks `name` up in an extracted parameter list, later bindings first.
pub fn lookup_param(params: &[(Vec<u8>, Vec<u8>)], name: &[u8]) -> (r: Option<Vec<u8>>)
    ensures
        match r {
            Some(v) => lookup_spec(params.deep_view(), name@) == Some(v@),
            None => lookup_spec(params.deep_view(), name@) is None,
        },
{
    let ghost gp = params.deep_view();
    let mut i: usize = params.len();
    proof {
        assert(gp.len() == params@.len());
        assert(gp.take(params@.len() as int) =~= gp);
    }
    while i > 0
        invariant
            0 <= i <= params@.len(),
            gp == params.deep_view(),
            gp.len() == params@.len(),
            lookup_spec(gp, name@) == lookup_spec(gp.take(i as int), name@),
        decreases i,
    {
        let ghost prefix = gp.take(i as int);
        proof {
            assert(prefix.last() == gp[i - 1]);
            assert(gp[i - 1] == params@[i - 1].deep_view());
            assert(gp[i - 1].0 =~= params@[i - 1].0@);
            assert(prefix.drop_last() =~= gp.take(i - 1));
        }
        if bytes_eq(params[i - 1].0.as_slice(), name) {
            let v = copy_bytes(params[i - 1].1.as_slice());
            proof {
                assert(gp[i - 1].1 =~= params@[i - 1].1@);
            }
            return Some(v);
        }
        i = i - 1;
    }
    proof {
        assert(gp.take(0) =~= Seq::<(Seq<u8>, Seq<u8>)>::empty());
    }
    None
}

/// The empty path pattern matches the empty path, extracting nothing and
/// leaving nothing over.
pub proof fn lemma_empty_pattern_matches_empty_path()
    ensures
        pattern_test_spec(Seq::empty(), Seq::empty()) == Some(
            MatchSpec {
                params: Seq::empty(),
                matched: Seq::empty(),
                remaining: Seq::empty(),
            },
        ),
{
}

impl PathPattern {
    /// The match continued from pattern segment `k` and path segment `p`.
    fn test_from(&self, k: usize, path: &[Vec<u8>], p: usize) -> (r: Option<PartialMatch>)
        requires
            k <= self@.len(),
            p <= path.len(),
        ensures
            match r {
                Some(pm) => pattern_test_spec(self@.skip(k as int), path.deep_view().skip(p as int))
                    == Some(pm@),
                None => pattern_test_spec(self@.skip(k as int), path.deep_view().skip(p as int))
                    is None,
            },
        decreases self@.len() - k,
    {
        let ghost gpat = self@.skip(k as int);
        let ghost gpath = path.deep_view().skip(p as int);
        if k == self.len() {
            let remaining = copy_segments_from(path, p);
            let pm = PartialMatch { params: Vec::new(), matched: Vec::new(), remaining };
            proof {
                assert(gpat.len() == 0);
                assert(params_view(pm.params@) =~= Seq::<(Seq<u8>, Seq<u8>)>::empty());
                assert(pm.matched.deep_view() =~= Seq::<Seq<u8>>::empty());
            }
            Some(pm)
        } else {
            proof {
                assert(gpat[0] == self@[k as int]);
                assert(gpat.drop_first() =~= self@.skip(k + 1));
                if p < path.len() {
                    assert(gpath[0] == path.deep_view()[p as int]);
                    assert(gpath.drop_first() =~= path.deep_view().skip(p + 1));
                    assert(path.deep_view()[p as int] == path@[p as int].deep_view());
                    assert(path@[p as int].deep_view() =~= path@[p as int]@);
                }
            }
            match self.segment(k) {
                Segment::Static(lit) => {
                    if p < path.len() && bytes_eq(lit.as_slice(), path[p].as_slice()) {
                        match self.test_from(k + 1, path, p + 1) {
                            Some(pm) => {
                                let ghost inner = pm@;
                                let mut pm = pm;
                                let seg = copy_bytes(path[p].as_slice());
                                pm.matched.insert(0, seg);
                                proof {
                                    assert(pm.matched.deep_view() =~= seq![gpath[0]]
                                        + inner.matched);
                                    assert(params_view(pm.params@) =~= inner.params);
                                }
                                Some(pm)
                            },
                            None => None,
                        }
                    } else {
                        None
                    }
                },
                Segment::Param(name) => {
                    if p < path.len() {
                        match self.test_from(k + 1, path, p + 1) {
                            Some(pm) => {
                                let ghost inner = pm@;
                                let mut pm = pm;
                                let seg = copy_bytes(path[p].as_slice());
                                let nm = copy_bytes(name.as_slice());
                                let val = copy_bytes(path[p].as_slice());
                                pm.params.insert(0, (nm, val));
                                pm.matched.insert(0, seg);
                                proof {
                                    assert(pm.matched.deep_view() =~= seq![gpath[0]]
                                        + inner.matched);
                                    assert(params_view(pm.params@) =~= seq![
                                        (name@, gpath[0]),
                                    ] + inner.params);
                                }
                                Some(pm)
                            },
                            None => None,
                        }
                    } else {
                        None
                    }
                },
                Segment::Wildcard(name) => {
                    let matched = copy_segments_from(path, p);
                    let joined = join_segments_from(path, p);
                    let nm = copy_bytes(name.as_slice());
                    let mut params: Vec<(Vec<u8>, Vec<u8>)> = Vec::new();
                    params.push((nm, joined));
                    let pm = PartialMatch { params, matched, remaining: Vec::new() };
                    proof {
                        assert(params_view(pm.params@) =~= seq![(name@, join_slash(gpath))]);
                        assert(pm.remaining.deep_view() =~= Seq::<Seq<u8>>::empty());
                    }
                    Some(pm)
                },
            }
        }
    }

    /// Tests the pattern against a segmented path.
    ///
    /// Returns the extracted parameters, the consumed prefix, and the
    /// unmatched remainder exactly as `pattern_test_spec` describes, and
    /// `None` exactly when that spec yields no match.
    pub fn test(&self, path: &[Vec<u8>]) -> (r: Option<PartialMatch>)
        ensures
            match r {
                Some(pm) => pattern_test_spec(self@, path.deep_view()) == Some(pm@),
                None => pattern_test_spec(self@, path.deep_view()) is None,
            },
    {
        let r = self.test_from(0, path, 0);
        proof {
            assert(self@.skip(0) =~= self@);
            assert(path.deep_view().skip(0) =~= path.deep_view());
        }
        r
    }
}

} // verus!
