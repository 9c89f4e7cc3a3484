//! Compiled path patterns.
//!
//! A pattern is a sequence of segment specs: a static literal, a named
//! parameter (written `:name`), or a named wildcard (written `*name`).
//! A wildcard may only stand as the final segment; compilation rejects
//! anything else. Patterns are immutable once compiled.

use vstd::prelude::*;
use crate::path::{split_path, split_spec, copy_bytes};

verus! {

/// `':'` as a byte: marks a parameter segment.
pub const COLON: u8 = 58;

/// `'*'` as a byte: marks a wildcard segment.
pub const STAR: u8 = 42;

/// Mathematical model of one pattern segment.
pub enum SegSpec {
    /// Requires exact literal equality with one path segment.
    Static(Seq<u8>),
    /// Consumes exactly one path segment, recording it under the name.
    Param(Seq<u8>),
    /// Consumes all remaining path segments, recording them under the name.
    Wildcard(Seq<u8>),
}

/// One compiled pattern segment.
#[derive(Debug)]
pub enum Segment {
    /// Matches one path segment exactly (case-sensitive).
    Static(Vec<u8>),
    /// Matches any one path segment, binding it to the name.
    Param(Vec<u8>),
    /// Matches all remaining path segments, binding them to the name.
    Wildcard(Vec<u8>),
}

impl View for Segment {
    type V = SegSpec;

    open spec fn view(&self) -> SegSpec {
        match self {
            Segment::Static(t) => SegSpec::Static(t@),
            Segment::Param(n) => SegSpec::Param(n@),
            Segment::Wildcard(n) => SegSpec::Wildcard(n@),
        }
    }
}

/// How one raw path-pattern segment compiles: a leading `:` makes a
/// parameter, a leading `*` makes a wildcard, anything else is static.
pub open spec fn classify_spec(raw: Seq<u8>) -> SegSpec {
    if raw.len() > 0 && raw[0] == COLON {
        SegSpec::Param(raw.drop_first())
    } else if raw.len() > 0 && raw[0] == STAR {
        SegSpec::Wildcard(raw.drop_first())
    } else {
        SegSpec::Static(raw)
    }
}

/// The segment specs that a pattern string compiles to.
pub open spec fn pattern_spec(s: Seq<u8>) -> Seq<SegSpec> {
    split_spec(s).map_values(|raw: Seq<u8>| classify_spec(raw))
}

/// The pattern invariant: a wildcard stands only as the final segment.
pub open spec fn wildcard_last(segs: Seq<SegSpec>) -> bool {
    forall|k: int|
        0 <= k < segs.len() && (#[trigger] segs[k]) is Wildcard ==> k == segs.len() - 1
}

/// Rejected pattern strings.
#[derive(Clone, Copy, PartialEq, Eq, Structural, Debug)]
pub enum PatternError {
    /// A wildcard segment stood before the end of the pattern.
    WildcardNotLast,
}

/// A compiled path pattern: an immutable segment-spec sequence in which a
/// wildcard can only be the final segment.
#[derive(Debug)]
pub struct PathPattern {
    segments: Vec<Segment>,
}

impl View for PathPattern {
    type V = Seq<SegSpec>;

    closed spec fn view(&self) -> Seq<SegSpec> {
        Seq::new(self.segments@.len(), |i: int| self.segments@[i]@)
    }
}

/// Compiles one raw segment.
fn classify(raw: &[u8]) -> (r: Segment)
    ensures
        r@ == classify_spec(raw@),
{
    if raw.len() > 0 && raw[0] == COLON {
        let name = copy_bytes(raw);
        let mut name = name;
        name.remove(0);
        proof {
            assert(name@ =~= raw@.drop_first());
        }
        Segment::Param(name)
    } else if raw.len() > 0 && raw[0] == STAR {
        let name = copy_bytes(raw);
        let mut name = name;
        name.remove(0);
        proof {
            assert(name@ =~= raw@.drop_first());
        }
        Segment::Wildcard(name)
    } else {
        Segment::Static(copy_bytes(raw))
    }
}

impl PathPattern {
    /// The pattern's segment count.
    pub fn len(&self) -> (r: usize)
        ensures
            r == self@.len(),
    {
        self.segments.len()
    }

    /// A reference to segment `k`.
    pub fn segment(&self, k: usize) -> (r: &Segment)
        requires
            k < self@.len(),
        ensures
            r@ == self@[k as int],
    {
        &self.segments[k]
    }

    /// Compiles a pattern string such as `/users/:id` or `/files/*rest`.
    ///
    /// Splits at `/`, pruning empty segments, and classifies each raw
    /// segment. Fails exactly when a wildcard segment stands anywhere but
    /// last; succeeds on every other input, with the compiled pattern's
    /// view equal to `pattern_spec` of the input.
    pub fn parse(pat: &[u8]) -> (r: Result<PathPattern, PatternError>)
        ensures
            match r {
                Ok(p) => p@ == pattern_spec(pat@) && wildcard_last(p@),
                Err(e) => !wildcard_last(pattern_spec(pat@)) && e == PatternError::WildcardNotLast,
            },
    {
        let raws = split_path(pat);
        let mut segments: Vec<Segment> = Vec::new();
        let mut i: usize = 0;
        while i < raws.len()
            invariant
                0 <= i <= raws.len(),
                raws.deep_view() == split_spec(pat@),
                segments@.len() == i,
                forall|k: int| 0 <= k < i ==> (#[trigger] segments@[k])@ == pattern_spec(pat@)[k],
            decreases raws.len() - i,
        {
            let seg = classify(raws[i].as_slice());
            proof {
                assert(raws.deep_view()[i as int] == raws@[i as int].deep_view());
                assert(raws@[i as int].deep_view() =~= raws@[i as int]@);
                assert(pattern_spec(pat@)[i as int] == classify_spec(split_spec(pat@)[i as int]));
            }
            segments.push(seg);
            i = i + 1;
        }
        let n = segments.len();
        let mut j: usize = 0;
        while j < n
            invariant
                0 <= j <= n,
                n == segments@.len(),
                segments@.len() == pattern_spec(pat@).len(),
                forall|k: int|
                    0 <= k < segments@.len() ==> (#[trigger] segments@[k])@ == pattern_spec(pat@)[k],
                forall|k: int|
                    0 <= k < j && (#[trigger] pattern_spec(pat@)[k]) is Wildcard ==> k == n - 1,
            decreases n - j,
        {
            let is_wild = match &segments[j] {
                Segment::Wildcard(_) => true,
                _ => false,
            };
            if is_wild && j + 1 < n {
                proof {
                    assert(pattern_spec(pat@)[j as int] is Wildcard);
                }
                return Err(PatternError::WildcardNotLast);
            }
            j = j + 1;
        }
        let p = PathPattern { segments };
        proof {
            assert(p@ =~= pattern_spec(pat@));
        }
        Ok(p)
    }
}

} // verus!
