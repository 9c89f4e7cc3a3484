//! Splitting candidate paths into `/`-delimited segments.
//!
//! Empty segments are pruned, so a trailing-slash path and its
//! non-trailing-slash equivalent split to the same segment list, and the
//! empty path splits to no segments at all.

use vstd::prelude::*;

verus! {

/// The path separator, `'/'` as a byte.
pub const SLASH: u8 = 47;

/// Index of the first separator in `s`, or `s.len()` if there is none.
pub open spec fn first_slash(s: Seq<u8>) -> int
    decreases s.len(),
{
    if s.len() == 0 {
        0
    } else if s[0] == SLASH {
        0
    } else {
        1 + first_slash(s.drop_first())
    }
}

proof fn lemma_first_slash_bounds(s: Seq<u8>)
    ensures
        0 <= first_slash(s) <= s.len(),
        forall|k: int| 0 <= k < first_slash(s) ==> s[k] != SLASH,
        first_slash(s) < s.len() ==> s[first_slash(s)] == SLASH,
    decreases s.len(),
{
    if s.len() == 0 {
    } else if s[0] == SLASH {
    } else {
        lemma_first_slash_bounds(s.drop_first());
        assert forall|k: int| 0 <= k < first_slash(s) implies s[k] != SLASH by {
            if k > 0 {
                assert(s.drop_first()[k - 1] == s[k]);
            }
        }
        if first_slash(s) < s.len() {
            assert(s.drop_first()[first_slash(s) - 1] == s[first_slash(s)]);
        }
    }
}

/// If the first `m` bytes of `s` are not separators and byte `m` is one
/// (or `m` is the length), then `m` is the first separator index.
proof fn lemma_first_slash_at(s: Seq<u8>, m: int)
    requires
        0 <= m <= s.len(),
        forall|k: int| 0 <= k < m ==> s[k] != SLASH,
        m < s.len() ==> s[m] == SLASH,
    ensures
        first_slash(s) == m,
    decreases s.len(),
{
    if s.len() == 0 {
    } else if m == 0 {
        if s.len() > 0 && s[0] != SLASH {
            lemma_first_slash_bounds(s);
        }
    } else {
        assert(s[0] != SLASH);
        assert forall|k: int| 0 <= k < m - 1 implies s.drop_first()[k] != SLASH by {
            assert(s.drop_first()[k] == s[k + 1]);
        }
        if m - 1 < s.drop_first().len() {
            assert(s.drop_first()[m - 1] == s[m]);
        }
        lemma_first_slash_at(s.drop_first(), m - 1);
    }
}

/// The `/`-delimited segments of `s`, with empty segments pruned.
pub open spec fn split_spec(s: Seq<u8>) -> Seq<Seq<u8>>
    decreases s.len(),
{
    if s.len() == 0 {
        Seq::empty()
    } else {
        let rest = split_spec(s.drop_first());
        if s[0] == SLASH {
            rest
        } else if s.len() > 1 && s[1] != SLASH {
            seq![seq![s[0]] + rest[0]] + rest.drop_first()
        } else {
            seq![seq![s[0]]] + rest
        }
    }
}

/// A path that opens with a non-separator byte splits into the chunk up to
/// the first separator, followed by the segments of what remains.
proof fn lemma_split_spec_chunk(s: Seq<u8>)
    requires
        s.len() > 0,
        s[0] != SLASH,
    ensures
        first_slash(s) >= 1,
        split_spec(s) == seq![s.take(first_slash(s))] + split_spec(s.skip(first_slash(s))),
    decreases s.len(),
{
    lemma_first_slash_bounds(s);
    lemma_first_slash_bounds(s.drop_first());
    let i = first_slash(s);
    assert(i == 1 + first_slash(s.drop_first()));
    let rest = split_spec(s.drop_first());
    if s.len() == 1 {
        assert(s.take(1) =~= s);
        assert(s.skip(1) =~= Seq::<u8>::empty());
        assert(seq![s[0]] =~= s.take(1));
        assert(split_spec(s) =~= seq![s.take(i)] + split_spec(s.skip(i)));
    } else if s[1] == SLASH {
        assert(s.drop_first()[0] == s[1]);
        assert(i == 1);
        assert(seq![s[0]] =~= s.take(1));
        assert(s.drop_first() =~= s.skip(1));
        assert(split_spec(s) =~= seq![s.take(i)] + split_spec(s.skip(i)));
    } else {
        assert(s.drop_first()[0] == s[1]);
        let j = first_slash(s.drop_first());
        lemma_split_spec_chunk(s.drop_first());
        assert(rest == seq![s.drop_first().take(j)] + split_spec(s.drop_first().skip(j)));
        assert(rest[0] == s.drop_first().take(j));
        assert(rest.drop_first() =~= split_spec(s.drop_first().skip(j)));
        assert(seq![s[0]] + s.drop_first().take(j) =~= s.take(i));
        assert(s.drop_first().skip(j) =~= s.skip(i));
        assert(split_spec(s) =~= seq![s.take(i)] + split_spec(s.skip(i)));
    }
}

/// No segment that `split_spec` produces is empty.
pub proof fn lemma_split_spec_segments_nonempty(s: Seq<u8>)
    ensures
        forall|k: int| 0 <= k < split_spec(s).len() ==> (#[trigger] split_spec(s)[k]).len() > 0,
    decreases s.len(),
{
    if s.len() == 0 {
    } else {
        lemma_split_spec_segments_nonempty(s.drop_first());
        let rest = split_spec(s.drop_first());
        if s[0] == SLASH {
        } else if s.len() > 1 && s[1] != SLASH {
            assert forall|k: int|
                0 <= k < split_spec(s).len() implies (#[trigger] split_spec(s)[k]).len() > 0 by {
                if k > 0 {
                    assert(split_spec(s)[k] == rest.drop_first()[k - 1]);
                    assert(rest.drop_first()[k - 1] == rest[k]);
                }
            }
        } else {
            assert forall|k: int|
                0 <= k < split_spec(s).len() implies (#[trigger] split_spec(s)[k]).len() > 0 by {
                if k > 0 {
                    assert(split_spec(s)[k] == rest[k - 1]);
                }
            }
        }
    }
}

/// The segments of `segs` joined with a single `/` between them; no
/// leading or trailing separator, and no segments joins to the empty path.
pub open spec fn join_slash(segs: Seq<Seq<u8>>) -> Seq<u8>
    decreases segs.len(),
{
    if segs.len() == 0 {
        Seq::empty()
    } else if segs.len() == 1 {
        segs[0]
    } else {
        segs[0] + seq![SLASH] + join_slash(segs.drop_first())
    }
}

/// Byte-for-byte equality of two byte slices.
pub fn bytes_eq(a: &[u8], b: &[u8]) -> (r: bool)
    ensures
        r == (a@ == b@),
{
    if a.len() != b.len() {
        return false;
    }
    let mut i: usize = 0;
    while i < a.len()
        invariant
            0 <= i <= a.len(),
            a.len() == b.len(),
            forall|k: int| 0 <= k < i ==> a@[k] == b@[k],
        decreases a.len() - i,
    {
        if a[i] != b[i] {
            return false;
        }
        i = i + 1;
    }
    proof {
        assert(a@ =~= b@);
    }
    true
}

/// A fresh copy of a byte slice.
pub fn copy_bytes(v: &[u8]) -> (r: Vec<u8>)
    ensures
        r@ == v@,
{
    let mut r: Vec<u8> = Vec::new();
    let mut i: usize = 0;
    while i < v.len()
        invariant
            0 <= i <= v.len(),
            r@ == v@.take(i as int),
        decreases v.len() - i,
    {
        r.push(v[i]);
        proof {
            assert(v@.take(i as int).push(v@[i as int]) =~= v@.take(i + 1));
        }
        i = i + 1;
    }
    proof {
        assert(v@.take(v@.len() as int) =~= v@);
    }
    r
}

/// A fresh copy of the segment list `segs[from..]`.
pub fn copy_segments_from(segs: &[Vec<u8>], from: usize) -> (r: Vec<Vec<u8>>)
    requires
        from <= segs.len(),
    ensures
        r.deep_view() == segs.deep_view().skip(from as int),
{
    let mut r: Vec<Vec<u8>> = Vec::new();
    let mut i: usize = from;
    while i < segs.len()
        invariant
            from <= i <= segs.len(),
            r.deep_view() == segs.deep_view().subrange(from as int, i as int),
        decreases segs.len() - i,
    {
        let ghost pre = r.deep_view();
        let c = copy_bytes(segs[i].as_slice());
        let ghost cv = c@;
        r.push(c);
        proof {
            assert(r@.len() == pre.len() + 1);
            assert forall|k: int| 0 <= k < r@.len() implies r.deep_view()[k]
                == segs.deep_view().subrange(from as int, i + 1)[k] by {
                assert(r.deep_view()[k] == r@[k].deep_view());
                if k < pre.len() {
                    assert(r@[k].deep_view() == pre[k]);
                    assert(pre[k] == segs.deep_view()[from + k]);
                } else {
                    assert(r@[k].deep_view() =~= cv);
                    assert(cv == segs@[i as int]@);
                    assert(segs.deep_view()[i as int] == segs@[i as int].deep_view());
                    assert(segs@[i as int].deep_view() =~= segs@[i as int]@);
                }
            }
            assert(r.deep_view() =~= segs.deep_view().subrange(from as int, i + 1));
        }
        i = i + 1;
    }
    proof {
        assert(segs.deep_view().subrange(from as int, segs.deep_view().len() as int)
            =~= segs.deep_view().skip(from as int));
    }
    r
}

/// Joins `segs[from..]` with `/` separators, as a wildcard parameter value.
pub fn join_segments_from(segs: &[Vec<u8>], from: usize) -> (r: Vec<u8>)
    requires
        from <= segs.len(),
    ensures
        r@ == join_slash(segs.deep_view().skip(from as int)),
    decreases segs.len() - from,
{
    let ghost tail = segs.deep_view().skip(from as int);
    if from == segs.len() {
        proof {
            assert(tail =~= Seq::<Seq<u8>>::empty());
        }
        Vec::new()
    } else if from + 1 == segs.len() {
        let r = copy_bytes(segs[from].as_slice());
        proof {
            assert(tail.len() == 1);
            assert(tail[0] == segs.deep_view()[from as int]);
            assert(segs.deep_view()[from as int] == segs@[from as int].deep_view());
            assert(segs@[from as int].deep_view() =~= segs@[from as int]@);
        }
        r
    } else {
        let mut r = copy_bytes(segs[from].as_slice());
        r.push(SLASH);
        let mut rest = join_segments_from(segs, from + 1);
        r.append(&mut rest);
        proof {
            assert(tail[0] == segs@[from as int].deep_view());
            assert(segs@[from as int].deep_view() =~= segs@[from as int]@);
            assert(tail.drop_first() =~= segs.deep_view().skip(from + 1));
            assert(r@ =~= tail[0] + seq![SLASH] + join_slash(tail.drop_first()));
        }
        r
    }
}

/// A trailing separator changes nothing: a trailing-slash path and its
/// non-trailing-slash equivalent split to the same segment list.
pub proof fn lemma_split_spec_trailing_slash(s: Seq<u8>)
    ensures
        split_spec(s + seq![SLASH]) == split_spec(s),
    decreases s.len(),
{
    let e = s + seq![SLASH];
    if s.len() == 0 {
        assert(e.len() == 1);
        assert(e[0] == SLASH);
        assert(e.drop_first() =~= Seq::<u8>::empty());
        assert(split_spec(e) == split_spec(e.drop_first()));
    } else {
        lemma_split_spec_trailing_slash(s.drop_first());
        assert(e.drop_first() =~= s.drop_first() + seq![SLASH]);
        let rest_s = split_spec(s.drop_first());
        let rest_e = split_spec(e.drop_first());
        assert(rest_e == rest_s);
        assert(e[0] == s[0]);
        assert(e.len() == s.len() + 1);
        if s[0] == SLASH {
            assert(split_spec(s) == rest_s);
            assert(split_spec(e) == rest_e);
        } else if s.len() > 1 && s[1] != SLASH {
            assert(e[1] == s[1]);
            assert(e.len() > 1 && e[1] != SLASH);
            assert(split_spec(s) == seq![seq![s[0]] + rest_s[0]] + rest_s.drop_first());
            assert(split_spec(e) == seq![seq![e[0]] + rest_e[0]] + rest_e.drop_first());
        } else {
            assert(s.len() == 1 || s[1] == SLASH);
            if s.len() > 1 {
                assert(e[1] == s[1]);
                assert(e[1] == SLASH);
            } else {
                assert(e[1] == SLASH);
            }
            assert(split_spec(s) == seq![seq![s[0]]] + rest_s);
            assert(split_spec(e) == seq![seq![e[0]]] + rest_e);
        }
    }
}

/// Splits `s` at `/`, pruning empty segments.
pub fn split_path(s: &[u8]) -> (r: Vec<Vec<u8>>)
    ensures
        r.deep_view() == split_spec(s@),
{
    let mut r: Vec<Vec<u8>> = Vec::new();
    let mut i: usize = 0;
    proof {
        assert(s@.skip(0) =~= s@);
        assert(r.deep_view() =~= Seq::<Seq<u8>>::empty());
        assert(r.deep_view() + split_spec(s@.skip(0)) =~= split_spec(s@));
    }
    while i < s.len()
        invariant
            0 <= i <= s.len(),
            split_spec(s@) == r.deep_view() + split_spec(s@.skip(i as int)),
        decreases s.len() - i,
    {
        if s[i] == SLASH {
            proof {
                assert(s@.skip(i as int).drop_first() =~= s@.skip(i + 1));
            }
            i = i + 1;
        } else {
            let ghost pre = r.deep_view();
            let start: usize = i;
            let mut seg: Vec<u8> = Vec::new();
            while i < s.len() && s[i] != SLASH
                invariant
                    start <= i <= s.len(),
                    start < s.len(),
                    seg@ == s@.subrange(start as int, i as int),
                    forall|k: int| start <= k < i ==> s@[k] != SLASH,
                    s@[start as int] != SLASH,
                decreases s.len() - i,
            {
                let b = s[i];
                seg.push(b);
                proof {
                    assert(seg@ =~= s@.subrange(start as int, i + 1));
                }
                i = i + 1;
            }
            proof {
                let tail = s@.skip(start as int);
                assert forall|k: int| 0 <= k < i - start implies tail[k] != SLASH by {
                    assert(tail[k] == s@[start + k]);
                }
                if i < s.len() {
                    assert(tail[i - start] == s@[i as int]);
                }
                lemma_first_slash_at(tail, i - start);
                lemma_split_spec_chunk(tail);
                assert(tail.take(i - start) =~= s@.subrange(start as int, i as int));
                assert(tail.skip(i - start) =~= s@.skip(i as int));
            }
            let ghost segv = seg@;
            r.push(seg);
            proof {
                assert forall|k: int| 0 <= k < r.deep_view().len() implies r.deep_view()[k] == (pre
                    + seq![segv])[k] by {
                    assert(r.deep_view()[k] == r@[k].deep_view());
                    assert(r@[k].deep_view() =~= r@[k]@);
                }
                assert(r.deep_view() =~= pre + seq![segv]);
                assert(pre + (seq![segv] + split_spec(s@.skip(i as int))) =~= (pre + seq![
                    segv,
                ]) + split_spec(s@.skip(i as int)));
            }
        }
    }
    proof {
        assert(s@.skip(i as int) =~= Seq::<u8>::empty());
        assert(r.deep_view() + split_spec(s@.skip(i as int)) =~= r.deep_view());
    }
    r
}

} // verus!
