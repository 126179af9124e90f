//! Multileader leader roots: the native model keeps all leader vertices in
//! one list with the vertex count of each root, acadrust keeps one list
//! per root.  Splitting the flat list back into roots is done here.

use vstd::prelude::*;

verus! {

/// `rs` joined end to end.
pub open spec fn concat_all<T>(rs: Seq<Seq<T>>) -> Seq<T>
    decreases rs.len(),
{
    if rs.len() == 0 {
        Seq::empty()
    } else {
        concat_all(rs.drop_last()) + rs.last()
    }
}

/// Splitting state after the first `k` root lengths: the vertices used so
/// far and the roots cut so far.  A zero length is skipped; a length
/// running past the end is cut short.
pub open spec fn split_state<T>(v: Seq<T>, lens: Seq<usize>, k: nat) -> (int, Seq<Seq<T>>)
    decreases k,
{
    if k == 0 || k > lens.len() {
        (0, Seq::empty())
    } else {
        let st = split_state(v, lens, (k - 1) as nat);
        let len = lens[k - 1] as int;
        let end = if st.0 + len < v.len() {
            st.0 + len
        } else {
            v.len() as int
        };
        if len == 0 || st.0 >= end {
            st
        } else {
            (end, st.1.push(v.subrange(st.0, end)))
        }
    }
}

/// The roots of the flat vertex list `v` with root lengths `lens`: nothing
/// for no vertices, one root when no lengths are given, otherwise the
/// roots cut by the lengths and a last root holding any vertices left.
pub open spec fn split_roots<T>(v: Seq<T>, lens: Seq<usize>) -> Seq<Seq<T>> {
    if v.len() == 0 {
        Seq::empty()
    } else if lens.len() == 0 {
        seq![v]
    } else {
        let st = split_state(v, lens, lens.len());
        if st.0 < v.len() {
            st.1.push(v.subrange(st.0, v.len() as int))
        } else if st.1.len() == 0 {
            seq![v]
        } else {
            st.1
        }
    }
}

pub open spec fn vec_views<T>(r: Seq<Vec<T>>) -> Seq<Seq<T>> {
    r.map_values(|x: Vec<T>| x@)
}

proof fn lemma_split_state_bounds<T>(v: Seq<T>, lens: Seq<usize>, k: nat)
    requires
        k <= lens.len(),
    ensures
        0 <= split_state(v, lens, k).0 <= v.len(),
        concat_all(split_state(v, lens, k).1) == v.subrange(0, split_state(v, lens, k).0),
        forall|i: int|
            0 <= i < split_state(v, lens, k).1.len() ==> #[trigger] split_state(v, lens, k).1[i].len() > 0,
    decreases k,
{
    if k > 0 {
        lemma_split_state_bounds(v, lens, (k - 1) as nat);
        let st = split_state(v, lens, (k - 1) as nat);
        let nst = split_state(v, lens, k);
        if nst != st {
            assert(nst.1.drop_last() =~= st.1);
            assert(v.subrange(0, nst.0) =~= v.subrange(0, st.0) + v.subrange(st.0, nst.0));
        }
    }
}

fn copy_range<T: Copy>(v: &Vec<T>, lo: usize, hi: usize) -> (r: Vec<T>)
    requires
        lo <= hi <= v@.len(),
    ensures
        r@ == v@.subrange(lo as int, hi as int),
{
    let mut r: Vec<T> = Vec::new();
    let mut i = lo;
    while i < hi
        invariant
            lo <= i <= hi <= v@.len(),
            r@ == v@.subrange(lo as int, i as int),
        decreases hi - i,
    {
        r.push(v[i]);
        assert(v@.subrange(lo as int, i + 1) =~= v@.subrange(lo as int, i as int).push(v@[i as int]));
        i += 1;
    }
    r
}

/// Split the flat leader vertex list into roots by the root lengths.
pub fn split_native_mleader_roots<T: Copy>(leader_vertices: &Vec<T>, leader_root_lengths: &Vec<usize>) -> (r:
    Vec<Vec<T>>)
    ensures
        vec_views(r@) == split_roots(leader_vertices@, leader_root_lengths@),
{
    let ghost v = leader_vertices@;
    let ghost lens = leader_root_lengths@;
    if leader_vertices.len() == 0 {
        let r: Vec<Vec<T>> = Vec::new();
        assert(vec_views(r@) =~= Seq::<Seq<T>>::empty());
        return r;
    }
    if leader_root_lengths.len() == 0 {
        let piece = copy_range(leader_vertices, 0, leader_vertices.len());
        assert(piece@ =~= v);
        let mut r: Vec<Vec<T>> = Vec::new();
        r.push(piece);
        assert(vec_views(r@) =~= seq![v]);
        return r;
    }
    let mut roots: Vec<Vec<T>> = Vec::new();
    let mut offset: usize = 0;
    let mut k: usize = 0;
    assert(vec_views(roots@) =~= Seq::<Seq<T>>::empty());
    while k < leader_root_lengths.len()
        invariant
            v == leader_vertices@,
            lens == leader_root_lengths@,
            k <= lens.len(),
            offset as int == split_state(v, lens, k as nat).0,
            vec_views(roots@) == split_state(v, lens, k as nat).1,
            offset <= v.len(),
        decreases lens.len() - k,
    {
        proof {
            lemma_split_state_bounds(v, lens, k as nat);
        }
        let len = leader_root_lengths[k];
        if len != 0 {
            let end = if len < leader_vertices.len() - offset {
                offset + len
            } else {
                leader_vertices.len()
            };
            if offset < end {
                let piece = copy_range(leader_vertices, offset, end);
                let ghost before = roots@;
                roots.push(piece);
                assert(vec_views(roots@) =~= vec_views(before).push(piece@));
                offset = end;
            }
        }
        k += 1;
    }
    proof {
        lemma_split_state_bounds(v, lens, k as nat);
    }
    if offset < leader_vertices.len() {
        let piece = copy_range(leader_vertices, offset, leader_vertices.len());
        let ghost before = roots@;
        roots.push(piece);
        assert(vec_views(roots@) =~= vec_views(before).push(piece@));
    } else if roots.len() == 0 {
        let piece = copy_range(leader_vertices, 0, leader_vertices.len());
        assert(piece@ =~= v);
        roots.push(piece);
        assert(vec_views(roots@) =~= seq![v]);
    }
    roots
}

proof fn lemma_concat_single<T>(v: Seq<T>)
    ensures
        concat_all(seq![v]) == v,
{
    let one = seq![v];
    assert(one.drop_last() =~= Seq::<Seq<T>>::empty());
    assert(one.last() == v);
    assert(concat_all(Seq::<Seq<T>>::empty()) == Seq::<T>::empty());
    assert(concat_all(one) == concat_all(one.drop_last()) + one.last());
    assert(Seq::<T>::empty() + v =~= v);
}

/// Splitting loses and reorders nothing: the roots, joined, are the
/// vertex list, and every root has a vertex.
pub proof fn lemma_split_roots_concat<T>(v: Seq<T>, lens: Seq<usize>)
    ensures
        concat_all(split_roots(v, lens)) == v,
        forall|i: int| 0 <= i < split_roots(v, lens).len() ==> #[trigger] split_roots(v, lens)[i].len() > 0,
{
    if v.len() == 0 {
    } else if lens.len() == 0 {
        lemma_concat_single(v);
    } else {
        lemma_split_state_bounds(v, lens, lens.len());
        let st = split_state(v, lens, lens.len());
        if st.0 < v.len() {
            let r = st.1.push(v.subrange(st.0, v.len() as int));
            assert(r.drop_last() =~= st.1);
            assert(v =~= v.subrange(0, st.0) + v.subrange(st.0, v.len() as int));
        } else if st.1.len() == 0 {
            assert(seq![v].drop_last() =~= Seq::<Seq<T>>::empty());
            assert(concat_all(seq![v]) =~= v);
        } else {
            assert(v.subrange(0, st.0) =~= v);
        }
    }
}

proof fn lemma_concat_append<T>(a: Seq<Seq<T>>, b: Seq<Seq<T>>)
    ensures
        concat_all(a + b) == concat_all(a) + concat_all(b),
    decreases b.len(),
{
    if b.len() == 0 {
        assert(a + b =~= a);
        assert(concat_all(a) + concat_all(b) =~= concat_all(a));
    } else {
        assert((a + b).drop_last() =~= a + b.drop_last());
        assert((a + b).last() == b.last());
        lemma_concat_append(a, b.drop_last());
        assert(concat_all(a) + concat_all(b.drop_last()) + b.last() =~= concat_all(a) + (concat_all(
            b.drop_last(),
        ) + b.last()));
    }
}

/// The vertex count of each root.
pub open spec fn root_lengths<T>(rs: Seq<Seq<T>>) -> Seq<usize> {
    rs.map_values(|r: Seq<T>| r.len() as usize)
}

proof fn lemma_state_of_concat<T>(rs: Seq<Seq<T>>, k: nat)
    requires
        k <= rs.len(),
        forall|i: int| 0 <= i < rs.len() ==> 0 < #[trigger] rs[i].len() <= usize::MAX,
    ensures
        split_state(concat_all(rs), root_lengths(rs), k) == (concat_all(rs.take(k as int)).len() as int, rs.take(k as int)),
    decreases k,
{
    let v = concat_all(rs);
    let lens = root_lengths(rs);
    if k == 0 {
        assert(rs.take(0) =~= Seq::<Seq<T>>::empty());
    } else {
        lemma_state_of_concat(rs, (k - 1) as nat);
        let j = k - 1;
        let pre = rs.take(j as int);
        let cur = rs.take(k as int);
        assert(cur.drop_last() =~= pre);
        assert(cur.last() == rs[j as int]);
        assert(rs =~= cur + rs.skip(k as int));
        lemma_concat_append(cur, rs.skip(k as int));
        let off = concat_all(pre).len() as int;
        let len = rs[j as int].len() as int;
        assert(lens[j as int] as int == len);
        assert(concat_all(cur) == concat_all(pre) + rs[j as int]);
        assert(v.subrange(off, off + len) =~= rs[j as int]);
        assert(cur =~= pre.push(rs[j as int]));
    }
}

/// Splitting the joined vertices of non-empty roots by their vertex counts
/// gives the roots back.
pub proof fn lemma_split_roots_of_concat<T>(rs: Seq<Seq<T>>)
    requires
        forall|i: int| 0 <= i < rs.len() ==> 0 < #[trigger] rs[i].len() <= usize::MAX,
    ensures
        split_roots(concat_all(rs), root_lengths(rs)) == rs,
{
    let v = concat_all(rs);
    if rs.len() == 0 {
        assert(split_roots(v, root_lengths(rs)) =~= rs);
    } else {
        lemma_state_of_concat(rs, rs.len());
        assert(rs.take(rs.len() as int) =~= rs);
        assert(root_lengths(rs).len() == rs.len());
        lemma_concat_append(rs.drop_last(), seq![rs.last()]);
        assert(rs =~= rs.drop_last() + seq![rs.last()]);
        lemma_concat_single(rs.last());
        assert(v.len() >= rs.last().len());
    }
}

} // verus!
