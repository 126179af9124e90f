//! Per-stream comparison of a PID package with the package re-read after
//! writing it, and the CLSID projection of a cached package.

use crate::pid_store::{nil_clsid, PidPackageData, PidPackageStore, PidRawStream};
use crate::string_map::seq_lt;
use crate::text::push_str;
use vstd::prelude::*;
use crate::path_order::{path_components, PathComponent};

verus! {

/// One per-stream divergence found by a round-trip verification.
#[derive(Debug, Clone, PartialEq, Eq)]
pub struct PidVerifyMismatch {
    pub path: String,
    pub source_len: usize,
    pub roundtrip_len: usize,
    pub first_diff_offset: usize,
}

/// Outcome of a PID round-trip verification.
#[derive(Debug, Clone, PartialEq, Eq)]
pub struct PidVerifyReport {
    pub stream_count: usize,
    pub matched: usize,
    pub mismatches: Vec<PidVerifyMismatch>,
    pub only_in_source: Vec<String>,
    pub only_in_roundtrip: Vec<String>,
}

impl PidVerifyReport {
    /// No stream differs and no stream is missing on either side.
    pub fn ok(&self) -> (b: bool)
        ensures
            b == (self.mismatches@.len() == 0 && self.only_in_source@.len() == 0
                && self.only_in_roundtrip@.len() == 0),
    {
        self.mismatches.len() == 0 && self.only_in_source.len() == 0
            && self.only_in_roundtrip.len() == 0
    }
}

/// The streams of a package as `(path, bytes)`.
pub open spec fn stream_rows(s: Seq<PidRawStream>) -> Seq<(Seq<char>, Seq<u8>)> {
    s.map_values(|r: PidRawStream| (r.path@, r.data@))
}

/// Bytes of the first stream in `rows` with path `k`.
pub open spec fn lookup(rows: Seq<(Seq<char>, Seq<u8>)>, k: Seq<char>) -> Option<Seq<u8>>
    decreases rows.len(),
{
    if rows.len() == 0 {
        None
    } else if rows[0].0 == k {
        Some(rows[0].1)
    } else {
        lookup(rows.skip(1), k)
    }
}

/// Paths of `a`, in order, that `b` lacks.
pub open spec fn only_in(a: Seq<(Seq<char>, Seq<u8>)>, b: Seq<(Seq<char>, Seq<u8>)>) -> Seq<
    Seq<char>,
>
    decreases a.len(),
{
    if a.len() == 0 {
        Seq::empty()
    } else {
        only_in(a.drop_last(), b) + if lookup(b, a.last().0) is None {
            seq![a.last().0]
        } else {
            Seq::empty()
        }
    }
}

/// Index of the first byte where `x` and `y` differ, or the shorter length.
pub open spec fn first_diff(x: Seq<u8>, y: Seq<u8>) -> nat
    decreases x.len(),
{
    if x.len() == 0 || y.len() == 0 {
        0
    } else if x[0] != y[0] {
        0
    } else {
        1 + first_diff(x.skip(1), y.skip(1))
    }
}

/// Streams of `a` present in `b` with identical bytes.
pub open spec fn matched_count(a: Seq<(Seq<char>, Seq<u8>)>, b: Seq<(Seq<char>, Seq<u8>)>) -> nat
    decreases a.len(),
{
    if a.len() == 0 {
        0
    } else {
        matched_count(a.drop_last(), b) + if lookup(b, a.last().0) == Some(a.last().1) {
            1nat
        } else {
            0nat
        }
    }
}

/// `(path, source_len, roundtrip_len, first_diff_offset)` for each stream
/// of `a`, in order, present in `b` with different bytes.
pub open spec fn mismatch_rows(a: Seq<(Seq<char>, Seq<u8>)>, b: Seq<(Seq<char>, Seq<u8>)>) -> Seq<
    (Seq<char>, nat, nat, nat),
>
    decreases a.len(),
{
    if a.len() == 0 {
        Seq::empty()
    } else {
        mismatch_rows(a.drop_last(), b) + match lookup(b, a.last().0) {
            Some(d) => if d != a.last().1 {
                seq![(a.last().0, a.last().1.len(), d.len(), first_diff(a.last().1, d))]
            } else {
                Seq::empty()
            },
            None => Seq::empty(),
        }
    }
}

/// Bytes of the first stream in `streams` with path `k`, if any.
pub(crate) fn find_stream<'a>(streams: &'a Vec<PidRawStream>, k: &String) -> (r: Option<&'a Vec<u8>>)
    ensures
        match lookup(stream_rows(streams@), k@) {
            Some(d) => r matches Some(v) && v@ == d,
            None => r is None,
        },
{
    let ghost rows = stream_rows(streams@);
    let mut i: usize = 0;
    assert(rows.skip(0) =~= rows);
    while i < streams.len()
        invariant
            i <= streams@.len(),
            rows == stream_rows(streams@),
            lookup(rows, k@) == lookup(rows.skip(i as int), k@),
        decreases streams.len() - i,
    {
        assert(rows.skip(i as int)[0] == (streams@[i as int].path@, streams@[i as int].data@));
        if streams[i].path == *k {
            return Some(&streams[i].data);
        }
        assert(rows.skip(i as int).skip(1) =~= rows.skip(i + 1));
        i += 1;
    }
    assert(rows.skip(i as int) =~= Seq::<(Seq<char>, Seq<u8>)>::empty());
    None
}

/// First differing byte index of `x` and `y`, or the shorter length.
fn first_diff_offset(x: &Vec<u8>, y: &Vec<u8>) -> (r: usize)
    ensures
        r == first_diff(x@, y@),
        r <= x@.len() && r <= y@.len(),
        (r == x@.len() && r == y@.len()) <==> x@ == y@,
{
    let len = if x.len() < y.len() {
        x.len()
    } else {
        y.len()
    };
    let mut i: usize = 0;
    assert(x@.skip(0) =~= x@);
    assert(y@.skip(0) =~= y@);
    while i < len && x[i] == y[i]
        invariant
            i <= len,
            len <= x@.len(),
            len <= y@.len(),
            len == x@.len() || len == y@.len(),
            first_diff(x@, y@) == i + first_diff(x@.skip(i as int), y@.skip(i as int)),
            forall|j: int| 0 <= j < i ==> x@[j] == y@[j],
        decreases len - i,
    {
        assert(x@.skip(i as int).skip(1) =~= x@.skip(i + 1));
        assert(y@.skip(i as int).skip(1) =~= y@.skip(i + 1));
        i += 1;
    }
    proof {
        if x@.len() == y@.len() && i == x@.len() {
            assert(x@ =~= y@);
        }
        if x@ == y@ {
            if i < len {
                assert(x@[i as int] == y@[i as int]);
            }
        }
    }
    i
}

/// Compare the streams of `original` with those of `roundtrip`, path by
/// path, in `original`'s order (`only_in_roundtrip` in `roundtrip`'s).
pub fn compare_streams(original: &PidPackageData, roundtrip: &PidPackageData) -> (r: PidVerifyReport)
    ensures
        r.stream_count == original.streams@.len(),
        r.matched == matched_count(stream_rows(original.streams@), stream_rows(roundtrip.streams@)),
        r.only_in_source@.map_values(|s: String| s@) == only_in(
            stream_rows(original.streams@),
            stream_rows(roundtrip.streams@),
        ),
        r.only_in_roundtrip@.map_values(|s: String| s@) == only_in(
            stream_rows(roundtrip.streams@),
            stream_rows(original.streams@),
        ),
        r.mismatches@.map_values(
            |m: PidVerifyMismatch|
                (m.path@, m.source_len as nat, m.roundtrip_len as nat, m.first_diff_offset as nat),
        ) == mismatch_rows(stream_rows(original.streams@), stream_rows(roundtrip.streams@)),
{
    let only_in_source = missing_paths(&original.streams, &roundtrip.streams);
    let only_in_roundtrip = missing_paths(&roundtrip.streams, &original.streams);
    let ghost a = stream_rows(original.streams@);
    let ghost b = stream_rows(roundtrip.streams@);
    let mut matched: usize = 0;
    let mut mismatches: Vec<PidVerifyMismatch> = Vec::new();
    let mut i: usize = 0;
    assert(a.take(0) =~= Seq::<(Seq<char>, Seq<u8>)>::empty());
    while i < original.streams.len()
        invariant
            i <= original.streams@.len(),
            a == stream_rows(original.streams@),
            b == stream_rows(roundtrip.streams@),
            matched == matched_count(a.take(i as int), b),
            matched <= i,
            mismatches@.map_values(
                |m: PidVerifyMismatch|
                    (
                        m.path@,
                        m.source_len as nat,
                        m.roundtrip_len as nat,
                        m.first_diff_offset as nat,
                    ),
            ) == mismatch_rows(a.take(i as int), b),
        decreases original.streams.len() - i,
    {
        let src = &original.streams[i];
        assert(a.take(i + 1).drop_last() =~= a.take(i as int));
        assert(a.take(i + 1).last() == (src.path@, src.data@));
        match find_stream(&roundtrip.streams, &src.path) {
            Some(dst) => {
                let off = first_diff_offset(&src.data, dst);
                if off == src.data.len() && off == dst.len() {
                    matched += 1;
                } else {
                    mismatches.push(
                        PidVerifyMismatch {
                            path: src.path.clone(),
                            source_len: src.data.len(),
                            roundtrip_len: dst.len(),
                            first_diff_offset: off,
                        },
                    );
                }
            },
            None => {},
        }
        i += 1;
    }
    assert(a.take(original.streams@.len() as int) =~= a);
    PidVerifyReport {
        stream_count: original.streams.len(),
        matched,
        mismatches,
        only_in_source,
        only_in_roundtrip,
    }
}

/// Paths of `a`, in order, with no stream of the same path in `b`.
fn missing_paths(a: &Vec<PidRawStream>, b: &Vec<PidRawStream>) -> (r: Vec<String>)
    ensures
        r@.map_values(|s: String| s@) == only_in(stream_rows(a@), stream_rows(b@)),
{
    let ghost ar = stream_rows(a@);
    let mut r: Vec<String> = Vec::new();
    let mut i: usize = 0;
    assert(ar.take(0) =~= Seq::<(Seq<char>, Seq<u8>)>::empty());
    while i < a.len()
        invariant
            i <= a@.len(),
            ar == stream_rows(a@),
            r@.map_values(|s: String| s@) == only_in(ar.take(i as int), stream_rows(b@)),
        decreases a.len() - i,
    {
        assert(ar.take(i + 1).drop_last() =~= ar.take(i as int));
        assert(ar.take(i + 1).last() == (a@[i as int].path@, a@[i as int].data@));
        if find_stream(b, &a[i].path).is_none() {
            r.push(a[i].path.clone());
        }
        assert(r@.map_values(|s: String| s@) =~= only_in(ar.take(i + 1), stream_rows(b@)));
        i += 1;
    }
    assert(ar.take(a@.len() as int) =~= ar);
    r
}

/// Owned view of a package's CLSID metadata in `{…}` form.
#[derive(Debug, Clone, PartialEq, Eq)]
pub struct PidClsidInfo {
    pub root_clsid: Option<String>,
    /// `(storage_path, clsid)` pairs for non-root storages with a non-nil CLSID.
    pub non_root: Vec<(String, String)>,
}

pub open spec fn braced(s: Seq<char>) -> Seq<char> {
    seq!['{'] + s + seq!['}']
}

/// The message for a path that was never opened in this process.
pub open spec fn no_cache_message(source: Seq<char>) -> Seq<char> {
    "no cached PidPackage for "@ + source + " (open the file in H7CAD first)"@
}

pub fn no_cache_error(source: &str) -> (r: String)
    ensures
        r@ == no_cache_message(source@),
{
    let mut r = String::new();
    push_str(&mut r, "no cached PidPackage for ");
    push_str(&mut r, source);
    push_str(&mut r, " (open the file in H7CAD first)");
    r
}

pub(crate) fn braced_string(s: &str) -> (r: String)
    ensures
        r@ == braced(s@),
{
    let mut r = String::new();
    crate::text::push_char(&mut r, '{');
    push_str(&mut r, s);
    crate::text::push_char(&mut r, '}');
    r
}

/// `info` is the `{…}` projection of `pkg`'s CLSIDs, in `pkg`'s order.
pub open spec fn clsid_info_of(info: PidClsidInfo, pkg: PidPackageData) -> bool {
    &&& match pkg.root_clsid {
        Some(u) => info.root_clsid matches Some(s) && s@ == braced(u@),
        None => info.root_clsid is None,
    }
    &&& info.non_root@.len() == pkg.storage_clsids@.len()
    &&& forall|i: int|
        0 <= i < info.non_root@.len() ==> (#[trigger] info.non_root@[i]).0@
            == pkg.storage_clsids@[i].0@ && info.non_root@[i].1@ == braced(
            pkg.storage_clsids@[i].1@,
        )
}

/// What a package's CLSIDs read as: the storages in strictly increasing
/// path order, and no nil CLSID, neither for the root nor for a storage.
pub open spec fn clsid_info_clean(info: PidClsidInfo) -> bool {
    &&& info.root_clsid matches Some(s) ==> s@ != braced(nil_clsid())
    &&& forall|i: int, j: int|
        0 <= i < j < info.non_root@.len() ==> seq_lt(
            (#[trigger] info.non_root@[i]).0@,
            (#[trigger] info.non_root@[j]).0@,
        )
    &&& forall|i: int| 0 <= i < info.non_root@.len() ==> (#[trigger] info.non_root@[i]).1@ != braced(nil_clsid())
}

proof fn lemma_braced_injective(a: Seq<char>, b: Seq<char>)
    ensures
        braced(a) == braced(b) ==> a == b,
{
    if braced(a) == braced(b) {
        assert(a =~= braced(a).subrange(1, braced(a).len() - 1));
        assert(b =~= braced(b).subrange(1, braced(b).len() - 1));
    }
}

/// CLSID metadata of the cached package for `source`; errors only when
/// nothing is cached for it.
pub fn read_pid_clsid(store: &PidPackageStore, source: &str) -> (r: Result<PidClsidInfo, String>)
    ensures
        r matches Ok(info) ==> clsid_info_clean(info),
        !store@.dom().contains(path_components(source@)) ==> (r matches Err(e) && e@ == no_cache_message(source@)),
        store@.dom().contains(path_components(source@)) ==> (r matches Ok(info) && clsid_info_of(
            info,
            store@[path_components(source@)],
        )),
{
    let pkg = match store.get_package(source) {
        Some(p) => p,
        None => {
            return Err(no_cache_error(source));
        },
    };
    let root_clsid = match &pkg.root_clsid {
        Some(u) => Some(braced_string(u.as_str())),
        None => None,
    };
    let mut non_root: Vec<(String, String)> = Vec::new();
    let mut i: usize = 0;
    while i < pkg.storage_clsids.len()
        invariant
            i <= pkg.storage_clsids@.len(),
            non_root@.len() == i,
            forall|j: int|
                0 <= j < i ==> (#[trigger] non_root@[j]).0@ == pkg.storage_clsids@[j].0@
                    && non_root@[j].1@ == braced(pkg.storage_clsids@[j].1@),
        decreases pkg.storage_clsids.len() - i,
    {
        let (path, uuid) = &pkg.storage_clsids[i];
        non_root.push((path.clone(), braced_string(uuid.as_str())));
        i += 1;
    }
    let info = PidClsidInfo { root_clsid, non_root };
    proof {
        if pkg.root_clsid is Some {
            lemma_braced_injective(pkg.root_clsid->0@, nil_clsid());
        }
        assert forall|j: int| 0 <= j < info.non_root@.len() implies (#[trigger] info.non_root@[j]).1@ != braced(
            nil_clsid(),
        ) by {
            assert(pkg.storage_clsids@[j].1@ != nil_clsid());
            lemma_braced_injective(pkg.storage_clsids@[j].1@, nil_clsid());
        }
        assert forall|a: int, b: int| 0 <= a < b < info.non_root@.len() implies seq_lt(
            (#[trigger] info.non_root@[a]).0@,
            (#[trigger] info.non_root@[b]).0@,
        ) by {
            assert(seq_lt(pkg.storage_clsids@[a].0@, pkg.storage_clsids@[b].0@));
        }
    }
    Ok(info)
}

} // verus!

verus! {

/// No two streams share a path.
pub open spec fn paths_distinct(rows: Seq<(Seq<char>, Seq<u8>)>) -> bool {
    forall|i: int, j: int| 0 <= i < j < rows.len() ==> rows[i].0 != rows[j].0
}

proof fn lemma_lookup_own(rows: Seq<(Seq<char>, Seq<u8>)>, i: int)
    requires
        paths_distinct(rows),
        0 <= i < rows.len(),
    ensures
        lookup(rows, rows[i].0) == Some(rows[i].1),
    decreases i,
{
    if i > 0 {
        assert(rows[0].0 != rows[i].0);
        let t = rows.skip(1);
        assert(paths_distinct(t)) by {
            assert forall|a: int, b: int| 0 <= a < b < t.len() implies t[a].0 != t[b].0 by {
                assert(t[a] == rows[a + 1]);
                assert(t[b] == rows[b + 1]);
            }
        }
        assert(t[i - 1] == rows[i]);
        lemma_lookup_own(t, i - 1);
    }
}

proof fn lemma_compare_prefix(a: Seq<(Seq<char>, Seq<u8>)>, n: int)
    requires
        paths_distinct(a),
        0 <= n <= a.len(),
    ensures
        only_in(a.take(n), a) == Seq::<Seq<char>>::empty(),
        mismatch_rows(a.take(n), a) == Seq::<(Seq<char>, nat, nat, nat)>::empty(),
        matched_count(a.take(n), a) == n,
    decreases n,
{
    if n > 0 {
        lemma_compare_prefix(a, n - 1);
        assert(a.take(n).drop_last() =~= a.take(n - 1));
        assert(a.take(n).last() == a[n - 1]);
        lemma_lookup_own(a, n - 1);
        assert(only_in(a.take(n), a) =~= Seq::<Seq<char>>::empty());
        assert(mismatch_rows(a.take(n), a) =~= Seq::<(Seq<char>, nat, nat, nat)>::empty());
    }
}

/// Comparing a package whose stream paths are distinct with an identical
/// package matches every stream and reports no difference, so the report
/// is `ok`.
pub proof fn lemma_compare_identical(a: Seq<(Seq<char>, Seq<u8>)>)
    requires
        paths_distinct(a),
    ensures
        only_in(a, a) == Seq::<Seq<char>>::empty(),
        mismatch_rows(a, a) == Seq::<(Seq<char>, nat, nat, nat)>::empty(),
        matched_count(a, a) == a.len(),
{
    lemma_compare_prefix(a, a.len() as int);
    assert(a.take(a.len() as int) =~= a);
}


proof fn lemma_lookup_found(rows: Seq<(Seq<char>, Seq<u8>)>, k: Seq<char>)
    ensures
        lookup(rows, k) is None <==> forall|i: int| 0 <= i < rows.len() ==> rows[i].0 != k,
        lookup(rows, k) matches Some(d) ==> exists|i: int| 0 <= i < rows.len() && rows[i].0 == k && rows[i].1 == d,
    decreases rows.len(),
{
    if rows.len() > 0 {
        let t = rows.skip(1);
        lemma_lookup_found(t, k);
        if rows[0].0 != k {
            assert forall|i: int| 0 <= i < t.len() implies t[i] == rows[i + 1] by {}
            if let Some(d) = lookup(t, k) {
                let j = choose|j: int| 0 <= j < t.len() && t[j].0 == k && t[j].1 == d;
                assert(rows[j + 1].0 == k);
            }
            if exists|i: int| 0 <= i < rows.len() && rows[i].0 == k {
                let i = choose|i: int| 0 <= i < rows.len() && rows[i].0 == k;
                assert(t[i - 1].0 == k);
            }
        }
    }
}

/// `only_in(a, b)` is empty exactly when every path of `a` is in `b`.
proof fn lemma_only_in_empty(a: Seq<(Seq<char>, Seq<u8>)>, b: Seq<(Seq<char>, Seq<u8>)>)
    ensures
        only_in(a, b).len() == 0 <==> forall|i: int| 0 <= i < a.len() ==> lookup(b, #[trigger] a[i].0) is Some,
    decreases a.len(),
{
    if a.len() > 0 {
        let p = a.drop_last();
        lemma_only_in_empty(p, b);
        assert forall|i: int| 0 <= i < p.len() implies p[i] == a[i] by {}
        if only_in(a, b).len() == 0 {
            assert(only_in(p, b).len() == 0);
            assert(lookup(b, a[a.len() - 1].0) is Some);
        }
    }
}

/// `mismatch_rows(a, b)` is empty exactly when every path of `a` found in
/// `b` has the same bytes there.
proof fn lemma_mismatch_empty(a: Seq<(Seq<char>, Seq<u8>)>, b: Seq<(Seq<char>, Seq<u8>)>)
    ensures
        mismatch_rows(a, b).len() == 0 <==> forall|i: int|
            0 <= i < a.len() ==> (lookup(b, #[trigger] a[i].0) matches Some(d) ==> d == a[i].1),
    decreases a.len(),
{
    if a.len() > 0 {
        let p = a.drop_last();
        lemma_mismatch_empty(p, b);
        assert forall|i: int| 0 <= i < p.len() implies p[i] == a[i] by {}
        if mismatch_rows(a, b).len() == 0 {
            assert(mismatch_rows(p, b).len() == 0);
        }
    }
}

/// How many paths of `a` are found in `b`.
pub open spec fn shared_count(a: Seq<(Seq<char>, Seq<u8>)>, b: Seq<(Seq<char>, Seq<u8>)>) -> nat
    decreases a.len(),
{
    if a.len() == 0 {
        0
    } else {
        shared_count(a.drop_last(), b) + if lookup(b, a.last().0) is Some {
            1nat
        } else {
            0nat
        }
    }
}

proof fn lemma_matched_plus_mismatched(a: Seq<(Seq<char>, Seq<u8>)>, b: Seq<(Seq<char>, Seq<u8>)>)
    ensures
        matched_count(a, b) + mismatch_rows(a, b).len() == shared_count(a, b),
    decreases a.len(),
{
    if a.len() > 0 {
        lemma_matched_plus_mismatched(a.drop_last(), b);
    }
}

/// A round-trip comparison of two packages whose stream paths are distinct
/// reports no difference (`ok`) exactly when both hold the same paths with
/// the same bytes under each; and every stream of the source found in the
/// round trip is either matched or a mismatch.
pub proof fn lemma_compare_ok_iff_same_streams(a: Seq<(Seq<char>, Seq<u8>)>, b: Seq<(Seq<char>, Seq<u8>)>)
    requires
        paths_distinct(a),
        paths_distinct(b),
    ensures
        (only_in(a, b).len() == 0 && only_in(b, a).len() == 0 && mismatch_rows(a, b).len() == 0) <==> forall|
            k: Seq<char>,
        | #[trigger] lookup(a, k) == lookup(b, k),
        matched_count(a, b) + mismatch_rows(a, b).len() == shared_count(a, b),
{
    lemma_matched_plus_mismatched(a, b);
    lemma_only_in_empty(a, b);
    lemma_only_in_empty(b, a);
    lemma_mismatch_empty(a, b);
    if only_in(a, b).len() == 0 && only_in(b, a).len() == 0 && mismatch_rows(a, b).len() == 0 {
        assert forall|k: Seq<char>| #[trigger] lookup(a, k) == lookup(b, k) by {
            lemma_lookup_found(a, k);
            lemma_lookup_found(b, k);
            if let Some(d) = lookup(a, k) {
                let i = choose|i: int| 0 <= i < a.len() && a[i].0 == k && a[i].1 == d;
                assert(lookup(b, a[i].0) is Some);
            } else if let Some(d) = lookup(b, k) {
                let j = choose|j: int| 0 <= j < b.len() && b[j].0 == k && b[j].1 == d;
                assert(lookup(a, b[j].0) is Some);
            }
        }
    }
    if forall|k: Seq<char>| #[trigger] lookup(a, k) == lookup(b, k) {
        assert forall|i: int| 0 <= i < a.len() implies lookup(b, #[trigger] a[i].0) is Some by {
            lemma_lookup_own(a, i);
            assert(lookup(a, a[i].0) == lookup(b, a[i].0));
        }
        assert forall|i: int| 0 <= i < b.len() implies lookup(a, #[trigger] b[i].0) is Some by {
            lemma_lookup_own(b, i);
            assert(lookup(a, b[i].0) == lookup(b, b[i].0));
        }
        assert forall|i: int| 0 <= i < a.len() implies (lookup(b, #[trigger] a[i].0) matches Some(d) ==> d == a[i].1) by {
            lemma_lookup_own(a, i);
            assert(lookup(a, a[i].0) == lookup(b, a[i].0));
        }
    }
}


/// For two well-formed packages, the round-trip comparison is `ok`
/// exactly when both hold the same stream paths with the same bytes.
pub proof fn lemma_compare_ok_for_packages(a: PidPackageData, b: PidPackageData)
    requires
        a.well_formed(),
        b.well_formed(),
    ensures
        (only_in(stream_rows(a.streams@), stream_rows(b.streams@)).len() == 0 && only_in(
            stream_rows(b.streams@),
            stream_rows(a.streams@),
        ).len() == 0 && mismatch_rows(stream_rows(a.streams@), stream_rows(b.streams@)).len() == 0) <==> forall|
            k: Seq<char>,
        | #[trigger] lookup(stream_rows(a.streams@), k) == lookup(stream_rows(b.streams@), k),
{
    lemma_well_formed_distinct(a);
    lemma_well_formed_distinct(b);
    lemma_compare_ok_iff_same_streams(stream_rows(a.streams@), stream_rows(b.streams@));
}

proof fn lemma_well_formed_distinct(a: PidPackageData)
    requires
        a.well_formed(),
    ensures
        paths_distinct(stream_rows(a.streams@)),
{
    let r = stream_rows(a.streams@);
    assert forall|i: int, j: int| 0 <= i < j < r.len() implies r[i].0 != r[j].0 by {
        assert(crate::string_map::seq_lt(a.streams@[i].path@, a.streams@[j].path@));
        if r[i].0 == r[j].0 {
            crate::string_map::lemma_seq_lt_irreflexive(r[i].0);
        }
    }
}

} // verus!
