//! Cache of opened PID packages keyed by path, kept so that a later
//! "Save As .pid" can replay the original raw stream bytes, plus the
//! per-stream comparison used to verify a write/re-read round trip.
//!
//! A package is held as the plain values the logic reads: its raw streams
//! (path and bytes, in path order) and its CLSID metadata.

use crate::path_order::{
    components_less, components_lt, components_view, lemma_components_lt_irreflexive,
    lemma_components_lt_total, lemma_components_lt_transitive, path_components, path_components_of,
    path_lt, PathComponent,
};
use crate::string_map::{
    has_key, keys_distinct, lemma_insert_has_key, lemma_map_of, lemma_map_of_insert_new,
    lemma_map_of_remove_at, lemma_rows_update, map_of, seq_lt,
};
use crate::text::push_str;
use vstd::prelude::*;

verus! {

/// One raw CFB stream: its path inside the container and its bytes.
#[derive(Debug, Clone)]
pub struct PidRawStream {
    pub path: String,
    pub data: Vec<u8>,
}

/// What the cache keeps of a parsed PID package.
#[derive(Debug, Clone)]
pub struct PidPackageData {
    /// Raw streams in path order.
    pub streams: Vec<PidRawStream>,
    /// CLSID of the root storage, hyphenated, when not nil.
    pub root_clsid: Option<String>,
    /// `(storage_path, clsid)` for non-root storages with a non-nil CLSID.
    pub storage_clsids: Vec<(String, String)>,
}

/// The nil CLSID, hyphenated.
pub open spec fn nil_clsid() -> Seq<char> {
    "00000000-0000-0000-0000-000000000000"@
}

impl PidPackageData {
    /// As a parsed package holds it: streams in strictly increasing path
    /// order, the non-root storages in strictly increasing path order, and
    /// no nil CLSID kept, neither for the root nor for a storage.
    pub open spec fn well_formed(&self) -> bool {
        &&& self.root_clsid matches Some(u) ==> u@ != nil_clsid()
        &&& forall|i: int|
            0 <= i < self.storage_clsids@.len() ==> (#[trigger] self.storage_clsids@[i]).1@ != nil_clsid()
        &&& forall|i: int, j: int|
            0 <= i < j < self.streams@.len() ==> seq_lt(
                (#[trigger] self.streams@[i]).path@,
                (#[trigger] self.streams@[j]).path@,
            )
        &&& forall|i: int, j: int|
            0 <= i < j < self.storage_clsids@.len() ==> seq_lt(
                (#[trigger] self.storage_clsids@[i]).0@,
                (#[trigger] self.storage_clsids@[j]).0@,
            )
    }
}

/// Sum of the byte lengths of `streams`.
pub open spec fn stream_bytes(streams: Seq<PidRawStream>) -> int
    decreases streams.len(),
{
    if streams.len() == 0 {
        0
    } else {
        stream_bytes(streams.drop_last()) + streams.last().data@.len()
    }
}

/// Sum of the stream bytes of every package in `rows`.
pub open spec fn total_bytes<K>(rows: Seq<(K, PidPackageData)>) -> int
    decreases rows.len(),
{
    if rows.len() == 0 {
        0
    } else {
        total_bytes(rows.drop_last()) + stream_bytes(rows.last().1.streams@)
    }
}

/// `n` saturated at `u64::MAX`.
pub open spec fn saturate_u64(n: int) -> u64 {
    if n > u64::MAX {
        u64::MAX
    } else {
        n as u64
    }
}

/// Aggregate cache occupancy at one point in time.
#[derive(Debug, Clone, Copy, Default, PartialEq, Eq)]
pub struct PidPackageCacheStats {
    pub entry_count: usize,
    pub total_stream_bytes: u64,
}

/// Per-entry summary for the cache-statistics renderer.
#[derive(Debug, Clone, PartialEq, Eq)]
pub struct PidPackageCacheEntrySummary {
    pub path: String,
    pub stream_count: usize,
    pub stream_bytes: u64,
}

/// Process-wide cache of packages keyed by path.  Paths are keys as std's
/// `Path` compares them: by their `/`-separated components, so spellings
/// that differ only in separators or `.` parts name the same entry, and
/// entries are listed in path order.  The key is the text handed in:
/// resolving it against the file system (an absolute, link-free form) is
/// the caller's part.
#[derive(Debug)]
pub struct PidPackageStore {
    /// `(path as first cached, its components, package)`, in path order.
    entries: Vec<(String, Vec<(u8, String)>, PidPackageData)>,
}

/// Byte total of `streams`, saturating at `u64::MAX`.
fn sum_stream_bytes(streams: &Vec<PidRawStream>) -> (r: u64)
    ensures
        r == saturate_u64(stream_bytes(streams@)),
{
    let mut total: u64 = 0;
    let mut i: usize = 0;
    assert(streams@.take(0) =~= Seq::<PidRawStream>::empty());
    while i < streams.len()
        invariant
            i <= streams@.len(),
            total == saturate_u64(stream_bytes(streams@.take(i as int))),
        decreases streams.len() - i,
    {
        assert(streams@.take(i + 1).drop_last() =~= streams@.take(i as int));
        proof {
            lemma_stream_bytes_nonneg(streams@.take(i as int));
        }
        let len = streams[i].data.len() as u64;
        total = total.saturating_add(len);
        i += 1;
    }
    assert(streams@.take(streams@.len() as int) =~= streams@);
    total
}

proof fn lemma_stream_bytes_nonneg(s: Seq<PidRawStream>)
    ensures
        stream_bytes(s) >= 0,
    decreases s.len(),
{
    if s.len() > 0 {
        lemma_stream_bytes_nonneg(s.drop_last());
    }
}

proof fn lemma_total_bytes_nonneg<K>(r: Seq<(K, PidPackageData)>)
    ensures
        total_bytes(r) >= 0,
    decreases r.len(),
{
    if r.len() > 0 {
        lemma_total_bytes_nonneg(r.drop_last());
        lemma_stream_bytes_nonneg(r.last().1.streams@);
    }
}

/// The keys of `rows` strictly increase in path order.
pub open spec fn paths_sorted<V>(rows: Seq<(Seq<PathComponent>, V)>) -> bool {
    forall|i: int, j: int| 0 <= i < j < rows.len() ==> components_lt(rows[i].0, rows[j].0)
}

proof fn lemma_paths_sorted_distinct<V>(rows: Seq<(Seq<PathComponent>, V)>)
    requires
        paths_sorted(rows),
    ensures
        keys_distinct(rows),
{
    assert forall|i: int, j: int| 0 <= i < j < rows.len() implies rows[i].0 != rows[j].0 by {
        if rows[i].0 == rows[j].0 {
            lemma_components_lt_irreflexive(rows[i].0);
        }
    }
}

/// `rows` lists the packages of `m`, each key once (in any order).
pub open spec fn is_listing<K>(rows: Seq<(K, PidPackageData)>, m: Map<K, PidPackageData>) -> bool {
    keys_distinct(rows) && map_of(rows) == m
}

proof fn lemma_total_bytes_remove<K>(r: Seq<(K, PidPackageData)>, j: int)
    requires
        0 <= j < r.len(),
    ensures
        total_bytes(r) == total_bytes(r.remove(j)) + stream_bytes(r[j].1.streams@),
    decreases r.len(),
{
    if j == r.len() - 1 {
        assert(r.remove(j) =~= r.drop_last());
    } else {
        let p = r.drop_last();
        lemma_total_bytes_remove(p, j);
        assert(r.remove(j).drop_last() =~= p.remove(j));
        assert(r.remove(j).last() == r.last());
    }
}

/// `s` is the snapshot of a cache holding `m`: its number of entries, and
/// the stream bytes of its packages (listed in any order), saturated at
/// `u64::MAX`.
pub open spec fn stats_of(s: PidPackageCacheStats, m: Map<Seq<PathComponent>, PidPackageData>) -> bool {
    &&& s.entry_count == m.len()
    &&& exists|rows: Seq<(Seq<PathComponent>, PidPackageData)>| #[trigger] is_listing(rows, m)
    &&& forall|rows: Seq<(Seq<PathComponent>, PidPackageData)>|
        is_listing(rows, m) ==> s.total_stream_bytes == saturate_u64(#[trigger] total_bytes(rows))
}

/// `r` summarises the packages of `m`: one entry per cached path, in path
/// order, with its package's stream count and (saturated) stream bytes.
pub open spec fn summaries_of(r: Seq<PidPackageCacheEntrySummary>, m: Map<Seq<PathComponent>, PidPackageData>) -> bool {
    &&& r.len() == m.len()
    &&& forall|i: int, j: int| 0 <= i < j < r.len() ==> path_lt(r[i].path@, r[j].path@)
    &&& forall|i: int|
        0 <= i < r.len() ==> m.dom().contains(path_components((#[trigger] r[i]).path@))
            && r[i].stream_count == m[path_components(r[i].path@)].streams@.len()
            && r[i].stream_bytes == saturate_u64(stream_bytes(m[path_components(r[i].path@)].streams@))
    &&& forall|k: Seq<PathComponent>|
        m.dom().contains(k) ==> exists|i: int| 0 <= i < r.len() && path_components(r[i].path@) == k
}

/// The byte counts of `r` added up, saturating at `u64::MAX`.
pub open spec fn saturating_total(r: Seq<PidPackageCacheEntrySummary>) -> u64
    decreases r.len(),
{
    if r.len() == 0 {
        0
    } else {
        saturate_u64(saturating_total(r.drop_last()) + r.last().stream_bytes)
    }
}

proof fn lemma_saturating_total(r: Seq<PidPackageCacheEntrySummary>, rows: Seq<(Seq<PathComponent>, PidPackageData)>)
    requires
        r.len() == rows.len(),
        forall|i: int| 0 <= i < r.len() ==> (#[trigger] r[i]).stream_bytes == saturate_u64(stream_bytes(rows[i].1.streams@)),
    ensures
        saturating_total(r) == saturate_u64(total_bytes(rows)),
    decreases r.len(),
{
    if r.len() > 0 {
        let rp = r.drop_last();
        let wp = rows.drop_last();
        assert forall|i: int| 0 <= i < rp.len() implies (#[trigger] rp[i]).stream_bytes == saturate_u64(
            stream_bytes(wp[i].1.streams@),
        ) by {
            assert(rp[i] == r[i] && wp[i] == rows[i]);
        }
        lemma_saturating_total(rp, wp);
        lemma_total_bytes_nonneg(wp);
        lemma_stream_bytes_nonneg(rows.last().1.streams@);
        assert(r.last() == r[r.len() - 1]);
    }
}

/// Taken of the same cache, the snapshot counts the entry summaries, and
/// its byte total is their byte counts added up, saturating.
pub proof fn lemma_stats_match_summaries(
    m: Map<Seq<PathComponent>, PidPackageData>,
    s: PidPackageCacheStats,
    r: Seq<PidPackageCacheEntrySummary>,
)
    requires
        stats_of(s, m),
        summaries_of(r, m),
    ensures
        s.entry_count == r.len(),
        s.total_stream_bytes == saturating_total(r),
{
    let rows = Seq::new(
        r.len(),
        |i: int| (path_components(r[i].path@), m[path_components(r[i].path@)]),
    );
    assert forall|a: int, b: int| 0 <= a < b < rows.len() implies rows[a].0 != rows[b].0 by {
        assert(path_lt(r[a].path@, r[b].path@));
        if rows[a].0 == rows[b].0 {
            lemma_components_lt_irreflexive(rows[a].0);
        }
    }
    lemma_map_of(rows);
    assert forall|k: Seq<PathComponent>| #[trigger] map_of(rows).dom().contains(k) <==> m.dom().contains(k) by {
        if has_key(rows, k) {
            let j = choose|j: int| 0 <= j < rows.len() && rows[j].0 == k;
            assert(m.dom().contains(path_components(r[j].path@)));
        }
        if m.dom().contains(k) {
            let j = choose|j: int| 0 <= j < r.len() && path_components(r[j].path@) == k;
            assert(rows[j].0 == k);
        }
    }
    assert forall|k: Seq<PathComponent>| #[trigger] map_of(rows).dom().contains(k) implies map_of(rows)[k] == m[k] by {
        let j = choose|j: int| 0 <= j < rows.len() && rows[j].0 == k;
        assert(map_of(rows)[rows[j].0] == rows[j].1);
    }
    assert(map_of(rows).dom() =~= m.dom());
    assert(map_of(rows) =~= m);
    assert(is_listing(rows, m));
    assert forall|i: int| 0 <= i < r.len() implies (#[trigger] r[i]).stream_bytes == saturate_u64(
        stream_bytes(rows[i].1.streams@),
    ) by {
        assert(m.dom().contains(path_components(r[i].path@)));
    }
    lemma_saturating_total(r, rows);
}

/// Any two listings of the same packages have the same byte total.
proof fn lemma_total_bytes_listing<K>(r1: Seq<(K, PidPackageData)>, r2: Seq<(K, PidPackageData)>)
    requires
        keys_distinct(r1),
        keys_distinct(r2),
        map_of(r1) == map_of(r2),
    ensures
        total_bytes(r1) == total_bytes(r2),
    decreases r1.len(),
{
    lemma_map_of(r1);
    lemma_map_of(r2);
    if r1.len() == 0 {
        assert(map_of(r2).dom().len() == 0);
    } else {
        let n = r1.len() - 1;
        let k = r1[n].0;
        assert(map_of(r1)[r1[n].0] == r1[n].1);
        assert(map_of(r1).dom().contains(k));
        let j = choose|j: int| 0 <= j < r2.len() && r2[j].0 == k;
        assert(map_of(r2)[r2[j].0] == r2[j].1);
        lemma_map_of_remove_at(r1, n);
        lemma_map_of_remove_at(r2, j);
        assert(r1.remove(n) =~= r1.drop_last());
        lemma_total_bytes_listing(r1.drop_last(), r2.remove(j));
        lemma_total_bytes_remove(r2, j);
    }
}

impl PidPackageStore {
    /// Entries as `(path components, package)`, in path order.
    pub closed spec fn rows(&self) -> Seq<(Seq<PathComponent>, PidPackageData)> {
        self.entries@.map_values(
            |e: (String, Vec<(u8, String)>, PidPackageData)| (components_view(e.1@), e.2),
        )
    }

    /// Entries as `(path components, path as first cached)`, in path order.
    spec fn spell_rows(&self) -> Seq<(Seq<PathComponent>, Seq<char>)> {
        self.entries@.map_values(
            |e: (String, Vec<(u8, String)>, PidPackageData)| (components_view(e.1@), e.0@),
        )
    }

    /// The text each cached path was first cached under, by its components.
    pub closed spec fn spelling(&self) -> Map<Seq<PathComponent>, Seq<char>> {
        map_of(self.spell_rows())
    }

    proof fn lemma_spelling(&self)
        requires
            keys_distinct(self.rows()),
        ensures
            keys_distinct(self.spell_rows()),
            forall|k: Seq<PathComponent>| has_key(self.spell_rows(), k) <==> has_key(self.rows(), k),
            self.spelling().dom() == self@.dom(),
            forall|i: int|
                0 <= i < self.entries@.len() ==> self.spelling()[self.rows()[i].0] == (
                #[trigger] self.entries@[i]).0@,
    {
        let sr = self.spell_rows();
        let r = self.rows();
        assert forall|i: int| 0 <= i < sr.len() implies (#[trigger] sr[i]).0 == r[i].0 by {}
        assert(keys_distinct(sr)) by {
            assert forall|a: int, b: int| 0 <= a < b < sr.len() implies sr[a].0 != sr[b].0 by {
                assert(sr[a].0 == r[a].0 && sr[b].0 == r[b].0);
            }
        }
        assert forall|k: Seq<PathComponent>| has_key(sr, k) <==> has_key(r, k) by {
            if has_key(sr, k) {
                let j = choose|j: int| 0 <= j < sr.len() && sr[j].0 == k;
                assert(r[j].0 == k);
            }
            if has_key(r, k) {
                let j = choose|j: int| 0 <= j < r.len() && r[j].0 == k;
                assert(sr[j].0 == k);
            }
        }
        lemma_map_of(sr);
        lemma_map_of(r);
        assert(self.spelling().dom() =~= self@.dom());
        assert forall|i: int| 0 <= i < self.entries@.len() implies self.spelling()[self.rows()[i].0] == (
        #[trigger] self.entries@[i]).0@ by {
            assert(sr[i].0 == r[i].0);
            assert(map_of(sr)[sr[i].0] == sr[i].1);
        }
    }

    #[verifier::type_invariant]
    spec fn inv(&self) -> bool {
        &&& paths_sorted(self.rows())
        &&& forall|i: int| 0 <= i < self.entries@.len() ==> (#[trigger] self.entries@[i]).2.well_formed()
        &&& forall|i: int|
            0 <= i < self.entries@.len() ==> path_components((#[trigger] self.entries@[i]).0@)
                == components_view(self.entries@[i].1@)
    }

    pub fn new() -> (s: Self)
        ensures
            s@ == Map::<Seq<PathComponent>, PidPackageData>::empty(),
            s.spelling() == Map::<Seq<PathComponent>, Seq<char>>::empty(),
    {
        let s = PidPackageStore { entries: Vec::new() };
        assert(s.rows() =~= Seq::<(Seq<PathComponent>, PidPackageData)>::empty());
        assert(s.spell_rows() =~= Seq::<(Seq<PathComponent>, Seq<char>)>::empty());
        s
    }

    /// Position of the path with components `key` in the entry list, or
    /// where it would go.
    fn locate(&self, key: &Vec<(u8, String)>) -> (r: (usize, bool))
        ensures
            r.0 <= self.rows().len(),
            r.1 ==> r.0 < self.rows().len() && self.rows()[r.0 as int].0 == components_view(key@),
            !r.1 ==> !has_key(self.rows(), components_view(key@)),
            forall|j: int| 0 <= j < r.0 ==> components_lt(#[trigger] self.rows()[j].0, components_view(key@)),
            !r.1 ==> forall|j: int|
                r.0 <= j < self.rows().len() ==> components_lt(
                    components_view(key@),
                    #[trigger] self.rows()[j].0,
                ),
    {
        proof {
            use_type_invariant(self);
        }
        let ghost k = components_view(key@);
        let mut p: usize = 0;
        while p < self.entries.len() && components_less(&self.entries[p].1, key)
            invariant
                p <= self.entries@.len(),
                k == components_view(key@),
                paths_sorted(self.rows()),
                forall|j: int| 0 <= j < p ==> components_lt(#[trigger] self.rows()[j].0, k),
            decreases self.entries.len() - p,
        {
            assert(self.rows()[p as int].0 == components_view(self.entries@[p as int].1@));
            p += 1;
        }
        if p < self.entries.len() {
            assert(self.rows()[p as int].0 == components_view(self.entries@[p as int].1@));
            if !components_less(key, &self.entries[p].1) {
                proof {
                    if self.rows()[p as int].0 != k {
                        lemma_components_lt_total(self.rows()[p as int].0, k);
                    }
                }
                return (p, true);
            }
        }
        proof {
            if p < self.rows().len() {
                assert forall|j: int| p <= j < self.rows().len() implies components_lt(
                    k,
                    #[trigger] self.rows()[j].0,
                ) by {
                    if j > p {
                        lemma_components_lt_transitive(k, self.rows()[p as int].0, self.rows()[j].0);
                    }
                }
            }
            assert(!has_key(self.rows(), k)) by {
                if has_key(self.rows(), k) {
                    let j = choose|j: int| 0 <= j < self.rows().len() && self.rows()[j].0 == k;
                    lemma_components_lt_irreflexive(k);
                }
            }
        }
        (p, false)
    }

    /// Insert (or overwrite) the cached package for `path`.  A path already
    /// cached under another spelling keeps its first spelling.
    pub fn cache_package(&mut self, path: String, package: PidPackageData)
        requires
            package.well_formed(),
        ensures
            final(self)@ == old(self)@.insert(path_components(path@), package),
            final(self).spelling() == if old(self)@.dom().contains(path_components(path@)) {
                old(self).spelling()
            } else {
                old(self).spelling().insert(path_components(path@), path@)
            },
    {
        proof {
            use_type_invariant(&*self);
            lemma_paths_sorted_distinct(self.rows());
            self.lemma_spelling();
            lemma_map_of(self.rows());
        }
        let ghost old_rows = self.rows();
        let ghost old_spell = self.spell_rows();
        let ghost path_view = path@;
        let ghost old_entries = self.entries@;
        let comps = path_components_of(path.as_str());
        let (p, found) = self.locate(&comps);
        let mut entries: Vec<(String, Vec<(u8, String)>, PidPackageData)> = Vec::new();
        std::mem::swap(&mut entries, &mut self.entries);
        let ghost key = components_view(comps@);
        assert(entries@ == old_entries);
        if found {
            let mut e = entries.remove(p);
            e.2 = package;
            entries.insert(p, e);
            proof {
                let nr = entries@.map_values(
                    |e: (String, Vec<(u8, String)>, PidPackageData)| (components_view(e.1@), e.2),
                );
                assert(entries@ =~= old_entries.update(p as int, e));
                assert(nr =~= old_rows.update(p as int, (key, package)));
                lemma_paths_sorted_distinct(old_rows);
                lemma_rows_update(old_rows, p as int, package);
                assert(paths_sorted(nr)) by {
                    assert forall|a: int, b: int| 0 <= a < b < nr.len() implies components_lt(
                        nr[a].0,
                        nr[b].0,
                    ) by {
                        assert(nr[a].0 == old_rows[a].0);
                        assert(nr[b].0 == old_rows[b].0);
                    }
                }
                assert forall|i: int| 0 <= i < entries@.len() implies path_components(
                    (#[trigger] entries@[i]).0@,
                ) == components_view(entries@[i].1@) by {
                    assert(old_entries[i].0 == entries@[i].0 && old_entries[i].1 == entries@[i].1);
                }
                assert(entries@.map_values(
                    |e: (String, Vec<(u8, String)>, PidPackageData)| (components_view(e.1@), e.0@),
                ) =~= old_spell);
            }
            self.entries = entries;
        } else {
            let ghost e = (path, comps, package);
            entries.insert(p, (path, comps, package));
            proof {
                let nr = entries@.map_values(
                    |e: (String, Vec<(u8, String)>, PidPackageData)| (components_view(e.1@), e.2),
                );
                assert(entries@ =~= old_entries.insert(p as int, e));
                assert(nr =~= old_rows.insert(p as int, (key, package)));
                assert(paths_sorted(nr)) by {
                    assert forall|a: int, b: int| 0 <= a < b < nr.len() implies components_lt(
                        nr[a].0,
                        nr[b].0,
                    ) by {
                        if b < p {
                        } else if b == p {
                        } else if a < p {
                            lemma_components_lt_transitive(nr[a].0, key, nr[b].0);
                        } else if a == p {
                        } else {
                            assert(nr[a] == old_rows[a - 1]);
                            assert(nr[b] == old_rows[b - 1]);
                        }
                    }
                }
                assert forall|i: int| 0 <= i < entries@.len() implies path_components(
                    (#[trigger] entries@[i]).0@,
                ) == components_view(entries@[i].1@) by {
                    if i < p {
                        assert(entries@[i] == old_entries[i]);
                    } else if i > p {
                        assert(entries@[i] == old_entries[i - 1]);
                    }
                }
                lemma_paths_sorted_distinct(old_rows);
                lemma_paths_sorted_distinct(nr);
                lemma_insert_has_key(old_rows, p as int, (key, package));
                lemma_map_of(old_rows);
                lemma_map_of(nr);
                let m = map_of(old_rows).insert(key, package);
                assert forall|k: Seq<PathComponent>| #[trigger] map_of(nr).dom().contains(k) implies map_of(
                    nr,
                )[k] == m[k] by {
                    let j = choose|j: int| 0 <= j < nr.len() && nr[j].0 == k;
                    assert(map_of(nr)[nr[j].0] == nr[j].1);
                    if j < p {
                        assert(nr[j] == old_rows[j]);
                        assert(map_of(old_rows)[old_rows[j].0] == old_rows[j].1);
                    } else if j > p {
                        assert(nr[j] == old_rows[j - 1]);
                        assert(map_of(old_rows)[old_rows[j - 1].0] == old_rows[j - 1].1);
                    }
                }
                assert(map_of(nr).dom() =~= m.dom());
                assert(map_of(nr) =~= m);
                let ns = entries@.map_values(
                    |e: (String, Vec<(u8, String)>, PidPackageData)| (components_view(e.1@), e.0@),
                );
                assert(ns =~= old_spell.insert(p as int, (key, path_view)));
                lemma_map_of_insert_new(old_spell, p as int, (key, path_view));
            }
            self.entries = entries;
        }
    }

    /// The cached package for `path`, if any.
    pub fn get_package(&self, path: &str) -> (r: Option<&PidPackageData>)
        ensures
            r matches Some(p) ==> p.well_formed(),
            match r {
                Some(p) => self@.dom().contains(path_components(path@)) && self@[path_components(path@)] == *p,
                None => !self@.dom().contains(path_components(path@)),
            },
    {
        proof {
            use_type_invariant(self);
            lemma_paths_sorted_distinct(self.rows());
            lemma_map_of(self.rows());
        }
        let comps = path_components_of(path);
        let (p, found) = self.locate(&comps);
        if found {
            assert(self.rows()[p as int].1 == self.entries@[p as int].2);
            Some(&self.entries[p].2)
        } else {
            None
        }
    }

    /// Remove the entry for `path`; `true` when there was one.
    pub fn clear_package(&mut self, path: &str) -> (r: bool)
        ensures
            r == old(self)@.dom().contains(path_components(path@)),
            final(self)@ == old(self)@.remove(path_components(path@)),
            final(self).spelling() == old(self).spelling().remove(path_components(path@)),
    {
        proof {
            use_type_invariant(&*self);
            lemma_paths_sorted_distinct(self.rows());
            lemma_map_of(self.rows());
            self.lemma_spelling();
        }
        let ghost old_rows = self.rows();
        let ghost old_spell = self.spell_rows();
        let ghost old_entries = self.entries@;
        let comps = path_components_of(path);
        let ghost key = components_view(comps@);
        let (p, found) = self.locate(&comps);
        if !found {
            assert(self@ =~= old(self)@.remove(key));
            assert(self.spelling() =~= old(self).spelling().remove(key));
            return false;
        }
        let mut entries: Vec<(String, Vec<(u8, String)>, PidPackageData)> = Vec::new();
        std::mem::swap(&mut entries, &mut self.entries);
        assert(entries@ == old_entries);
        let _removed = entries.remove(p);
        proof {
            let nr = entries@.map_values(
                |e: (String, Vec<(u8, String)>, PidPackageData)| (components_view(e.1@), e.2),
            );
            assert(entries@ =~= old_entries.remove(p as int));
            assert(nr =~= old_rows.remove(p as int));
            assert(paths_sorted(nr)) by {
                assert forall|a: int, b: int| 0 <= a < b < nr.len() implies components_lt(nr[a].0, nr[b].0) by {
                    if a < p && b < p {
                    } else if a < p {
                        assert(nr[b] == old_rows[b + 1]);
                    } else {
                        assert(nr[a] == old_rows[a + 1]);
                        assert(nr[b] == old_rows[b + 1]);
                    }
                }
            }
            assert forall|i: int| 0 <= i < entries@.len() implies path_components(
                (#[trigger] entries@[i]).0@,
            ) == components_view(entries@[i].1@) by {
                if i < p {
                    assert(entries@[i] == old_entries[i]);
                } else {
                    assert(entries@[i] == old_entries[i + 1]);
                }
            }
            lemma_paths_sorted_distinct(nr);
            lemma_map_of(nr);
            let m = map_of(old_rows).remove(key);
            assert forall|k: Seq<PathComponent>| #[trigger] map_of(nr).dom().contains(k) <==> m.dom().contains(k) by {
                if has_key(nr, k) {
                    let j = choose|j: int| 0 <= j < nr.len() && nr[j].0 == k;
                    if j < p {
                        assert(old_rows[j].0 == k);
                    } else {
                        assert(old_rows[j + 1].0 == k);
                    }
                    assert(has_key(old_rows, k));
                    assert(k != key);
                }
                if has_key(old_rows, k) && k != key {
                    let j = choose|j: int| 0 <= j < old_rows.len() && old_rows[j].0 == k;
                    if j < p {
                        assert(nr[j].0 == k);
                    } else {
                        assert(j != p);
                        assert(nr[j - 1].0 == k);
                    }
                }
            }
            assert forall|k: Seq<PathComponent>| #[trigger] map_of(nr).dom().contains(k) implies map_of(nr)[k]
                == m[k] by {
                let j = choose|j: int| 0 <= j < nr.len() && nr[j].0 == k;
                assert(map_of(nr)[nr[j].0] == nr[j].1);
                if j < p {
                    assert(map_of(old_rows)[old_rows[j].0] == old_rows[j].1);
                } else {
                    assert(nr[j] == old_rows[j + 1]);
                    assert(map_of(old_rows)[old_rows[j + 1].0] == old_rows[j + 1].1);
                }
            }
            assert(map_of(nr).dom() =~= m.dom());
            assert(map_of(nr) =~= m);
            let ns = entries@.map_values(
                |e: (String, Vec<(u8, String)>, PidPackageData)| (components_view(e.1@), e.0@),
            );
            assert(ns =~= old_spell.remove(p as int));
            assert(old_spell[p as int].0 == key);
            lemma_map_of_remove_at(old_spell, p as int);
        }
        self.entries = entries;
        true
    }

    /// Snapshot of cache totals: number of entries and the stream bytes of
    /// all cached packages, saturating at `u64::MAX`.
    pub fn cache_stats(&self) -> (s: PidPackageCacheStats)
        ensures
            stats_of(s, self@),
    {
        proof {
            use_type_invariant(self);
            lemma_paths_sorted_distinct(self.rows());
            lemma_map_of(self.rows());
        }
        let mut total: u64 = 0;
        let mut i: usize = 0;
        assert(self.rows().take(0) =~= Seq::<(Seq<PathComponent>, PidPackageData)>::empty());
        while i < self.entries.len()
            invariant
                i <= self.entries@.len(),
                total == saturate_u64(total_bytes(self.rows().take(i as int))),
            decreases self.entries.len() - i,
        {
            let bytes = sum_stream_bytes(&self.entries[i].2.streams);
            proof {
                assert(self.rows().take(i + 1).drop_last() =~= self.rows().take(i as int));
                assert(self.rows()[i as int].1 == self.entries@[i as int].2);
                lemma_total_bytes_nonneg(self.rows().take(i as int));
                lemma_stream_bytes_nonneg(self.entries@[i as int].2.streams@);
            }
            total = total.saturating_add(bytes);
            i += 1;
        }
        assert(self.rows().take(self.entries@.len() as int) =~= self.rows());
        assert(is_listing(self.rows(), self@));
        assert forall|rows: Seq<(Seq<PathComponent>, PidPackageData)>| is_listing(rows, self@) implies total
            == saturate_u64(#[trigger] total_bytes(rows)) by {
            lemma_total_bytes_listing(rows, self.rows());
        }
        PidPackageCacheStats { entry_count: self.entries.len(), total_stream_bytes: total }
    }

    /// Paths currently cached (each as first cached), in path order.
    pub fn cached_paths(&self) -> (r: Vec<String>)
        ensures
            r@.len() == self@.len(),
            self.spelling().dom() == self@.dom(),
            forall|i: int| 0 <= i < r@.len() ==> (#[trigger] r@[i])@ == self.spelling()[path_components(r@[i]@)],
            forall|i: int, j: int| 0 <= i < j < r@.len() ==> path_lt(r@[i]@, r@[j]@),
            forall|k: Seq<PathComponent>|
                self@.dom().contains(k) <==> exists|i: int| 0 <= i < r@.len() && path_components(r@[i]@) == k,
    {
        proof {
            use_type_invariant(self);
            lemma_paths_sorted_distinct(self.rows());
            lemma_map_of(self.rows());
            self.lemma_spelling();
        }
        let mut r: Vec<String> = Vec::new();
        let mut i: usize = 0;
        while i < self.entries.len()
            invariant
                i <= self.entries@.len(),
                r@.len() == i,
                forall|j: int| 0 <= j < i ==> path_components((#[trigger] r@[j])@) == self.rows()[j].0,
                forall|j: int| 0 <= j < i ==> (#[trigger] r@[j])@ == self.entries@[j].0@,
                forall|i: int|
                    0 <= i < self.entries@.len() ==> path_components((#[trigger] self.entries@[i]).0@)
                        == components_view(self.entries@[i].1@),
            decreases self.entries.len() - i,
        {
            r.push(self.entries[i].0.clone());
            assert(path_components(self.entries@[i as int].0@) == components_view(self.entries@[i as int].1@));
            i += 1;
        }
        assert forall|i: int| 0 <= i < r@.len() implies (#[trigger] r@[i])@ == self.spelling()[path_components(
            r@[i]@,
        )] by {
            assert(path_components(self.entries@[i].0@) == components_view(self.entries@[i].1@));
            assert(self.spelling()[self.rows()[i].0] == self.entries@[i].0@);
        }
        assert forall|k: Seq<PathComponent>| self@.dom().contains(k) <==> exists|i: int|
            0 <= i < r@.len() && path_components(r@[i]@) == k by {
            if has_key(self.rows(), k) {
                let j = choose|j: int| 0 <= j < self.rows().len() && self.rows()[j].0 == k;
                assert(path_components(r@[j]@) == k);
            }
            if exists|i: int| 0 <= i < r@.len() && path_components(r@[i]@) == k {
                let j = choose|i: int| 0 <= i < r@.len() && path_components(r@[i]@) == k;
                assert(self.rows()[j].0 == k);
                assert(has_key(self.rows(), k));
            }
        }
        assert forall|a: int, b: int| 0 <= a < b < r@.len() implies path_lt(r@[a]@, r@[b]@) by {
            assert(path_components(r@[a]@) == self.rows()[a].0);
            assert(path_components(r@[b]@) == self.rows()[b].0);
        }
        r
    }

    /// One summary per cached package, in path order.
    pub fn cached_entry_summaries(&self) -> (r: Vec<PidPackageCacheEntrySummary>)
        ensures
            summaries_of(r@, self@),
            forall|i: int|
                0 <= i < r@.len() ==> (#[trigger] r@[i]).path@ == self.spelling()[path_components(r@[i].path@)],
    {
        proof {
            use_type_invariant(self);
            lemma_paths_sorted_distinct(self.rows());
            lemma_map_of(self.rows());
            self.lemma_spelling();
        }
        let mut r: Vec<PidPackageCacheEntrySummary> = Vec::new();
        let mut i: usize = 0;
        while i < self.entries.len()
            invariant
                i <= self.entries@.len(),
                r@.len() == i,
                keys_distinct(self.rows()),
                forall|i: int|
                    0 <= i < self.entries@.len() ==> path_components((#[trigger] self.entries@[i]).0@)
                        == components_view(self.entries@[i].1@),
                forall|j: int| 0 <= j < i ==> (#[trigger] r@[j]).path@ == self.entries@[j].0@,
                forall|j: int|
                    0 <= j < i ==> path_components((#[trigger] r@[j]).path@) == self.rows()[j].0
                        && r@[j].stream_count == self.rows()[j].1.streams@.len()
                        && r@[j].stream_bytes == saturate_u64(
                        stream_bytes(self.rows()[j].1.streams@),
                    ),
            decreases self.entries.len() - i,
        {
            let pkg = &self.entries[i].2;
            assert(self.rows()[i as int].1 == self.entries@[i as int].2);
            assert(path_components(self.entries@[i as int].0@) == components_view(self.entries@[i as int].1@));
            let bytes = sum_stream_bytes(&pkg.streams);
            r.push(
                PidPackageCacheEntrySummary {
                    path: self.entries[i].0.clone(),
                    stream_count: pkg.streams.len(),
                    stream_bytes: bytes,
                },
            );
            i += 1;
        }
        proof {
            assert forall|j: int| 0 <= j < r@.len() implies self@.dom().contains(
                path_components((#[trigger] r@[j]).path@),
            ) && r@[j].stream_count == self@[path_components(r@[j].path@)].streams@.len()
                && r@[j].stream_bytes == saturate_u64(
                stream_bytes(self@[path_components(r@[j].path@)].streams@),
            ) by {
                assert(has_key(self.rows(), self.rows()[j].0));
                assert(map_of(self.rows())[self.rows()[j].0] == self.rows()[j].1);
            }
            assert forall|k: Seq<PathComponent>| self@.dom().contains(k) implies exists|i: int|
                0 <= i < r@.len() && path_components(r@[i].path@) == k by {
                let j = choose|j: int| 0 <= j < self.rows().len() && self.rows()[j].0 == k;
                assert(path_components(r@[j].path@) == k);
            }
            assert forall|a: int, b: int| 0 <= a < b < r@.len() implies path_lt(r@[a].path@, r@[b].path@) by {
                assert(path_components(r@[a].path@) == self.rows()[a].0);
                assert(path_components(r@[b].path@) == self.rows()[b].0);
            }
            assert forall|j: int| 0 <= j < r@.len() implies (#[trigger] r@[j]).path@ == self.spelling()[path_components(
                r@[j].path@,
            )] by {
                assert(self.spelling()[self.rows()[j].0] == self.entries@[j].0@);
            }
        }
        r
    }
}

impl View for PidPackageStore {
    type V = Map<Seq<PathComponent>, PidPackageData>;

    closed spec fn view(&self) -> Map<Seq<PathComponent>, PidPackageData> {
        map_of(self.rows())
    }
}

/// Looking a package up right after caching it under the same path gives
/// that package; caching under one path leaves every other path as it was.
pub proof fn lemma_store_cache_then_get(
    before: Map<Seq<PathComponent>, PidPackageData>,
    path: Seq<char>,
    package: PidPackageData,
    other: Seq<char>,
)
    requires
        path_components(other) != path_components(path),
    ensures
        before.insert(path_components(path), package).dom().contains(path_components(path)),
        before.insert(path_components(path), package)[path_components(path)] == package,
        before.insert(path_components(path), package).dom().contains(path_components(other))
            == before.dom().contains(path_components(other)),
        before.dom().contains(path_components(other)) ==> before.insert(path_components(path), package)[path_components(
            other,
        )] == before[path_components(other)],
{
}

/// Two files of the same name in different directories are cached under
/// their own paths: caching `/b/x` after `/a/x` keeps the package of
/// `/a/x`, and both are entries.
pub proof fn lemma_store_same_name_other_dir(
    before: Map<Seq<PathComponent>, PidPackageData>,
    a: Seq<char>,
    b: Seq<char>,
    x: Seq<char>,
    pa: PidPackageData,
    pb: PidPackageData,
)
    requires
        crate::path_order::is_named_part(a),
        crate::path_order::is_named_part(b),
        crate::path_order::is_named_part(x),
        a != b,
    ensures
        ({
            let ka = path_components(seq!['/'] + a + seq!['/'] + x);
            let kb = path_components(seq!['/'] + b + seq!['/'] + x);
            let after = before.insert(ka, pa).insert(kb, pb);
            &&& after.dom().contains(ka) && after[ka] == pa
            &&& after.dom().contains(kb) && after[kb] == pb
            &&& ka != kb
        }),
{
    crate::path_order::lemma_path_components_distinct_dirs(a, b, x);
}

/// After clearing a path it is no longer cached, and clearing it again
/// reports nothing removed.
pub proof fn lemma_store_clear_then_get(before: Map<Seq<PathComponent>, PidPackageData>, path: Seq<char>)
    ensures
        !before.remove(path_components(path)).dom().contains(path_components(path)),
        before.remove(path_components(path)).remove(path_components(path)) == before.remove(path_components(path)),
{
    assert(before.remove(path_components(path)).remove(path_components(path)) =~= before.remove(path_components(path)));
}

} // verus!

verus! {

/// Cache `package` for `path` in `store`, replacing any earlier entry for
/// the same path.
pub fn cache_package(store: &mut PidPackageStore, path: String, package: PidPackageData)
    requires
        package.well_formed(),
    ensures
        final(store)@ == old(store)@.insert(path_components(path@), package),
        final(store).spelling() == if old(store)@.dom().contains(path_components(path@)) {
            old(store).spelling()
        } else {
            old(store).spelling().insert(path_components(path@), path@)
        },
{
    store.cache_package(path, package)
}

/// The package cached for `path` in `store`, if any.
pub fn get_package<'a>(store: &'a PidPackageStore, path: &str) -> (r: Option<&'a PidPackageData>)
    ensures
        r matches Some(p) ==> p.well_formed(),
        match r {
            Some(p) => store@.dom().contains(path_components(path@)) && store@[path_components(path@)] == *p,
            None => !store@.dom().contains(path_components(path@)),
        },
{
    store.get_package(path)
}

/// Drop the entry for `path`; `true` when there was one.
pub fn clear_package(store: &mut PidPackageStore, path: &str) -> (r: bool)
    ensures
        r == old(store)@.dom().contains(path_components(path@)),
        final(store)@ == old(store)@.remove(path_components(path@)),
        final(store).spelling() == old(store).spelling().remove(path_components(path@)),
{
    store.clear_package(path)
}

/// Entry count and total stream bytes (saturating) of `store`: the byte
/// total of its packages, listed in any order.
pub fn cache_stats(store: &PidPackageStore) -> (s: PidPackageCacheStats)
    ensures
        stats_of(s, store@),
{
    store.cache_stats()
}

/// Paths cached in `store`, in path order.
pub fn cached_paths(store: &PidPackageStore) -> (r: Vec<String>)
    ensures
        r@.len() == store@.len(),
        store.spelling().dom() == store@.dom(),
        forall|i: int| 0 <= i < r@.len() ==> (#[trigger] r@[i])@ == store.spelling()[path_components(r@[i]@)],
        forall|i: int, j: int| 0 <= i < j < r@.len() ==> path_lt(r@[i]@, r@[j]@),
        forall|k: Seq<PathComponent>|
            store@.dom().contains(k) <==> exists|i: int| 0 <= i < r@.len() && path_components(r@[i]@) == k,
{
    store.cached_paths()
}

/// One summary per package cached in `store`, in path order.
pub fn cached_entry_summaries(store: &PidPackageStore) -> (r: Vec<PidPackageCacheEntrySummary>)
    ensures
        summaries_of(r@, store@),
        forall|i: int|
            0 <= i < r@.len() ==> (#[trigger] r@[i]).path@ == store.spelling()[path_components(r@[i].path@)],
{
    store.cached_entry_summaries()
}

} // verus!
