//! Index from PID preview nodes to the entity handles drawn for them, and
//! back: by node key, by handle, by object drawing id and by layout
//! graphic OID.

use crate::pid_report::PidNodeKey;
use crate::text::str_eq;
use vstd::prelude::*;

verus! {

/// A node key as plain values: its variant number and its text payload
/// (empty for the variants without one).
pub type KeyView = (u8, Seq<char>);

pub open spec fn node_key_view(k: PidNodeKey) -> KeyView {
    match k {
        PidNodeKey::Overview => (0, Seq::empty()),
        PidNodeKey::Object { drawing_id } => (1, drawing_id@),
        PidNodeKey::Relationship { guid } => (2, guid@),
        PidNodeKey::Sheet { name } => (3, name@),
        PidNodeKey::Stream { name } => (4, name@),
        PidNodeKey::Cluster { name } => (5, name@),
        PidNodeKey::Symbol { symbol_path } => (6, symbol_path@),
        PidNodeKey::AttributeClass { class_name } => (7, class_name@),
        PidNodeKey::Root { name } => (8, name@),
        PidNodeKey::TaggedStorage { storage_name } => (9, storage_name@),
        PidNodeKey::DynamicAttributes => (10, Seq::empty()),
        PidNodeKey::ClusterCoverage => (11, Seq::empty()),
        PidNodeKey::Unresolved { label } => (12, label@),
    }
}

fn node_key_parts(k: &PidNodeKey) -> (r: (u8, &str))
    ensures
        (r.0, r.1@) == node_key_view(*k),
{
    match k {
        PidNodeKey::Overview => {
            proof {
                reveal_strlit("");
            }
            (0, "")
        },
        PidNodeKey::Object { drawing_id } => (1, drawing_id.as_str()),
        PidNodeKey::Relationship { guid } => (2, guid.as_str()),
        PidNodeKey::Sheet { name } => (3, name.as_str()),
        PidNodeKey::Stream { name } => (4, name.as_str()),
        PidNodeKey::Cluster { name } => (5, name.as_str()),
        PidNodeKey::Symbol { symbol_path } => (6, symbol_path.as_str()),
        PidNodeKey::AttributeClass { class_name } => (7, class_name.as_str()),
        PidNodeKey::Root { name } => (8, name.as_str()),
        PidNodeKey::TaggedStorage { storage_name } => (9, storage_name.as_str()),
        PidNodeKey::DynamicAttributes => {
            proof {
                reveal_strlit("");
            }
            (10, "")
        },
        PidNodeKey::ClusterCoverage => {
            proof {
                reveal_strlit("");
            }
            (11, "")
        },
        PidNodeKey::Unresolved { label } => (12, label.as_str()),
    }
}

/// Do `a` and `b` denote the same node?
pub fn node_key_eq(a: &PidNodeKey, b: &PidNodeKey) -> (r: bool)
    ensures
        r == (node_key_view(*a) == node_key_view(*b)),
{
    proof {
        reveal_strlit("");
    }
    let (ta, sa) = node_key_parts(a);
    let (tb, sb) = node_key_parts(b);
    ta == tb && str_eq(sa, sb)
}

fn clone_key(k: &PidNodeKey) -> (r: PidNodeKey)
    ensures
        node_key_view(r) == node_key_view(*k),
{
    match k {
        PidNodeKey::Overview => PidNodeKey::Overview,
        PidNodeKey::Object { drawing_id } => PidNodeKey::Object { drawing_id: drawing_id.clone() },
        PidNodeKey::Relationship { guid } => PidNodeKey::Relationship { guid: guid.clone() },
        PidNodeKey::Sheet { name } => PidNodeKey::Sheet { name: name.clone() },
        PidNodeKey::Stream { name } => PidNodeKey::Stream { name: name.clone() },
        PidNodeKey::Cluster { name } => PidNodeKey::Cluster { name: name.clone() },
        PidNodeKey::Symbol { symbol_path } => PidNodeKey::Symbol { symbol_path: symbol_path.clone() },
        PidNodeKey::AttributeClass { class_name } => PidNodeKey::AttributeClass {
            class_name: class_name.clone(),
        },
        PidNodeKey::Root { name } => PidNodeKey::Root { name: name.clone() },
        PidNodeKey::TaggedStorage { storage_name } => PidNodeKey::TaggedStorage {
            storage_name: storage_name.clone(),
        },
        PidNodeKey::DynamicAttributes => PidNodeKey::DynamicAttributes,
        PidNodeKey::ClusterCoverage => PidNodeKey::ClusterCoverage,
        PidNodeKey::Unresolved { label } => PidNodeKey::Unresolved { label: label.clone() },
    }
}

/// Index of the first row whose key is `k`.
pub open spec fn first_index<K, V>(rows: Seq<(K, V)>, k: K) -> Option<int>
    decreases rows.len(),
{
    if rows.len() == 0 {
        None
    } else if rows[0].0 == k {
        Some(0)
    } else {
        match first_index(rows.drop_first(), k) {
            Some(i) => Some(i + 1),
            None => None,
        }
    }
}

/// The value of the first row whose key is `k`.
pub open spec fn lookup<K, V>(rows: Seq<(K, V)>, k: K) -> Option<V> {
    match first_index(rows, k) {
        Some(i) => Some(rows[i].1),
        None => None,
    }
}

/// The handles listed under `k`, none when `k` is absent.
pub open spec fn handles_under<K>(rows: Seq<(K, Seq<u64>)>, k: K) -> Seq<u64> {
    match lookup(rows, k) {
        Some(h) => h,
        None => Seq::empty(),
    }
}

/// `rows` with `h` appended to the handles of `k` (a new row when `k` is
/// absent).
pub open spec fn push_handle<K>(rows: Seq<(K, Seq<u64>)>, k: K, h: u64) -> Seq<(K, Seq<u64>)> {
    match first_index(rows, k) {
        Some(i) => rows.update(i, (k, rows[i].1.push(h))),
        None => rows.push((k, seq![h])),
    }
}

/// `rows` with `(k, v)` added unless `k` is already present.
pub open spec fn insert_absent<K, V>(rows: Seq<(K, V)>, k: K, v: V) -> Seq<(K, V)> {
    match first_index(rows, k) {
        Some(_) => rows,
        None => rows.push((k, v)),
    }
}

proof fn lemma_first_index_bounds<K, V>(rows: Seq<(K, V)>, k: K)
    ensures
        first_index(rows, k) matches Some(i) ==> 0 <= i < rows.len() && rows[i].0 == k && forall|j: int|
            0 <= j < i ==> rows[j].0 != k,
        first_index(rows, k) is None ==> forall|j: int| 0 <= j < rows.len() ==> rows[j].0 != k,
    decreases rows.len(),
{
    if rows.len() > 0 && rows[0].0 != k {
        lemma_first_index_bounds(rows.drop_first(), k);
        assert forall|j: int| 1 <= j < rows.len() implies rows[j] == rows.drop_first()[j - 1] by {}
    }
}

proof fn lemma_first_index_unique<K, V>(rows: Seq<(K, V)>, k: K, i: int)
    requires
        0 <= i < rows.len(),
        rows[i].0 == k,
        forall|j: int| 0 <= j < i ==> rows[j].0 != k,
    ensures
        first_index(rows, k) == Some(i),
    decreases rows.len(),
{
    lemma_first_index_bounds(rows, k);
    match first_index(rows, k) {
        Some(f) => {
            if f < i {
            } else if f > i {
            }
        },
        None => {},
    }
}

/// After appending a handle under `k`, the handles of `k` end with it and
/// every other key keeps its handles.
pub proof fn lemma_push_handle<K>(rows: Seq<(K, Seq<u64>)>, k: K, h: u64, other: K)
    ensures
        handles_under(push_handle(rows, k, h), k) == handles_under(rows, k).push(h),
        other != k ==> handles_under(push_handle(rows, k, h), other) == handles_under(rows, other),
{
    lemma_first_index_bounds(rows, k);
    lemma_first_index_bounds(rows, other);
    let n = push_handle(rows, k, h);
    lemma_first_index_bounds(n, k);
    lemma_first_index_bounds(n, other);
    match first_index(rows, k) {
        Some(i) => {
            lemma_first_index_unique(n, k, i);
            if other != k {
                match first_index(rows, other) {
                    Some(j) => {
                        lemma_first_index_unique(n, other, j);
                    },
                    None => {},
                }
            }
        },
        None => {
            lemma_first_index_unique(n, k, rows.len() as int);
            assert(seq![h] =~= Seq::<u64>::empty().push(h));
            if other != k {
                match first_index(rows, other) {
                    Some(j) => {
                        lemma_first_index_unique(n, other, j);
                    },
                    None => {},
                }
            }
        },
    }
}

/// After `insert_absent`, `k` maps to its earlier value if it had one and
/// to `v` otherwise; other keys are unchanged.
pub proof fn lemma_insert_absent<K, V>(rows: Seq<(K, V)>, k: K, v: V, other: K)
    ensures
        lookup(insert_absent(rows, k, v), k) == Some(
            match lookup(rows, k) {
                Some(old) => old,
                None => v,
            },
        ),
        other != k ==> lookup(insert_absent(rows, k, v), other) == lookup(rows, other),
{
    lemma_first_index_bounds(rows, k);
    lemma_first_index_bounds(rows, other);
    if first_index(rows, k) is None {
        let n = rows.push((k, v));
        lemma_first_index_unique(n, k, rows.len() as int);
        lemma_first_index_bounds(n, other);
        if other != k {
            match first_index(rows, other) {
                Some(j) => {
                    lemma_first_index_unique(n, other, j);
                },
                None => {},
            }
        }
    }
}

fn push_at<K>(rows: &mut Vec<(K, Vec<u64>)>, i: usize, h: u64)
    requires
        i < old(rows)@.len(),
    ensures
        final(rows)@.len() == old(rows)@.len(),
        final(rows)@[i as int].0 == old(rows)@[i as int].0,
        final(rows)@[i as int].1@ == old(rows)@[i as int].1@.push(h),
        forall|j: int| 0 <= j < old(rows)@.len() && j != i ==> final(rows)@[j] == old(rows)@[j],
{
    let (k, mut hs) = rows.remove(i);
    hs.push(h);
    rows.insert(i, (k, hs));
}

fn find_node_key(rows: &Vec<(PidNodeKey, Vec<u64>)>, key: &PidNodeKey) -> (r: Option<usize>)
    ensures
        match first_index(rows@.map_values(|e: (PidNodeKey, Vec<u64>)| (node_key_view(e.0), e.1@)), node_key_view(*key)) {
            Some(i) => r matches Some(x) && x as int == i,
            None => r is None,
        },
{
    let ghost rv = rows@.map_values(|e: (PidNodeKey, Vec<u64>)| (node_key_view(e.0), e.1@));
    let mut i: usize = 0;
    while i < rows.len()
        invariant
            rv == rows@.map_values(|e: (PidNodeKey, Vec<u64>)| (node_key_view(e.0), e.1@)),
            i <= rows@.len(),
            forall|j: int| 0 <= j < i ==> rv[j].0 != node_key_view(*key),
        decreases rows.len() - i,
    {
        if node_key_eq(&rows[i].0, key) {
            proof {
                lemma_first_index_unique(rv, node_key_view(*key), i as int);
            }
            return Some(i);
        }
        i += 1;
    }
    proof {
        lemma_first_index_bounds(rv, node_key_view(*key));
    }
    None
}

fn find_u64_key(rows: &Vec<(u64, PidNodeKey)>, h: u64) -> (r: Option<usize>)
    ensures
        match first_index(rows@.map_values(|e: (u64, PidNodeKey)| (e.0, node_key_view(e.1))), h) {
            Some(i) => r matches Some(x) && x as int == i,
            None => r is None,
        },
{
    let ghost rv = rows@.map_values(|e: (u64, PidNodeKey)| (e.0, node_key_view(e.1)));
    let mut i: usize = 0;
    while i < rows.len()
        invariant
            rv == rows@.map_values(|e: (u64, PidNodeKey)| (e.0, node_key_view(e.1))),
            i <= rows@.len(),
            forall|j: int| 0 <= j < i ==> rv[j].0 != h,
        decreases rows.len() - i,
    {
        if rows[i].0 == h {
            proof {
                lemma_first_index_unique(rv, h, i as int);
            }
            return Some(i);
        }
        i += 1;
    }
    proof {
        lemma_first_index_bounds(rv, h);
    }
    None
}

fn find_str_key(rows: &Vec<(String, Vec<u64>)>, id: &str) -> (r: Option<usize>)
    ensures
        match first_index(rows@.map_values(|e: (String, Vec<u64>)| (e.0@, e.1@)), id@) {
            Some(i) => r matches Some(x) && x as int == i,
            None => r is None,
        },
{
    let ghost rv = rows@.map_values(|e: (String, Vec<u64>)| (e.0@, e.1@));
    let mut i: usize = 0;
    while i < rows.len()
        invariant
            rv == rows@.map_values(|e: (String, Vec<u64>)| (e.0@, e.1@)),
            i <= rows@.len(),
            forall|j: int| 0 <= j < i ==> rv[j].0 != id@,
        decreases rows.len() - i,
    {
        if str_eq(rows[i].0.as_str(), id) {
            proof {
                lemma_first_index_unique(rv, id@, i as int);
            }
            return Some(i);
        }
        i += 1;
    }
    proof {
        lemma_first_index_bounds(rv, id@);
    }
    None
}

fn find_u32_key(rows: &Vec<(u32, Vec<u64>)>, oid: u32) -> (r: Option<usize>)
    ensures
        match first_index(rows@.map_values(|e: (u32, Vec<u64>)| (e.0, e.1@)), oid) {
            Some(i) => r matches Some(x) && x as int == i,
            None => r is None,
        },
{
    let ghost rv = rows@.map_values(|e: (u32, Vec<u64>)| (e.0, e.1@));
    let mut i: usize = 0;
    while i < rows.len()
        invariant
            rv == rows@.map_values(|e: (u32, Vec<u64>)| (e.0, e.1@)),
            i <= rows@.len(),
            forall|j: int| 0 <= j < i ==> rv[j].0 != oid,
        decreases rows.len() - i,
    {
        if rows[i].0 == oid {
            proof {
                lemma_first_index_unique(rv, oid, i as int);
            }
            return Some(i);
        }
        i += 1;
    }
    proof {
        lemma_first_index_bounds(rv, oid);
    }
    None
}

/// Preview entity handles indexed by node key (with the first key each
/// handle was recorded for), by object drawing id and by graphic OID.
#[derive(Debug, Clone)]
pub struct PidPreviewIndex {
    by_key: Vec<(PidNodeKey, Vec<u64>)>,
    by_handle: Vec<(u64, PidNodeKey)>,
    by_drawing_id: Vec<(String, Vec<u64>)>,
    by_graphic_oid: Vec<(u32, Vec<u64>)>,
}

impl PidPreviewIndex {
    /// Handles by node key, in first-recorded key order.
    pub closed spec fn key_rows(&self) -> Seq<(KeyView, Seq<u64>)> {
        self.by_key@.map_values(|e: (PidNodeKey, Vec<u64>)| (node_key_view(e.0), e.1@))
    }

    /// The node key of each handle.
    pub closed spec fn handle_rows(&self) -> Seq<(u64, KeyView)> {
        self.by_handle@.map_values(|e: (u64, PidNodeKey)| (e.0, node_key_view(e.1)))
    }

    /// Handles by object drawing id.
    pub closed spec fn drawing_rows(&self) -> Seq<(Seq<char>, Seq<u64>)> {
        self.by_drawing_id@.map_values(|e: (String, Vec<u64>)| (e.0@, e.1@))
    }

    /// Handles by graphic OID.
    pub closed spec fn oid_rows(&self) -> Seq<(u32, Seq<u64>)> {
        self.by_graphic_oid@.map_values(|e: (u32, Vec<u64>)| (e.0, e.1@))
    }

    pub fn new() -> (r: Self)
        ensures
            r.key_rows().len() == 0,
            r.handle_rows().len() == 0,
            r.drawing_rows().len() == 0,
            r.oid_rows().len() == 0,
    {
        PidPreviewIndex {
            by_key: Vec::new(),
            by_handle: Vec::new(),
            by_drawing_id: Vec::new(),
            by_graphic_oid: Vec::new(),
        }
    }

    /// Handles drawn for `key`, in recording order.
    pub fn handles_for(&self, key: &PidNodeKey) -> (r: Vec<u64>)
        ensures
            r@ == handles_under(self.key_rows(), node_key_view(*key)),
    {
        proof {
            lemma_first_index_bounds(self.key_rows(), node_key_view(*key));
        }
        match find_node_key(&self.by_key, key) {
            Some(i) => self.by_key[i].1.clone(),
            None => Vec::new(),
        }
    }

    /// The node key `handle` was first recorded for.
    pub fn key_for_handle(&self, handle: u64) -> (r: Option<&PidNodeKey>)
        ensures
            match lookup(self.handle_rows(), handle) {
                Some(kv) => r matches Some(k) && node_key_view(*k) == kv,
                None => r is None,
            },
    {
        proof {
            lemma_first_index_bounds(self.handle_rows(), handle);
        }
        match find_u64_key(&self.by_handle, handle) {
            Some(i) => Some(&self.by_handle[i].1),
            None => None,
        }
    }

    /// Handles drawn for the object `drawing_id`.
    pub fn handles_for_drawing_id(&self, drawing_id: &str) -> (r: Vec<u64>)
        ensures
            r@ == handles_under(self.drawing_rows(), drawing_id@),
    {
        proof {
            lemma_first_index_bounds(self.drawing_rows(), drawing_id@);
        }
        match find_str_key(&self.by_drawing_id, drawing_id) {
            Some(i) => self.by_drawing_id[i].1.clone(),
            None => Vec::new(),
        }
    }

    /// Handles drawn for the layout item with graphic OID `graphic_oid`.
    pub fn handles_for_graphic_oid(&self, graphic_oid: u32) -> (r: Vec<u64>)
        ensures
            r@ == handles_under(self.oid_rows(), graphic_oid),
    {
        proof {
            lemma_first_index_bounds(self.oid_rows(), graphic_oid);
        }
        match find_u32_key(&self.by_graphic_oid, graphic_oid) {
            Some(i) => self.by_graphic_oid[i].1.clone(),
            None => Vec::new(),
        }
    }
}

fn push_handle_key(rows: &mut Vec<(PidNodeKey, Vec<u64>)>, key: &PidNodeKey, h: u64)
    ensures
        final(rows)@.map_values(|e: (PidNodeKey, Vec<u64>)| (node_key_view(e.0), e.1@)) == push_handle(
            old(rows)@.map_values(|e: (PidNodeKey, Vec<u64>)| (node_key_view(e.0), e.1@)),
            node_key_view(*key),
            h,
        ),
{
    let ghost before = rows@.map_values(|e: (PidNodeKey, Vec<u64>)| (node_key_view(e.0), e.1@));
    proof {
        lemma_first_index_bounds(before, node_key_view(*key));
    }
    match find_node_key(rows, key) {
        Some(i) => {
            push_at(rows, i, h);
            assert(rows@.map_values(|e: (PidNodeKey, Vec<u64>)| (node_key_view(e.0), e.1@)) =~= before.update(
                i as int,
                (node_key_view(*key), before[i as int].1.push(h)),
            ));
        },
        None => {
            let mut hs: Vec<u64> = Vec::new();
            hs.push(h);
            rows.push((clone_key(key), hs));
            assert(hs@ =~= seq![h]);
            assert(rows@.map_values(|e: (PidNodeKey, Vec<u64>)| (node_key_view(e.0), e.1@)) =~= before.push(
                (node_key_view(*key), seq![h]),
            ));
        },
    }
}

fn push_handle_str(rows: &mut Vec<(String, Vec<u64>)>, id: &str, h: u64)
    ensures
        final(rows)@.map_values(|e: (String, Vec<u64>)| (e.0@, e.1@)) == push_handle(
            old(rows)@.map_values(|e: (String, Vec<u64>)| (e.0@, e.1@)),
            id@,
            h,
        ),
{
    let ghost before = rows@.map_values(|e: (String, Vec<u64>)| (e.0@, e.1@));
    proof {
        lemma_first_index_bounds(before, id@);
    }
    match find_str_key(rows, id) {
        Some(i) => {
            push_at(rows, i, h);
            assert(rows@.map_values(|e: (String, Vec<u64>)| (e.0@, e.1@)) =~= before.update(
                i as int,
                (id@, before[i as int].1.push(h)),
            ));
        },
        None => {
            let mut hs: Vec<u64> = Vec::new();
            hs.push(h);
            rows.push((String::from_str(id), hs));
            assert(hs@ =~= seq![h]);
            assert(rows@.map_values(|e: (String, Vec<u64>)| (e.0@, e.1@)) =~= before.push((id@, seq![h])));
        },
    }
}

fn push_handle_oid(rows: &mut Vec<(u32, Vec<u64>)>, oid: u32, h: u64)
    ensures
        final(rows)@.map_values(|e: (u32, Vec<u64>)| (e.0, e.1@)) == push_handle(
            old(rows)@.map_values(|e: (u32, Vec<u64>)| (e.0, e.1@)),
            oid,
            h,
        ),
{
    let ghost before = rows@.map_values(|e: (u32, Vec<u64>)| (e.0, e.1@));
    proof {
        lemma_first_index_bounds(before, oid);
    }
    match find_u32_key(rows, oid) {
        Some(i) => {
            push_at(rows, i, h);
            assert(rows@.map_values(|e: (u32, Vec<u64>)| (e.0, e.1@)) =~= before.update(
                i as int,
                (oid, before[i as int].1.push(h)),
            ));
        },
        None => {
            let mut hs: Vec<u64> = Vec::new();
            hs.push(h);
            rows.push((oid, hs));
            assert(hs@ =~= seq![h]);
            assert(rows@.map_values(|e: (u32, Vec<u64>)| (e.0, e.1@)) =~= before.push((oid, seq![h])));
        },
    }
}

/// The drawing id an object key carries.
pub open spec fn object_drawing_id(k: PidNodeKey) -> Option<Seq<char>> {
    match k {
        PidNodeKey::Object { drawing_id } => Some(drawing_id@),
        _ => None,
    }
}

impl PidPreviewIndex {
    /// Record that `handle` was drawn for `key`: it is appended to the
    /// key's handles (and, for an object key, to its drawing id's), and
    /// becomes the handle's key unless it already had one.
    pub fn record_existing_handle(&mut self, key: PidNodeKey, handle: u64)
        ensures
            final(self).key_rows() == push_handle(old(self).key_rows(), node_key_view(key), handle),
            final(self).handle_rows() == insert_absent(old(self).handle_rows(), handle, node_key_view(key)),
            final(self).drawing_rows() == match object_drawing_id(key) {
                Some(id) => push_handle(old(self).drawing_rows(), id, handle),
                None => old(self).drawing_rows(),
            },
            final(self).oid_rows() == old(self).oid_rows(),
    {
        push_handle_key(&mut self.by_key, &key, handle);
        let ghost hb = self.handle_rows();
        proof {
            lemma_first_index_bounds(hb, handle);
        }
        match find_u64_key(&self.by_handle, handle) {
            Some(_) => {},
            None => {
                self.by_handle.push((handle, clone_key(&key)));
                assert(self.handle_rows() =~= hb.push((handle, node_key_view(key))));
            },
        }
        match &key {
            PidNodeKey::Object { drawing_id } => {
                push_handle_str(&mut self.by_drawing_id, drawing_id.as_str(), handle);
            },
            _ => {},
        }
    }

    /// Record the layout references of `handle`: its object drawing id and
    /// its graphic OID, each when present.
    pub fn record_layout_refs(&mut self, handle: u64, drawing_id: Option<&str>, graphic_oid: Option<u32>)
        ensures
            final(self).key_rows() == old(self).key_rows(),
            final(self).handle_rows() == old(self).handle_rows(),
            final(self).drawing_rows() == match drawing_id {
                Some(id) => push_handle(old(self).drawing_rows(), id@, handle),
                None => old(self).drawing_rows(),
            },
            final(self).oid_rows() == match graphic_oid {
                Some(oid) => push_handle(old(self).oid_rows(), oid, handle),
                None => old(self).oid_rows(),
            },
    {
        if let Some(id) = drawing_id {
            push_handle_str(&mut self.by_drawing_id, id, handle);
        }
        if let Some(oid) = graphic_oid {
            push_handle_oid(&mut self.by_graphic_oid, oid, handle);
        }
    }
}

impl Default for PidPreviewIndex {
    /// The empty index.
    fn default() -> (r: Self)
        ensures
            r.key_rows().len() == 0,
            r.handle_rows().len() == 0,
            r.drawing_rows().len() == 0,
            r.oid_rows().len() == 0,
    {
        PidPreviewIndex::new()
    }
}

} // verus!
