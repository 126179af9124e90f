//! A small map from `String` keys to `String` values, kept as a list of
//! entries with distinct keys, plus the character-wise lexicographic order
//! used to list it deterministically.

use vstd::prelude::*;

verus! {

/// Entry list as plain character sequences.
pub type Rows = Seq<(Seq<char>, Seq<char>)>;

/// The map that inserting `rows` in order into an empty map produces.
pub open spec fn map_of<K, V>(rows: Seq<(K, V)>) -> Map<K, V>
    decreases rows.len(),
{
    if rows.len() == 0 {
        Map::empty()
    } else {
        map_of(rows.drop_last()).insert(rows.last().0, rows.last().1)
    }
}

/// No key occurs twice in `rows`.
pub open spec fn keys_distinct<K, V>(rows: Seq<(K, V)>) -> bool {
    forall|i: int, j: int| 0 <= i < j < rows.len() ==> rows[i].0 != rows[j].0
}

/// Some entry of `rows` has key `k`.
pub open spec fn has_key<K, V>(rows: Seq<(K, V)>, k: K) -> bool {
    exists|i: int| 0 <= i < rows.len() && rows[i].0 == k
}

/// Domain and values of `map_of`.
pub proof fn lemma_map_of<K, V>(rows: Seq<(K, V)>)
    ensures
        map_of(rows).dom().finite(),
        forall|k: K| #[trigger] map_of(rows).dom().contains(k) <==> has_key(rows, k),
        keys_distinct(rows) ==> forall|i: int|
            0 <= i < rows.len() ==> #[trigger] map_of(rows)[rows[i].0] == rows[i].1,
        keys_distinct(rows) ==> map_of(rows).dom().len() == rows.len(),
    decreases rows.len(),
{
    if rows.len() > 0 {
        let p = rows.drop_last();
        lemma_map_of(p);
        assert forall|k: K| #[trigger] map_of(rows).dom().contains(k) <==> has_key(
            rows,
            k,
        ) by {
            if has_key(rows, k) {
                let i = choose|i: int| 0 <= i < rows.len() && rows[i].0 == k;
                if i < rows.len() - 1 {
                    assert(p[i].0 == k);
                    assert(has_key(p, k));
                }
            }
            if map_of(rows).dom().contains(k) && k != rows.last().0 {
                assert(has_key(p, k));
                let i = choose|i: int| 0 <= i < p.len() && p[i].0 == k;
                assert(rows[i].0 == k);
            }
        }
        if keys_distinct(rows) {
            assert(keys_distinct(p));
            assert forall|i: int| 0 <= i < rows.len() implies #[trigger] map_of(rows)[rows[i].0]
                == rows[i].1 by {
                if i < rows.len() - 1 {
                    assert(p[i] == rows[i]);
                    assert(rows[i].0 != rows.last().0);
                }
            }
            assert(!map_of(p).dom().contains(rows.last().0)) by {
                if has_key(p, rows.last().0) {
                    let i = choose|i: int| 0 <= i < p.len() && p[i].0 == rows.last().0;
                    assert(rows[i].0 == rows[rows.len() - 1].0);
                }
            }
        }
    }
}

/// Two key-distinct listings with the same entries denote the same map.
pub proof fn lemma_map_of_same_entries<K, V>(a: Seq<(K, V)>, b: Seq<(K, V)>)
    requires
        keys_distinct(a),
        keys_distinct(b),
        forall|k: K| has_key(a, k) <==> has_key(b, k),
        forall|i: int, j: int|
            0 <= i < a.len() && 0 <= j < b.len() && a[i].0 == b[j].0 ==> a[i].1 == b[j].1,
    ensures
        map_of(a) == map_of(b),
{
    lemma_map_of(a);
    lemma_map_of(b);
    assert forall|k: K| #[trigger] map_of(a).dom().contains(k) implies map_of(a)[k]
        == map_of(b)[k] by {
        let i = choose|i: int| 0 <= i < a.len() && a[i].0 == k;
        assert(has_key(b, k));
        let j = choose|j: int| 0 <= j < b.len() && b[j].0 == k;
        assert(map_of(a)[a[i].0] == a[i].1);
        assert(map_of(b)[b[j].0] == b[j].1);
    }
    assert(map_of(a).dom() =~= map_of(b).dom());
    assert(map_of(a) =~= map_of(b));
}

/// Strict lexicographic order on character sequences, comparing code
/// points; on UTF-8 strings it agrees with std's `Ord for String`.
pub open spec fn seq_lt(a: Seq<char>, b: Seq<char>) -> bool
    decreases a.len(),
{
    if a.len() == 0 {
        b.len() > 0
    } else if b.len() == 0 {
        false
    } else if a[0] != b[0] {
        a[0] < b[0]
    } else {
        seq_lt(a.drop_first(), b.drop_first())
    }
}

pub proof fn lemma_seq_lt_irreflexive(a: Seq<char>)
    ensures
        !seq_lt(a, a),
    decreases a.len(),
{
    if a.len() > 0 {
        lemma_seq_lt_irreflexive(a.drop_first());
    }
}

pub proof fn lemma_seq_lt_transitive(a: Seq<char>, b: Seq<char>, c: Seq<char>)
    requires
        seq_lt(a, b),
        seq_lt(b, c),
    ensures
        seq_lt(a, c),
    decreases a.len(),
{
    if a.len() > 0 && b.len() > 0 && c.len() > 0 && a[0] == b[0] && b[0] == c[0] {
        lemma_seq_lt_transitive(a.drop_first(), b.drop_first(), c.drop_first());
    }
}

pub proof fn lemma_seq_lt_total(a: Seq<char>, b: Seq<char>)
    requires
        a != b,
    ensures
        seq_lt(a, b) || seq_lt(b, a),
    decreases a.len(),
{
    if a.len() > 0 && b.len() > 0 && a[0] == b[0] {
        if a.drop_first() == b.drop_first() {
            assert(a =~= seq![a[0]] + a.drop_first());
            assert(b =~= seq![b[0]] + b.drop_first());
        }
        lemma_seq_lt_total(a.drop_first(), b.drop_first());
    } else if a.len() == 0 && b.len() == 0 {
        assert(a =~= b);
    } else if a.len() > 0 && b.len() > 0 {
    }
}

/// Keys of `rows` strictly increase.
pub open spec fn keys_sorted<V>(rows: Seq<(Seq<char>, V)>) -> bool {
    forall|i: int, j: int| 0 <= i < j < rows.len() ==> seq_lt(rows[i].0, rows[j].0)
}

/// `rows` lists the entries of `m` by increasing key.
pub open spec fn is_sorted_listing<V>(rows: Seq<(Seq<char>, V)>, m: Map<Seq<char>, V>) -> bool {
    keys_sorted(rows) && map_of(rows) == m
}

pub proof fn lemma_sorted_distinct<V>(rows: Seq<(Seq<char>, V)>)
    requires
        keys_sorted(rows),
    ensures
        keys_distinct(rows),
{
    assert forall|i: int, j: int| 0 <= i < j < rows.len() implies rows[i].0 != rows[j].0 by {
        if rows[i].0 == rows[j].0 {
            lemma_seq_lt_irreflexive(rows[i].0);
        }
    }
}

/// `a < b` in the order `seq_lt`.
pub fn key_lt(a: &String, b: &String) -> (r: bool)
    ensures
        r == seq_lt(a@, b@),
{
    let x = crate::text::chars_of(a.as_str());
    let y = crate::text::chars_of(b.as_str());
    let mut i: usize = 0;
    assert(x@.skip(0) =~= x@);
    assert(y@.skip(0) =~= y@);
    while i < x.len() && i < y.len() && x[i] == y[i]
        invariant
            x@ == a@,
            y@ == b@,
            i <= x@.len(),
            i <= y@.len(),
            seq_lt(a@, b@) == seq_lt(x@.skip(i as int), y@.skip(i as int)),
        decreases x.len() - i,
    {
        assert(x@.skip(i as int).drop_first() =~= x@.skip(i + 1));
        assert(y@.skip(i as int).drop_first() =~= y@.skip(i + 1));
        i += 1;
    }
    if i == x.len() {
        i < y.len()
    } else if i == y.len() {
        false
    } else {
        x[i] < y[i]
    }
}

/// A map from strings to strings.
#[derive(Debug)]
pub struct StringMap {
    entries: Vec<(String, String)>,
}

impl StringMap {
    /// The entries as character sequences, in storage order.
    pub closed spec fn rows(&self) -> Rows {
        self.entries@.map_values(|e: (String, String)| (e.0@, e.1@))
    }

    #[verifier::type_invariant]
    spec fn inv(&self) -> bool {
        keys_distinct(self.rows())
    }

    pub fn new() -> (m: Self)
        ensures
            m@ == Map::<Seq<char>, Seq<char>>::empty(),
    {
        let m = StringMap { entries: Vec::new() };
        assert(m.rows() =~= Seq::<(Seq<char>, Seq<char>)>::empty());
        m
    }

    /// Number of keys.
    pub fn len(&self) -> (n: usize)
        ensures
            n == self@.len(),
    {
        proof {
            use_type_invariant(self);
            lemma_map_of(self.rows());
        }
        self.entries.len()
    }

    /// Index of the entry with key `key`, if any.
    fn find(&self, key: &String) -> (r: Option<usize>)
        ensures
            match r {
                Some(i) => i < self.rows().len() && self.rows()[i as int].0 == key@,
                None => !has_key(self.rows(), key@),
            },
    {
        let mut i: usize = 0;
        while i < self.entries.len()
            invariant
                i <= self.entries@.len(),
                forall|j: int| 0 <= j < i ==> self.rows()[j].0 != key@,
            decreases self.entries.len() - i,
        {
            if self.entries[i].0 == *key {
                return Some(i);
            }
            i += 1;
        }
        None
    }

    /// Value stored under `key`, if any.
    pub fn get(&self, key: &str) -> (r: Option<&String>)
        ensures
            match r {
                Some(v) => self@.dom().contains(key@) && self@[key@] == v@,
                None => !self@.dom().contains(key@),
            },
    {
        proof {
            use_type_invariant(self);
            lemma_map_of(self.rows());
        }
        let k = String::from_str(key);
        match self.find(&k) {
            Some(i) => {
                assert(self.rows()[i as int].1 == self.entries@[i as int].1@);
                Some(&self.entries[i].1)
            },
            None => None,
        }
    }

    /// Inserts or overwrites the value stored under `key`.
    pub fn insert(&mut self, key: String, value: String)
        ensures
            final(self)@ == old(self)@.insert(key@, value@),
    {
        proof {
            use_type_invariant(&*self);
        }
        let ghost old_rows = self.rows();
        let found = self.find(&key);
        let mut entries: Vec<(String, String)> = Vec::new();
        std::mem::swap(&mut entries, &mut self.entries);
        assert(entries@.map_values(|e: (String, String)| (e.0@, e.1@)) == old_rows);
        match found {
            Some(i) => {
                entries.set(i, (key, value));
                proof {
                    let new_rows = entries@.map_values(|e: (String, String)| (e.0@, e.1@));
                    assert(new_rows =~= old_rows.update(i as int, (key@, value@)));
                    lemma_rows_update(old_rows, i as int, value@);
                }
                self.entries = entries;
            },
            None => {
                entries.push((key, value));
                proof {
                    let new_rows = entries@.map_values(|e: (String, String)| (e.0@, e.1@));
                    assert(new_rows =~= old_rows.push((key@, value@)));
                    assert(new_rows.drop_last() =~= old_rows);
                    assert forall|a: int, b: int| 0 <= a < b < new_rows.len() implies new_rows[a].0
                        != new_rows[b].0 by {
                        if b == new_rows.len() - 1 {
                            assert(old_rows[a].0 == new_rows[a].0);
                        }
                    }
                }
                self.entries = entries;
            },
        }
    }

    /// The entries sorted by increasing key.
    pub fn sorted_entries(&self) -> (r: Vec<(String, String)>)
        ensures
            is_sorted_listing(r@.map_values(|e: (String, String)| (e.0@, e.1@)), self@),
    {
        proof {
            use_type_invariant(self);
        }
        let mut out: Vec<(String, String)> = Vec::new();
        let mut i: usize = 0;
        while i < self.entries.len()
            invariant
                i <= self.entries@.len(),
                keys_distinct(self.rows()),
                keys_sorted(out@.map_values(|e: (String, String)| (e.0@, e.1@))),
                map_of(out@.map_values(|e: (String, String)| (e.0@, e.1@))) == map_of(
                    self.rows().take(i as int),
                ),
            decreases self.entries.len() - i,
        {
            let ghost outv = out@.map_values(|e: (String, String)| (e.0@, e.1@));
            let ghost pre = self.rows().take(i as int);
            let key = self.entries[i].0.clone();
            let value = self.entries[i].1.clone();
            let mut p: usize = 0;
            while p < out.len() && key_lt(&out[p].0, &key)
                invariant
                    p <= out@.len(),
                    outv == out@.map_values(|e: (String, String)| (e.0@, e.1@)),
                    forall|j: int| 0 <= j < p ==> seq_lt(#[trigger] outv[j].0, key@),
                decreases out.len() - p,
            {
                p += 1;
            }
            proof {
                lemma_sorted_distinct(outv);
                lemma_map_of(outv);
                lemma_map_of(pre);
                assert(keys_distinct(pre));
                assert(!has_key(pre, key@)) by {
                    if has_key(pre, key@) {
                        let j = choose|j: int| 0 <= j < pre.len() && pre[j].0 == key@;
                        assert(self.rows()[j].0 == self.rows()[i as int].0);
                    }
                }
                assert(!has_key(outv, key@)) by {
                    assert(!map_of(pre).dom().contains(key@));
                    assert(!map_of(outv).dom().contains(key@));
                }
                assert forall|j: int| p <= j < outv.len() implies seq_lt(key@, #[trigger] outv[j].0) by {
                    if p < outv.len() {
                        assert(!seq_lt(outv[p as int].0, key@));
                        assert(outv[p as int].0 != key@);
                        lemma_seq_lt_total(outv[p as int].0, key@);
                        if j > p {
                            lemma_seq_lt_transitive(key@, outv[p as int].0, outv[j].0);
                        }
                    }
                }
            }
            out.insert(p, (key, value));
            proof {
                let nv = out@.map_values(|e: (String, String)| (e.0@, e.1@));
                assert(nv =~= outv.insert(p as int, (self.rows()[i as int].0, self.rows()[i as int].1)));
                assert forall|a: int, b: int| 0 <= a < b < nv.len() implies seq_lt(nv[a].0, nv[b].0) by {
                    if b < p {
                    } else if b == p {
                    } else if a < p {
                        lemma_seq_lt_transitive(nv[a].0, nv[p as int].0, nv[b].0);
                    } else if a == p {
                    } else {
                        assert(nv[a] == outv[a - 1]);
                        assert(nv[b] == outv[b - 1]);
                    }
                }
                let pre2 = self.rows().take(i + 1);
                assert(pre2 =~= pre.push(self.rows()[i as int]));
                assert(pre2.drop_last() =~= pre);
                assert(keys_distinct(pre2)) by {
                    assert forall|a: int, b: int| 0 <= a < b < pre2.len() implies pre2[a].0
                        != pre2[b].0 by {
                        assert(self.rows()[a].0 != self.rows()[b].0);
                    }
                }
                lemma_sorted_distinct(nv);
                lemma_insert_has_key(outv, p as int, (key@, value@));
                assert(self.rows()[i as int] == (key@, value@));
                lemma_map_of(pre2);
                lemma_map_of(nv);
                assert forall|k: Seq<char>| has_key(nv, k) <==> has_key(pre2, k) by {
                    assert(map_of(pre2).dom().contains(k) <==> has_key(pre2, k));
                    if k != key@ {
                        assert(has_key(pre2, k) <==> has_key(pre, k)) by {
                            if has_key(pre2, k) {
                                let j = choose|j: int| 0 <= j < pre2.len() && pre2[j].0 == k;
                                assert(pre[j].0 == k);
                            }
                            if has_key(pre, k) {
                                let j = choose|j: int| 0 <= j < pre.len() && pre[j].0 == k;
                                assert(pre2[j].0 == k);
                            }
                        }
                        assert(map_of(pre).dom().contains(k) <==> has_key(pre, k));
                        assert(map_of(outv).dom().contains(k) <==> has_key(outv, k));
                    } else {
                        assert(pre2[pre2.len() - 1].0 == k);
                    }
                }
                assert forall|a: int, b: int|
                    0 <= a < nv.len() && 0 <= b < pre2.len() && nv[a].0 == pre2[b].0 implies nv[a].1
                    == pre2[b].1 by {
                    let k = nv[a].0;
                    assert(map_of(nv)[nv[a].0] == nv[a].1);
                    assert(map_of(pre2)[pre2[b].0] == pre2[b].1);
                    if k == key@ {
                        assert(nv[p as int].0 == key@);
                        assert(a == p);
                        assert(pre2[pre2.len() - 1].0 == key@);
                        assert(b == pre2.len() - 1);
                    } else {
                        if a < p {
                            assert(nv[a] == outv[a]);
                            assert(map_of(outv)[outv[a].0] == outv[a].1);
                        } else {
                            assert(nv[a] == outv[a - 1]);
                            assert(map_of(outv)[outv[a - 1].0] == outv[a - 1].1);
                        }
                        assert(b < pre2.len() - 1);
                        assert(pre2[b] == pre[b]);
                        assert(map_of(pre)[pre[b].0] == pre[b].1);
                    }
                }
                lemma_map_of_same_entries(nv, pre2);
            }
            i += 1;
        }
        proof {
            assert(self.rows().take(self.entries@.len() as int) =~= self.rows());
        }
        out
    }
}

/// Inserting an entry under a key the rows lack, at any place, adds it to
/// the map.
pub proof fn lemma_map_of_insert_new<K, V>(rows: Seq<(K, V)>, p: int, e: (K, V))
    requires
        keys_distinct(rows),
        !has_key(rows, e.0),
        0 <= p <= rows.len(),
    ensures
        keys_distinct(rows.insert(p, e)),
        map_of(rows.insert(p, e)) == map_of(rows).insert(e.0, e.1),
{
    let n = rows.insert(p, e);
    assert forall|a: int, b: int| 0 <= a < b < n.len() implies n[a].0 != n[b].0 by {
        if a == p {
            assert(n[b] == rows[b - 1]);
        } else if b == p {
            assert(n[a] == rows[a]);
        } else {
            let ia = if a < p { a } else { a - 1 };
            let ib = if b < p { b } else { b - 1 };
            assert(n[a] == rows[ia] && n[b] == rows[ib]);
        }
    }
    lemma_map_of(rows);
    lemma_map_of(n);
    lemma_insert_has_key(rows, p, e);
    let m = map_of(rows).insert(e.0, e.1);
    assert forall|k: K| #[trigger] map_of(n).dom().contains(k) implies map_of(n)[k] == m[k] by {
        let j = choose|j: int| 0 <= j < n.len() && n[j].0 == k;
        assert(map_of(n)[n[j].0] == n[j].1);
        if j < p {
            assert(n[j] == rows[j]);
            assert(map_of(rows)[rows[j].0] == rows[j].1);
        } else if j > p {
            assert(n[j] == rows[j - 1]);
            assert(map_of(rows)[rows[j - 1].0] == rows[j - 1].1);
        }
    }
    assert(map_of(n).dom() =~= m.dom());
    assert(map_of(n) =~= m);
}

/// Removing the entry at `j` removes its key from the map.
pub proof fn lemma_map_of_remove_at<K, V>(r: Seq<(K, V)>, j: int)
    requires
        keys_distinct(r),
        0 <= j < r.len(),
    ensures
        keys_distinct(r.remove(j)),
        map_of(r.remove(j)) == map_of(r).remove(r[j].0),
{
    let q = r.remove(j);
    assert forall|a: int, b: int| 0 <= a < b < q.len() implies q[a].0 != q[b].0 by {
        let ia = if a < j { a } else { a + 1 };
        let ib = if b < j { b } else { b + 1 };
        assert(q[a] == r[ia] && q[b] == r[ib]);
    }
    lemma_map_of(r);
    lemma_map_of(q);
    let m = map_of(r).remove(r[j].0);
    assert forall|k: K| #[trigger] map_of(q).dom().contains(k) <==> m.dom().contains(k) by {
        if has_key(q, k) {
            let i = choose|i: int| 0 <= i < q.len() && q[i].0 == k;
            let ii = if i < j { i } else { i + 1 };
            assert(r[ii].0 == k);
            assert(has_key(r, k));
        }
        if has_key(r, k) && k != r[j].0 {
            let i = choose|i: int| 0 <= i < r.len() && r[i].0 == k;
            if i < j {
                assert(q[i].0 == k);
            } else {
                assert(q[i - 1].0 == k);
            }
        }
    }
    assert forall|k: K| #[trigger] map_of(q).dom().contains(k) implies map_of(q)[k] == m[k] by {
        let i = choose|i: int| 0 <= i < q.len() && q[i].0 == k;
        let ii = if i < j { i } else { i + 1 };
        assert(q[i] == r[ii]);
        assert(map_of(q)[q[i].0] == q[i].1);
        assert(map_of(r)[r[ii].0] == r[ii].1);
    }
    assert(map_of(q).dom() =~= m.dom());
    assert(map_of(q) =~= m);
}

pub proof fn lemma_rows_update<K, V>(rows: Seq<(K, V)>, i: int, v: V)
    requires
        keys_distinct(rows),
        0 <= i < rows.len(),
    ensures
        keys_distinct(rows.update(i, (rows[i].0, v))),
        map_of(rows.update(i, (rows[i].0, v))) == map_of(rows).insert(rows[i].0, v),
{
    let u = rows.update(i, (rows[i].0, v));
    assert(keys_distinct(u));
    lemma_map_of(rows);
    lemma_map_of(u);
    let m = map_of(rows).insert(rows[i].0, v);
    assert forall|k: K| #[trigger] map_of(u).dom().contains(k) <==> m.dom().contains(k) by {
        if has_key(u, k) {
            let j = choose|j: int| 0 <= j < u.len() && u[j].0 == k;
            assert(rows[j].0 == k);
        }
        if has_key(rows, k) {
            let j = choose|j: int| 0 <= j < rows.len() && rows[j].0 == k;
            assert(u[j].0 == k);
        }
    }
    assert forall|k: K| #[trigger] map_of(u).dom().contains(k) implies map_of(u)[k] == m[k] by {
        let j = choose|j: int| 0 <= j < u.len() && u[j].0 == k;
        assert(map_of(u)[u[j].0] == u[j].1);
        if j != i {
            assert(map_of(rows)[rows[j].0] == rows[j].1);
        }
    }
    assert(map_of(u).dom() =~= m.dom());
    assert(map_of(u) =~= m);
}

pub proof fn lemma_insert_has_key<K, V>(rows: Seq<(K, V)>, p: int, e: (K, V))
    requires
        0 <= p <= rows.len(),
    ensures
        forall|k: K|
            has_key(rows.insert(p, e), k) <==> (has_key(rows, k) || k == e.0),
{
    let n = rows.insert(p, e);
    assert forall|k: K| has_key(n, k) <==> (has_key(rows, k) || k == e.0) by {
        if has_key(n, k) {
            let j = choose|j: int| 0 <= j < n.len() && n[j].0 == k;
            if j < p {
                assert(rows[j].0 == k);
            } else if j > p {
                assert(rows[j - 1].0 == k);
            }
        }
        if has_key(rows, k) {
            let j = choose|j: int| 0 <= j < rows.len() && rows[j].0 == k;
            if j < p {
                assert(n[j].0 == k);
            } else {
                assert(n[j + 1].0 == k);
            }
        }
        if k == e.0 {
            assert(n[p].0 == k);
        }
    }
}

impl View for StringMap {
    type V = Map<Seq<char>, Seq<char>>;

    closed spec fn view(&self) -> Map<Seq<char>, Seq<char>> {
        map_of(self.rows())
    }
}

impl StringMap {
    /// Every entry of `self` is in `other` with the same value.
    fn contained_in(&self, other: &StringMap) -> (b: bool)
        ensures
            b == (forall|k: Seq<char>|
                #[trigger] self@.dom().contains(k) ==> other@.dom().contains(k) && other@[k]
                    == self@[k]),
    {
        proof {
            use_type_invariant(self);
            use_type_invariant(other);
            lemma_map_of(self.rows());
            lemma_map_of(other.rows());
        }
        let mut i: usize = 0;
        while i < self.entries.len()
            invariant
                i <= self.entries@.len(),
                keys_distinct(self.rows()),
                keys_distinct(other.rows()),
                forall|j: int|
                    0 <= j < i ==> other@.dom().contains(#[trigger] self.rows()[j].0) && other@[self.rows()[j].0]
                        == self.rows()[j].1,
            decreases self.entries.len() - i,
        {
            proof {
                lemma_map_of(self.rows());
                lemma_map_of(other.rows());
            }
            match other.find(&self.entries[i].0) {
                Some(j) => {
                    assert(map_of(other.rows())[other.rows()[j as int].0] == other.rows()[j as int].1);
                    if other.entries[j].1 != self.entries[i].1 {
                        assert(map_of(self.rows())[self.rows()[i as int].0] == self.rows()[i as int].1);
                        let ghost k = self.rows()[i as int].0;
                        assert(self.rows()[i as int].1 == self.entries@[i as int].1@);
                        assert(other.rows()[j as int].1 == other.entries@[j as int].1@);
                        assert(self@.dom().contains(k) && other@[k] != self@[k]);
                        return false;
                    }
                },
                None => {
                    let ghost k = self.rows()[i as int].0;
                    assert(has_key(self.rows(), k));
                    assert(self@.dom().contains(k) && !other@.dom().contains(k));
                    return false;
                },
            }
            i += 1;
        }
        assert forall|k: Seq<char>| #[trigger] self@.dom().contains(k) implies other@.dom().contains(k)
            && other@[k] == self@[k] by {
            let j = choose|j: int| 0 <= j < self.rows().len() && self.rows()[j].0 == k;
            assert(map_of(self.rows())[self.rows()[j].0] == self.rows()[j].1);
        }
        true
    }
}

impl PartialEq for StringMap {
    fn eq(&self, other: &Self) -> (r: bool) {
        let a = self.contained_in(other);
        let b = other.contained_in(self);
        proof {
            if a && b {
                assert(self@.dom() =~= other@.dom());
                assert(self@ =~= other@);
            }
        }
        a && b
    }
}

impl vstd::std_specs::cmp::PartialEqSpecImpl for StringMap {
    open spec fn obeys_eq_spec() -> bool {
        true
    }

    open spec fn eq_spec(&self, other: &StringMap) -> bool {
        self@ == other@
    }
}

impl Eq for StringMap {
}

} // verus!
