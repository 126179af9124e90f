//! Paths as sequences of `/`-separated components, and the order std's
//! `Path` puts them in.
//!
//! A path is read as std reads it on Unix: a leading `/` is the root, empty
//! parts (from repeated or trailing separators) are dropped, a `.` part is
//! dropped except at the very start, and `..` is the parent. Two paths
//! that differ only in such separators or `.` parts are the same path.
//! Paths are ordered component by component: the root before `.` before
//! `..` before a named part, and named parts by their characters.

use vstd::prelude::*;
use crate::string_map::{lemma_seq_lt_irreflexive, lemma_seq_lt_total, lemma_seq_lt_transitive, seq_lt};
use crate::text::{chars_of, push_char};

verus! {

/// One path component: its kind (0 root, 1 `.`, 2 `..`, 3 a named part)
/// and, for a named part, its text.
pub type PathComponent = (u8, Seq<char>);

/// The component that the part `cur` ends as; `first` tells whether it is
/// the path's first part.
pub open spec fn flush_part(done: Seq<PathComponent>, cur: Seq<char>, first: bool) -> Seq<PathComponent> {
    if cur.len() == 0 {
        if first {
            done.push((0u8, Seq::empty()))
        } else {
            done
        }
    } else if cur == seq!['.'] {
        if first {
            done.push((1u8, Seq::empty()))
        } else {
            done
        }
    } else if cur == seq!['.', '.'] {
        done.push((2u8, Seq::empty()))
    } else {
        done.push((3u8, cur))
    }
}

/// Reading `s` left to right: the finished components, the part being
/// read, and whether it is the first part.
pub open spec fn scan_path(s: Seq<char>) -> (Seq<PathComponent>, Seq<char>, bool)
    decreases s.len(),
{
    if s.len() == 0 {
        (Seq::empty(), Seq::empty(), true)
    } else {
        let (d, c, f) = scan_path(s.drop_last());
        if s.last() == '/' {
            (flush_part(d, c, f), Seq::empty(), false)
        } else {
            (d, c.push(s.last()), f)
        }
    }
}

/// The components of path `s`.
pub open spec fn path_components(s: Seq<char>) -> Seq<PathComponent> {
    let (d, c, f) = scan_path(s);
    if c.len() == 0 {
        d
    } else {
        flush_part(d, c, f)
    }
}

/// A named part: not empty, no `/`, and neither `.` nor `..`.
pub open spec fn is_named_part(n: Seq<char>) -> bool {
    n.len() > 0 && !n.contains('/') && n != seq!['.'] && n != seq!['.', '.']
}

proof fn lemma_scan_plain(a: Seq<char>, n: Seq<char>)
    requires
        !n.contains('/'),
    ensures
        scan_path(a + n) == (scan_path(a).0, scan_path(a).1 + n, scan_path(a).2),
    decreases n.len(),
{
    if n.len() == 0 {
        assert(a + n =~= a);
        assert(scan_path(a).1 + n =~= scan_path(a).1);
    } else {
        let m = n.drop_last();
        assert(!m.contains('/')) by {
            if m.contains('/') {
                let i = choose|i: int| 0 <= i < m.len() && m[i] == '/';
                assert(n[i] == '/');
            }
        }
        lemma_scan_plain(a, m);
        assert((a + n).drop_last() =~= a + m);
        assert((a + n).last() == n.last());
        assert(n.last() != '/') by {
            assert(n[n.len() - 1] == n.last());
        }
        assert(scan_path(a).1 + m.push(n.last()) =~= scan_path(a).1 + n) by {
            assert(m.push(n.last()) =~= n);
        }
        assert((scan_path(a).1 + m).push(n.last()) =~= scan_path(a).1 + n);
    }
}

/// Appending a separator and a named part to a non-empty path appends that
/// part to its components: every named part is kept, in order, whatever
/// came before it.
pub proof fn lemma_path_components_append(a: Seq<char>, n: Seq<char>)
    requires
        a.len() > 0,
        is_named_part(n),
    ensures
        path_components(a + seq!['/'] + n) == path_components(a).push((3u8, n)),
{
    let (d, c, f) = scan_path(a);
    let a1 = a + seq!['/'];
    assert(a1.drop_last() =~= a);
    assert(scan_path(a1) == (flush_part(d, c, f), Seq::<char>::empty(), false));
    lemma_scan_plain(a1, n);
    assert(Seq::<char>::empty() + n =~= n);
    assert(c.len() == 0 ==> !f) by {
        if c.len() == 0 && f {
            lemma_scan_first(a);
        }
    }
}

proof fn lemma_scan_first(a: Seq<char>)
    ensures
        scan_path(a).2 ==> scan_path(a).1 == a,
    decreases a.len(),
{
    if a.len() > 0 {
        lemma_scan_first(a.drop_last());
        if a.last() != '/' && scan_path(a).2 {
            assert(a.drop_last().push(a.last()) =~= a);
        }
    }
}

/// A bare named part is one component, and a `/` followed by a named part
/// is the root and that part.
pub proof fn lemma_path_components_single(n: Seq<char>)
    requires
        is_named_part(n),
    ensures
        path_components(n) == seq![(3u8, n)],
        path_components(seq!['/'] + n) == seq![(0u8, Seq::<char>::empty()), (3u8, n)],
{
    lemma_scan_plain(Seq::empty(), n);
    assert(Seq::<char>::empty() + n =~= n);
    assert(scan_path(Seq::<char>::empty()).1 + n =~= n);
    let r = seq!['/'];
    assert(r.drop_last() =~= Seq::<char>::empty());
    lemma_scan_plain(r, n);
    assert(Seq::<char>::empty() + n =~= n);
}

/// Paths that differ in one named directory have different components, so
/// they are different keys: `/a/x` and `/b/x` are two paths.
pub proof fn lemma_path_components_distinct_dirs(a: Seq<char>, b: Seq<char>, x: Seq<char>)
    requires
        is_named_part(a),
        is_named_part(b),
        is_named_part(x),
        a != b,
    ensures
        path_components(seq!['/'] + a + seq!['/'] + x) != path_components(seq!['/'] + b + seq!['/'] + x),
{
    lemma_path_components_single(a);
    lemma_path_components_single(b);
    lemma_path_components_append(seq!['/'] + a, x);
    lemma_path_components_append(seq!['/'] + b, x);
    let pa = path_components(seq!['/'] + a + seq!['/'] + x);
    let pb = path_components(seq!['/'] + b + seq!['/'] + x);
    assert(pa[1] == (3u8, a));
    assert(pb[1] == (3u8, b));
}

/// Order of two components: by kind, then named parts by their text.
pub open spec fn component_lt(a: PathComponent, b: PathComponent) -> bool {
    a.0 < b.0 || (a.0 == b.0 && seq_lt(a.1, b.1))
}

/// Order of two paths' components: the first differing component decides,
/// and a path that is a leading part of another comes first.
pub open spec fn components_lt(a: Seq<PathComponent>, b: Seq<PathComponent>) -> bool
    decreases a.len(),
{
    if a.len() == 0 {
        b.len() > 0
    } else if b.len() == 0 {
        false
    } else if a[0] != b[0] {
        component_lt(a[0], b[0])
    } else {
        components_lt(a.drop_first(), b.drop_first())
    }
}

/// Path order on path texts (std's `Ord for Path`).
pub open spec fn path_lt(a: Seq<char>, b: Seq<char>) -> bool {
    components_lt(path_components(a), path_components(b))
}

pub proof fn lemma_components_lt_irreflexive(a: Seq<PathComponent>)
    ensures
        !components_lt(a, a),
    decreases a.len(),
{
    if a.len() > 0 {
        lemma_components_lt_irreflexive(a.drop_first());
    }
}

proof fn lemma_component_lt_facts(a: PathComponent, b: PathComponent, c: PathComponent)
    ensures
        !component_lt(a, a),
        component_lt(a, b) && component_lt(b, c) ==> component_lt(a, c),
        a != b ==> component_lt(a, b) || component_lt(b, a),
        component_lt(a, b) ==> !component_lt(b, a),
{
    lemma_seq_lt_irreflexive(a.1);
    if component_lt(a, b) && component_lt(b, c) && a.0 == b.0 && b.0 == c.0 {
        lemma_seq_lt_transitive(a.1, b.1, c.1);
    }
    if a != b && a.0 == b.0 {
        lemma_seq_lt_total(a.1, b.1);
    }
    if component_lt(a, b) && component_lt(b, a) && a.0 == b.0 {
        lemma_seq_lt_transitive(a.1, b.1, a.1);
    }
}

pub proof fn lemma_components_lt_transitive(a: Seq<PathComponent>, b: Seq<PathComponent>, c: Seq<PathComponent>)
    requires
        components_lt(a, b),
        components_lt(b, c),
    ensures
        components_lt(a, c),
    decreases a.len(),
{
    if a.len() > 0 && b.len() > 0 && c.len() > 0 {
        lemma_component_lt_facts(a[0], b[0], c[0]);
        if a[0] == b[0] && b[0] == c[0] {
            lemma_components_lt_transitive(a.drop_first(), b.drop_first(), c.drop_first());
        }
    }
}

pub proof fn lemma_components_lt_total(a: Seq<PathComponent>, b: Seq<PathComponent>)
    requires
        a != b,
    ensures
        components_lt(a, b) || components_lt(b, a),
    decreases a.len(),
{
    if a.len() > 0 && b.len() > 0 {
        lemma_component_lt_facts(a[0], b[0], b[0]);
        if a[0] == b[0] {
            if a.drop_first() == b.drop_first() {
                assert(a =~= seq![a[0]] + a.drop_first());
                assert(b =~= seq![b[0]] + b.drop_first());
            }
            lemma_components_lt_total(a.drop_first(), b.drop_first());
        }
    } else if a.len() == 0 && b.len() == 0 {
        assert(a =~= b);
    }
}

/// Components as exec values: kind and text.
pub open spec fn components_view(v: Seq<(u8, String)>) -> Seq<PathComponent> {
    v.map_values(|c: (u8, String)| (c.0, c.1@))
}

fn flush_exec(done: &mut Vec<(u8, String)>, cur: &Vec<char>, first: bool)
    ensures
        components_view(final(done)@) == flush_part(components_view(old(done)@), cur@, first),
{
    let ghost before = components_view(done@);
    let n = cur.len();
    let mut part = String::new();
    let mut i: usize = 0;
    while i < n
        invariant
            n == cur@.len(),
            i <= n,
            part@ == cur@.take(i as int),
        decreases n - i,
    {
        push_char(&mut part, cur[i]);
        assert(cur@.take(i + 1) =~= cur@.take(i as int).push(cur@[i as int]));
        i += 1;
    }
    assert(cur@.take(n as int) =~= cur@);
    let item: Option<(u8, String)> = if n == 0 {
        if first {
            Some((0u8, String::new()))
        } else {
            None
        }
    } else if n == 1 && cur[0] == '.' {
        assert(cur@ =~= seq!['.']);
        if first {
            Some((1u8, String::new()))
        } else {
            None
        }
    } else if n == 2 && cur[0] == '.' && cur[1] == '.' {
        assert(cur@ =~= seq!['.', '.']);
        Some((2u8, String::new()))
    } else {
        assert(cur@ != seq!['.'] && cur@ != seq!['.', '.']) by {
            if cur@ == seq!['.'] {
                assert(cur@[0] == '.');
            }
            if cur@ == seq!['.', '.'] {
                assert(cur@[0] == '.' && cur@[1] == '.');
            }
        }
        Some((3u8, part))
    };
    match item {
        Some(c) => {
            done.push(c);
            assert(components_view(done@) =~= before.push((c.0, c.1@)));
        },
        None => {},
    }
    proof {
        reveal_strlit("");
    }
}

/// The components of `s`.
pub fn path_components_of(s: &str) -> (r: Vec<(u8, String)>)
    ensures
        components_view(r@) == path_components(s@),
{
    let v = chars_of(s);
    let mut done: Vec<(u8, String)> = Vec::new();
    let mut cur: Vec<char> = Vec::new();
    let mut first = true;
    let mut i: usize = 0;
    assert(v@.take(0) =~= Seq::<char>::empty());
    assert(components_view(done@) =~= Seq::<PathComponent>::empty());
    while i < v.len()
        invariant
            v@ == s@,
            i <= v@.len(),
            (components_view(done@), cur@, first) == scan_path(v@.take(i as int)),
        decreases v.len() - i,
    {
        assert(v@.take(i + 1).drop_last() =~= v@.take(i as int));
        if v[i] == '/' {
            flush_exec(&mut done, &cur, first);
            cur = Vec::new();
            first = false;
            assert(cur@ =~= Seq::<char>::empty());
        } else {
            cur.push(v[i]);
        }
        i += 1;
    }
    assert(v@.take(v@.len() as int) =~= v@);
    if cur.len() > 0 {
        flush_exec(&mut done, &cur, first);
    }
    done
}

fn string_lt(a: &String, b: &String) -> (r: bool)
    ensures
        r == seq_lt(a@, b@),
{
    crate::string_map::key_lt(a, b)
}

/// `a` comes before `b` in path order.
pub fn components_less(a: &Vec<(u8, String)>, b: &Vec<(u8, String)>) -> (r: bool)
    ensures
        r == components_lt(components_view(a@), components_view(b@)),
{
    let ghost av = components_view(a@);
    let ghost bv = components_view(b@);
    let mut i: usize = 0;
    assert(av.skip(0) =~= av);
    assert(bv.skip(0) =~= bv);
    while i < a.len() && i < b.len()
        invariant
            av == components_view(a@),
            bv == components_view(b@),
            i <= a@.len(),
            i <= b@.len(),
            components_lt(av, bv) == components_lt(av.skip(i as int), bv.skip(i as int)),
        decreases a.len() - i,
    {
        assert(av.skip(i as int)[0] == av[i as int]);
        assert(bv.skip(i as int)[0] == bv[i as int]);
        assert(av.skip(i as int).drop_first() =~= av.skip(i + 1));
        assert(bv.skip(i as int).drop_first() =~= bv.skip(i + 1));
        let same_kind = a[i].0 == b[i].0;
        let same_text = !string_lt(&a[i].1, &b[i].1) && !string_lt(&b[i].1, &a[i].1);
        proof {
            if !seq_lt(a@[i as int].1@, b@[i as int].1@) && !seq_lt(b@[i as int].1@, a@[i as int].1@) {
                if a@[i as int].1@ != b@[i as int].1@ {
                    lemma_seq_lt_total(a@[i as int].1@, b@[i as int].1@);
                }
            }
        }
        if !(same_kind && same_text) {
            proof {
                lemma_seq_lt_irreflexive(a@[i as int].1@);
                assert(av[i as int] == (a@[i as int].0, a@[i as int].1@));
                assert(bv[i as int] == (b@[i as int].0, b@[i as int].1@));
                assert(av[i as int] != bv[i as int]);
            }
            return a[i].0 < b[i].0 || (same_kind && string_lt(&a[i].1, &b[i].1));
        }
        i += 1;
    }
    i == a.len() && i < b.len()
}

} // verus!
