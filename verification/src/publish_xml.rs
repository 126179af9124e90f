//! Reading the publish sidecars back: Data.xml becomes the drawing's
//! objects and relationships, Meta.xml its version, revision and file
//! record.  The XML itself is parsed by roxmltree into a flat list of
//! nodes in document order; everything after that is read here.

use crate::string_map::{
    has_key, keys_distinct, lemma_insert_has_key, lemma_map_of, lemma_map_of_remove_at, lemma_rows_update,
    map_of, StringMap,
};
use crate::text::{push_str, str_eq, trim, trimmed};
use vstd::prelude::*;

verus! {

/// One attribute: local name, value, and whether it has a namespace.
pub type XmlAttrView = (Seq<char>, Seq<char>, bool);

/// One node as the reader sees it: its id, its parent's id, its kind
/// (roxmltree's `NodeType` in declaration order: 0 document root, 1
/// element, 2 processing instruction, 3 comment, 4 text), its local tag
/// name (empty
/// unless an element), its attributes, and roxmltree's `text()` of it (an
/// element's is the text of its first child when that child is text).
pub type XmlNodeView = (nat, Option<nat>, u8, Seq<char>, Seq<XmlAttrView>, Option<Seq<char>>);

/// One node of a parsed document.
#[derive(Debug)]
pub struct XmlNode {
    pub id: usize,
    pub parent: Option<usize>,
    pub kind: u8,
    pub name: String,
    pub attributes: Vec<(String, String, bool)>,
    pub text: Option<String>,
}

pub open spec fn attr_view(a: (String, String, bool)) -> XmlAttrView {
    (a.0@, a.1@, a.2)
}

pub open spec fn node_view(n: XmlNode) -> XmlNodeView {
    (
        n.id as nat,
        match n.parent {
            Some(p) => Some(p as nat),
            None => None,
        },
        n.kind,
        n.name@,
        n.attributes@.map_values(|a: (String, String, bool)| attr_view(a)),
        match n.text {
            Some(t) => Some(t@),
            None => None,
        },
    )
}

pub open spec fn nodes_view(v: Seq<XmlNode>) -> Seq<XmlNodeView> {
    v.map_values(|n: XmlNode| node_view(n))
}

/// What roxmltree's `Document::parse` makes of `text`: the document's
/// nodes in `descendants()` order, or the rendering of its error.
pub uninterp spec fn xml_parse_result(text: Seq<char>) -> Result<Seq<XmlNodeView>, Seq<char>>;

/// roxmltree's `Document::parse`, its nodes read in `descendants()` order.
/// The contract claims the result is `xml_parse_result` of the text, and
/// that a parsed document starts with its root node, which has an element
/// child (roxmltree refuses documents without a root element).
#[verifier::external_body]
fn parse_xml_nodes(text: &str) -> (r: Result<Vec<XmlNode>, String>)
    ensures
        match xml_parse_result(text@) {
            Ok(nodes) => r matches Ok(v) && nodes_view(v@) == nodes,
            Err(e) => r matches Err(m) && m@ == e,
        },
        r matches Ok(v) ==> v@.len() > 0 && v@[0].kind == 0 && exists|i: int|
            0 <= i < v@.len() && v@[i].kind == 1 && v@[i].parent == Some(v@[0].id),
{
    match roxmltree::Document::parse(text) {
        Ok(doc) => Ok(doc.descendants().map(|n| XmlNode {
            id: n.id().get_usize(),
            parent: n.parent().map(|p| p.id().get_usize()),
            kind: n.node_type() as u8,
            name: n.tag_name().name().to_string(),
            attributes: n.attributes().map(|a| (a.name().to_string(), a.value().to_string(), a.namespace().is_some())).collect(),
            text: n.text().map(str::to_string),
        }).collect()),
        Err(e) => Err(e.to_string()),
    }
}

/// Indices of the element nodes among the first `n` whose parent is `id`,
/// in document order.
pub open spec fn element_children_upto(nodes: Seq<XmlNodeView>, id: nat, n: nat) -> Seq<int>
    decreases n,
{
    if n == 0 {
        Seq::empty()
    } else {
        let prev = element_children_upto(nodes, id, (n - 1) as nat);
        let k = n - 1;
        if nodes[k].2 == 1 && nodes[k].1 == Some(id) {
            prev.push(k)
        } else {
            prev
        }
    }
}

/// Indices of the element children of node `i`, in document order.
pub open spec fn element_children(nodes: Seq<XmlNodeView>, i: int) -> Seq<int> {
    element_children_upto(nodes, nodes[i].0, nodes.len())
}

/// The first of `kids` whose tag name is `name`.
pub open spec fn first_named(nodes: Seq<XmlNodeView>, kids: Seq<int>, name: Seq<char>) -> Option<int>
    decreases kids.len(),
{
    if kids.len() == 0 {
        None
    } else if nodes[kids[0]].3 == name {
        Some(kids[0])
    } else {
        first_named(nodes, kids.drop_first(), name)
    }
}

/// The first element child of node `i` named `name`.
pub open spec fn child_named(nodes: Seq<XmlNodeView>, i: int, name: Seq<char>) -> Option<int> {
    first_named(nodes, element_children(nodes, i), name)
}

proof fn lemma_children_in_range(nodes: Seq<XmlNodeView>, id: nat, n: nat)
    ensures
        forall|j: int|
            0 <= j < element_children_upto(nodes, id, n).len() ==> 0 <= #[trigger] element_children_upto(
                nodes,
                id,
                n,
            )[j] < n,
    decreases n,
{
    if n > 0 {
        lemma_children_in_range(nodes, id, (n - 1) as nat);
        let prev = element_children_upto(nodes, id, (n - 1) as nat);
        assert forall|j: int| 0 <= j < element_children_upto(nodes, id, n).len() implies 0
            <= #[trigger] element_children_upto(nodes, id, n)[j] < n by {
            if j < prev.len() {
                assert(element_children_upto(nodes, id, n)[j] == prev[j]);
            }
        }
    }
}

proof fn lemma_first_named_in(nodes: Seq<XmlNodeView>, kids: Seq<int>, name: Seq<char>)
    ensures
        first_named(nodes, kids, name) matches Some(k) ==> kids.contains(k),
    decreases kids.len(),
{
    if kids.len() > 0 && nodes[kids[0]].3 != name {
        lemma_first_named_in(nodes, kids.drop_first(), name);
        match first_named(nodes, kids.drop_first(), name) {
            Some(k) => {
                let j = choose|j: int| 0 <= j < kids.drop_first().len() && kids.drop_first()[j] == k;
                assert(kids[j + 1] == k);
            },
            None => {},
        }
    }
}

/// A named child is a node of the document.
pub proof fn lemma_child_named_in_range(nodes: Seq<XmlNodeView>, i: int, name: Seq<char>)
    requires
        0 <= i < nodes.len(),
    ensures
        child_named(nodes, i, name) matches Some(k) ==> 0 <= k < nodes.len(),
{
    lemma_children_in_range(nodes, nodes[i].0, nodes.len());
    lemma_first_named_in(nodes, element_children(nodes, i), name);
}

/// Value of the first attribute without a namespace named `name`.
pub open spec fn attr_in(attrs: Seq<XmlAttrView>, name: Seq<char>) -> Option<Seq<char>>
    decreases attrs.len(),
{
    if attrs.len() == 0 {
        None
    } else if !attrs[0].2 && attrs[0].0 == name {
        Some(attrs[0].1)
    } else {
        attr_in(attrs.drop_first(), name)
    }
}

/// Attribute `name` (without namespace) of node `i`.
pub open spec fn attr_of(nodes: Seq<XmlNodeView>, i: int, name: Seq<char>) -> Option<Seq<char>> {
    attr_in(nodes[i].4, name)
}

/// Indices of the element children of node `i`.
fn element_children_exec(nodes: &Vec<XmlNode>, i: usize) -> (r: Vec<usize>)
    requires
        i < nodes@.len(),
    ensures
        r@.map_values(|k: usize| k as int) == element_children(nodes_view(nodes@), i as int),
        forall|j: int| 0 <= j < r@.len() ==> r@[j] < nodes@.len(),
{
    let ghost nv = nodes_view(nodes@);
    let id = nodes[i].id;
    let mut r: Vec<usize> = Vec::new();
    let mut k: usize = 0;
    while k < nodes.len()
        invariant
            nv == nodes_view(nodes@),
            i < nodes@.len(),
            id == nodes@[i as int].id,
            k <= nodes@.len(),
            r@.map_values(|x: usize| x as int) == element_children_upto(nv, id as nat, k as nat),
            forall|j: int| 0 <= j < r@.len() ==> r@[j] < nodes@.len(),
        decreases nodes.len() - k,
    {
        let ghost before = r@;
        assert(nv[k as int] == node_view(nodes@[k as int]));
        let is_child = nodes[k].kind == 1 && match nodes[k].parent {
            Some(p) => p == id,
            None => false,
        };
        if is_child {
            r.push(k);
            assert(r@.map_values(|x: usize| x as int) =~= before.map_values(|x: usize| x as int).push(
                k as int,
            ));
        }
        k += 1;
    }
    assert(nv[i as int].0 == id as nat);
    r
}

/// The first of `kids` named `name`.
fn first_named_exec(nodes: &Vec<XmlNode>, kids: &Vec<usize>, name: &str) -> (r: Option<usize>)
    requires
        forall|j: int| 0 <= j < kids@.len() ==> kids@[j] < nodes@.len(),
    ensures
        match first_named(nodes_view(nodes@), kids@.map_values(|k: usize| k as int), name@) {
            Some(k) => r matches Some(x) && x as int == k,
            None => r is None,
        },
        r matches Some(k) ==> k < nodes@.len(),
{
    let ghost nv = nodes_view(nodes@);
    let ghost kv = kids@.map_values(|k: usize| k as int);
    let mut j: usize = 0;
    assert(kv.skip(0) =~= kv);
    while j < kids.len()
        invariant
            nv == nodes_view(nodes@),
            kv == kids@.map_values(|k: usize| k as int),
            forall|t: int| 0 <= t < kids@.len() ==> kids@[t] < nodes@.len(),
            j <= kids@.len(),
            first_named(nv, kv, name@) == first_named(nv, kv.skip(j as int), name@),
        decreases kids.len() - j,
    {
        let k = kids[j];
        assert(kv.skip(j as int)[0] == k as int);
        assert(nv[k as int] == node_view(nodes@[k as int]));
        if str_eq(nodes[k].name.as_str(), name) {
            return Some(k);
        }
        assert(kv.skip(j as int).drop_first() =~= kv.skip(j + 1));
        j += 1;
    }
    assert(kv.skip(j as int) =~= Seq::<int>::empty());
    None
}

/// Value of attribute `name` (without namespace) of `node`.
fn attr_exec(node: &XmlNode, name: &str) -> (r: Option<String>)
    ensures
        match attr_in(node_view(*node).4, name@) {
            Some(v) => r matches Some(s) && s@ == v,
            None => r is None,
        },
{
    let ghost av = node_view(*node).4;
    let mut j: usize = 0;
    assert(av.skip(0) =~= av);
    while j < node.attributes.len()
        invariant
            av == node.attributes@.map_values(|a: (String, String, bool)| attr_view(a)),
            j <= node.attributes@.len(),
            attr_in(av, name@) == attr_in(av.skip(j as int), name@),
        decreases node.attributes.len() - j,
    {
        let a = &node.attributes[j];
        assert(av.skip(j as int)[0] == attr_view(*a));
        if !a.2 && str_eq(a.0.as_str(), name) {
            return Some(a.1.clone());
        }
        assert(av.skip(j as int).drop_first() =~= av.skip(j + 1));
        j += 1;
    }
    assert(av.skip(j as int) =~= Seq::<XmlAttrView>::empty());
    None
}

pub type Rows = Seq<(Seq<char>, Seq<char>)>;

/// Extra attributes contributed by child element `k` of an object: one
/// `<child>.<attribute>` row per attribute and a `<child>.text` row for
/// non-blank text (trimmed); nothing for the `IObject` child.
pub open spec fn child_rows(nodes: Seq<XmlNodeView>, k: int) -> Rows {
    let name = nodes[k].3;
    if name == "IObject"@ {
        Seq::empty()
    } else {
        nodes[k].4.map_values(|a: XmlAttrView| (name + "."@ + a.0, a.1)) + match nodes[k].5 {
            Some(t) => if trim(t).len() > 0 {
                seq![(name + ".text"@, trim(t))]
            } else {
                Seq::empty()
            },
            None => Seq::empty(),
        }
    }
}

pub open spec fn children_rows(nodes: Seq<XmlNodeView>, kids: Seq<int>) -> Rows
    decreases kids.len(),
{
    if kids.len() == 0 {
        Seq::empty()
    } else {
        children_rows(nodes, kids.drop_last()) + child_rows(nodes, kids.last())
    }
}

/// A `(key, value)` row when `v` is present and not empty.
pub open spec fn nonempty_row(key: Seq<char>, v: Option<Seq<char>>) -> Rows {
    match v {
        Some(s) => if s.len() > 0 {
            seq![(key, s)]
        } else {
            Seq::empty()
        },
        None => Seq::empty(),
    }
}

/// The extra attributes of the object element `c` whose `IObject` child
/// is `o`, in insertion order.
pub open spec fn extra_rows(nodes: Seq<XmlNodeView>, c: int, o: int) -> Rows {
    nonempty_row("IObject.Name"@, attr_of(nodes, o, "Name"@)) + nonempty_row(
        "IObject.Description"@,
        attr_of(nodes, o, "Description"@),
    ) + children_rows(nodes, element_children(nodes, c))
}

proof fn lemma_map_of_push(rows: Rows, k: Seq<char>, v: Seq<char>)
    ensures
        map_of(rows.push((k, v))) == map_of(rows).insert(k, v),
{
    assert(rows.push((k, v)).drop_last() =~= rows);
}

fn concat3(a: &str, b: &str, c: &str) -> (r: String)
    ensures
        r@ == a@ + b@ + c@,
{
    let mut r = String::from_str(a);
    push_str(&mut r, b);
    push_str(&mut r, c);
    r
}

/// Inserts `(key, value)` into `m` when `value` is present and not empty.
fn insert_nonempty(m: &mut StringMap, Ghost(rows): Ghost<Rows>, key: &str, value: Option<String>)
    requires
        old(m)@ == map_of(rows),
    ensures
        final(m)@ == map_of(
            rows + nonempty_row(
                key@,
                match value {
                    Some(s) => Some(s@),
                    None => None,
                },
            ),
        ),
{
    match value {
        Some(s) => {
            if crate::text::chars_of(s.as_str()).len() > 0 {
                let ghost sv = s@;
                m.insert(String::from_str(key), s);
                proof {
                    lemma_map_of_push(rows, key@, sv);
                    assert(rows + seq![(key@, sv)] =~= rows.push((key@, sv)));
                }
            } else {
                assert(rows + Seq::<(Seq<char>, Seq<char>)>::empty() =~= rows);
            }
        },
        None => {
            assert(rows + Seq::<(Seq<char>, Seq<char>)>::empty() =~= rows);
        },
    }
}

/// Adds the rows of child element `k` to `m`.
fn insert_child_rows(m: &mut StringMap, Ghost(rows): Ghost<Rows>, nodes: &Vec<XmlNode>, k: usize)
    requires
        old(m)@ == map_of(rows),
        k < nodes@.len(),
    ensures
        final(m)@ == map_of(rows + child_rows(nodes_view(nodes@), k as int)),
{
    let ghost nv = nodes_view(nodes@);
    let node = &nodes[k];
    assert(nv[k as int] == node_view(*node));
    if str_eq(node.name.as_str(), "IObject") {
        assert(rows + Seq::<(Seq<char>, Seq<char>)>::empty() =~= rows);
        return;
    }
    let ghost name = node.name@;
    let ghost av = nv[k as int].4;
    let ghost f = |a: XmlAttrView| (name + "."@ + a.0, a.1);
    let mut t: usize = 0;
    assert(rows + av.take(0).map_values(f) =~= rows);
    while t < node.attributes.len()
        invariant
            nv == nodes_view(nodes@),
            node == nodes@[k as int],
            name == node.name@,
            av == node.attributes@.map_values(|a: (String, String, bool)| attr_view(a)),
            f == (|a: XmlAttrView| (name + "."@ + a.0, a.1)),
            t <= node.attributes@.len(),
            m@ == map_of(rows + av.take(t as int).map_values(f)),
        decreases node.attributes.len() - t,
    {
        let a = &node.attributes[t];
        let key = concat3(node.name.as_str(), ".", a.0.as_str());
        let ghost kv = key@;
        let ghost vv = a.1@;
        m.insert(key, a.1.clone());
        proof {
            let before = rows + av.take(t as int).map_values(f);
            lemma_map_of_push(before, kv, vv);
            assert(av[t as int] == attr_view(*a));
            assert(rows + av.take(t + 1).map_values(f) =~= before.push((kv, vv)));
        }
        t += 1;
    }
    assert(av.take(node.attributes@.len() as int) =~= av);
    let ghost mid = rows + av.map_values(f);
    match &node.text {
        Some(text) => {
            let tt = trimmed(text.as_str());
            if crate::text::chars_of(tt.as_str()).len() > 0 {
                let mut key = String::from_str(node.name.as_str());
                push_str(&mut key, ".text");
                let ghost kv = key@;
                let ghost tv = tt@;
                m.insert(key, tt);
                proof {
                    lemma_map_of_push(mid, kv, tv);
                    assert(kv =~= name + ".text"@);
                    assert(rows + child_rows(nv, k as int) =~= mid.push((kv, tv)));
                }
            } else {
                assert(rows + child_rows(nv, k as int) =~= mid);
            }
        },
        None => {
            assert(rows + child_rows(nv, k as int) =~= mid);
        },
    }
}

/// The extra-attribute map of object element `c` with `IObject` child `o`.
fn object_extra(nodes: &Vec<XmlNode>, c: usize, o: usize) -> (m: StringMap)
    requires
        c < nodes@.len(),
        o < nodes@.len(),
    ensures
        m@ == map_of(extra_rows(nodes_view(nodes@), c as int, o as int)),
{
    let ghost nv = nodes_view(nodes@);
    let mut m = StringMap::new();
    assert(map_of(Seq::<(Seq<char>, Seq<char>)>::empty()) =~= Map::<Seq<char>, Seq<char>>::empty());
    assert(nv[o as int] == node_view(nodes@[o as int]));
    let name = attr_exec(&nodes[o], "Name");
    insert_nonempty(&mut m, Ghost(Seq::empty()), "IObject.Name", name);
    let ghost r1 = Seq::<(Seq<char>, Seq<char>)>::empty() + nonempty_row(
        "IObject.Name"@,
        attr_of(nv, o as int, "Name"@),
    );
    let desc = attr_exec(&nodes[o], "Description");
    insert_nonempty(&mut m, Ghost(r1), "IObject.Description", desc);
    let ghost r2 = r1 + nonempty_row("IObject.Description"@, attr_of(nv, o as int, "Description"@));
    let kids = element_children_exec(nodes, c);
    let ghost kv = kids@.map_values(|k: usize| k as int);
    let mut j: usize = 0;
    assert(r2 + children_rows(nv, kv.take(0)) =~= r2);
    while j < kids.len()
        invariant
            nv == nodes_view(nodes@),
            kv == kids@.map_values(|k: usize| k as int),
            forall|t: int| 0 <= t < kids@.len() ==> kids@[t] < nodes@.len(),
            j <= kids@.len(),
            m@ == map_of(r2 + children_rows(nv, kv.take(j as int))),
        decreases kids.len() - j,
    {
        let k = kids[j];
        insert_child_rows(&mut m, Ghost(r2 + children_rows(nv, kv.take(j as int))), nodes, k);
        assert(kv.take(j + 1).drop_last() =~= kv.take(j as int));
        assert(kv.take(j + 1).last() == k as int);
        assert(r2 + children_rows(nv, kv.take(j + 1)) =~= r2 + children_rows(nv, kv.take(j as int))
            + child_rows(nv, k as int));
        j += 1;
    }
    assert(kv.take(kids@.len() as int) =~= kv);
    assert(r2 + children_rows(nv, kv) =~= extra_rows(nv, c as int, o as int));
    m
}

/// An object read from Data.xml: drawing id (the `IObject` UID), item type
/// (the element's tag), whether it has an `IDrawingItem` child, model id
/// (the `IObject` name) and its extra attributes in insertion order.
pub type ObjView = (Seq<char>, Seq<char>, bool, Option<Seq<char>>, Rows);

/// A relationship as written: its `IObject` UID if any, the two
/// endpoints (trimmed) and the definition UID.
pub type RawRelView = (Option<Seq<char>>, Seq<char>, Seq<char>, Seq<char>);

/// Drawing number, title, objects and relationships read so far.
pub type ScanState = (Option<Seq<char>>, Option<Seq<char>>, Seq<ObjView>, Seq<RawRelView>);

pub open spec fn or_else(a: Option<Seq<char>>, b: Option<Seq<char>>) -> Option<Seq<char>> {
    match a {
        Some(x) => Some(x),
        None => b,
    }
}

pub open spec fn attr_of_opt(nodes: Seq<XmlNodeView>, i: Option<int>, name: Seq<char>) -> Option<Seq<char>> {
    match i {
        Some(k) => attr_of(nodes, k, name),
        None => None,
    }
}

pub open spec fn unwrap_or_empty(v: Option<Seq<char>>) -> Seq<char> {
    match v {
        Some(s) => s,
        None => Seq::empty(),
    }
}

/// Effect of the top-level element `c` on the scan: a `Rel` with two
/// non-blank endpoints adds a relationship; any other element with an
/// `IObject` child carrying a UID adds an object, and a `PIDDrawing`
/// also supplies the drawing number and title.
pub open spec fn scan_step(nodes: Seq<XmlNodeView>, st: ScanState, c: int) -> ScanState {
    let tag = nodes[c].3;
    if tag == "Rel"@ {
        match child_named(nodes, c, "IRel"@) {
            Some(rel) => {
                let u1 = trim(unwrap_or_empty(attr_of(nodes, rel, "UID1"@)));
                let u2 = trim(unwrap_or_empty(attr_of(nodes, rel, "UID2"@)));
                if u1.len() > 0 && u2.len() > 0 {
                    let uid = attr_of_opt(nodes, child_named(nodes, c, "IObject"@), "UID"@);
                    let def = match attr_of(nodes, rel, "DefUID"@) {
                        Some(d) => d,
                        None => "Relationship"@,
                    };
                    (st.0, st.1, st.2, st.3.push((uid, u1, u2, def)))
                } else {
                    st
                }
            },
            None => st,
        }
    } else {
        match child_named(nodes, c, "IObject"@) {
            None => st,
            Some(o) => match attr_of(nodes, o, "UID"@) {
                None => st,
                Some(uid) => {
                    let drawing = tag == "PIDDrawing"@;
                    let dn = if drawing {
                        or_else(attr_of(nodes, o, "Name"@), st.0)
                    } else {
                        st.0
                    };
                    let title = if drawing {
                        or_else(
                            attr_of_opt(nodes, child_named(nodes, c, "IDocument"@), "DocTitle"@),
                            st.1,
                        )
                    } else {
                        st.1
                    };
                    let obj = (
                        uid,
                        tag,
                        child_named(nodes, c, "IDrawingItem"@) is Some,
                        attr_of(nodes, o, "Name"@),
                        extra_rows(nodes, c, o),
                    );
                    (dn, title, st.2.push(obj), st.3)
                },
            },
        }
    }
}

/// The scan after the top-level elements `kids`, starting from `st`.
pub open spec fn scan(nodes: Seq<XmlNodeView>, st: ScanState, kids: Seq<int>) -> ScanState
    decreases kids.len(),
{
    if kids.len() == 0 {
        st
    } else {
        scan_step(nodes, scan(nodes, st, kids.drop_last()), kids.last())
    }
}

/// An object read from Data.xml.
#[derive(Debug)]
pub struct PublishObject {
    pub drawing_id: String,
    pub item_type: String,
    /// `IDrawingItem` when the element has such a child.
    pub drawing_item_type: Option<String>,
    pub model_id: Option<String>,
    pub extra: StringMap,
}

pub open spec fn opt_str(o: Option<String>) -> Option<Seq<char>> {
    match o {
        Some(s) => Some(s@),
        None => None,
    }
}

/// `o` holds the object `v`.
pub open spec fn object_matches(o: PublishObject, v: ObjView) -> bool {
    &&& o.drawing_id@ == v.0
    &&& o.item_type@ == v.1
    &&& opt_str(o.drawing_item_type) == (if v.2 {
        Some("IDrawingItem"@)
    } else {
        None
    })
    &&& opt_str(o.model_id) == v.3
    &&& o.extra@ == map_of(v.4)
}

pub open spec fn raw_rel_view(r: (Option<String>, String, String, String)) -> RawRelView {
    (opt_str(r.0), r.1@, r.2@, r.3@)
}

fn clone_opt(o: &Option<String>) -> (r: Option<String>)
    ensures
        opt_str(r) == opt_str(*o),
{
    match o {
        Some(s) => Some(s.clone()),
        None => None,
    }
}

fn attr_of_child(nodes: &Vec<XmlNode>, kid: Option<usize>, name: &str) -> (r: Option<String>)
    requires
        kid matches Some(k) ==> k < nodes@.len(),
    ensures
        opt_str(r) == attr_of_opt(
            nodes_view(nodes@),
            match kid {
                Some(k) => Some(k as int),
                None => None,
            },
            name@,
        ),
{
    match kid {
        Some(k) => {
            assert(nodes_view(nodes@)[k as int] == node_view(nodes@[k as int]));
            attr_exec(&nodes[k], name)
        },
        None => None,
    }
}

/// What the scan accumulates, as owned values.
pub struct ScanResult {
    pub drawing_no: Option<String>,
    pub title: Option<String>,
    pub objects: Vec<PublishObject>,
    pub raw_relationships: Vec<(Option<String>, String, String, String)>,
}

pub open spec fn scan_matches(r: ScanResult, st: ScanState) -> bool {
    &&& opt_str(r.drawing_no) == st.0
    &&& opt_str(r.title) == st.1
    &&& r.objects@.len() == st.2.len()
    &&& forall|i: int| 0 <= i < st.2.len() ==> object_matches(#[trigger] r.objects@[i], st.2[i])
    &&& r.raw_relationships@.map_values(|x: (Option<String>, String, String, String)| raw_rel_view(x))
        == st.3
}

fn child_named_exec(nodes: &Vec<XmlNode>, c: usize, name: &str) -> (r: Option<usize>)
    requires
        c < nodes@.len(),
    ensures
        child_named(nodes_view(nodes@), c as int, name@) matches Some(k) ==> 0 <= k < nodes@.len(),
        match child_named(nodes_view(nodes@), c as int, name@) {
            Some(k) => r matches Some(x) && x as int == k,
            None => r is None,
        },
        r matches Some(k) ==> k < nodes@.len(),
{
    proof {
        lemma_child_named_in_range(nodes_view(nodes@), c as int, name@);
    }
    let kids = element_children_exec(nodes, c);
    first_named_exec(nodes, &kids, name)
}

/// The scan step of a `Rel` element `c`.
fn rel_step_exec(nodes: &Vec<XmlNode>, acc: &mut ScanResult, Ghost(st): Ghost<ScanState>, c: usize)
    requires
        c < nodes@.len(),
        nodes@[c as int].name@ == "Rel"@,
        scan_matches(*old(acc), st),
    ensures
        scan_matches(*final(acc), scan_step(nodes_view(nodes@), st, c as int)),
{
    let ghost nv = nodes_view(nodes@);
    assert(nv[c as int] == node_view(nodes@[c as int]));
    let rel = match child_named_exec(nodes, c, "IRel") {
        Some(rel) => rel,
        None => {
            return;
        },
    };
    assert(child_named(nv, c as int, "IRel"@) == Some(rel as int));
    assert(nv[rel as int] == node_view(nodes@[rel as int]));
    let a1 = attr_exec(&nodes[rel], "UID1");
    let u1 = match &a1 {
        Some(v) => trimmed(v.as_str()),
        None => String::new(),
    };
    let a2 = attr_exec(&nodes[rel], "UID2");
    let u2 = match &a2 {
        Some(v) => trimmed(v.as_str()),
        None => String::new(),
    };
    proof {
        assert(trim(Seq::<char>::empty()) =~= Seq::<char>::empty());
        assert(u1@ == trim(unwrap_or_empty(attr_of(nv, rel as int, "UID1"@))));
        assert(u2@ == trim(unwrap_or_empty(attr_of(nv, rel as int, "UID2"@))));
    }
    if crate::text::chars_of(u1.as_str()).len() == 0 || crate::text::chars_of(u2.as_str()).len()
        == 0 {
        return;
    }
    let obj = child_named_exec(nodes, c, "IObject");
    let uid = attr_of_child(nodes, obj, "UID");
    assert(opt_str(uid) == attr_of_opt(nv, child_named(nv, c as int, "IObject"@), "UID"@));
    let def = match attr_exec(&nodes[rel], "DefUID") {
        Some(d) => d,
        None => String::from_str("Relationship"),
    };
    let ghost before = acc.raw_relationships@;
    let item = (uid, u1, u2, def);
    let ghost iv = raw_rel_view(item);
    assert(scan_step(nv, st, c as int) == (st.0, st.1, st.2, st.3.push(iv)));
    acc.raw_relationships.push(item);
    assert(acc.raw_relationships@.map_values(
        |x: (Option<String>, String, String, String)| raw_rel_view(x),
    ) =~= before.map_values(|x: (Option<String>, String, String, String)| raw_rel_view(x)).push(iv));
}

/// One scan step on top-level element `c`.
fn scan_step_exec(nodes: &Vec<XmlNode>, acc: &mut ScanResult, Ghost(st): Ghost<ScanState>, c: usize)
    requires
        c < nodes@.len(),
        scan_matches(*old(acc), st),
    ensures
        scan_matches(*final(acc), scan_step(nodes_view(nodes@), st, c as int)),
{
    let ghost nv = nodes_view(nodes@);
    assert(nv[c as int] == node_view(nodes@[c as int]));
    let node = &nodes[c];
    if str_eq(node.name.as_str(), "Rel") {
        rel_step_exec(nodes, acc, Ghost(st), c);
        return;
    }
    assert(nv[c as int].3 != "Rel"@);
    let o = match child_named_exec(nodes, c, "IObject") {
        Some(o) => o,
        None => {
            assert(scan_step(nv, st, c as int) == st);
            return;
        },
    };
    assert(nv[o as int] == node_view(nodes@[o as int]));
    let uid = match attr_exec(&nodes[o], "UID") {
        Some(u) => u,
        None => {
            return;
        },
    };
    let name = attr_exec(&nodes[o], "Name");
    if str_eq(node.name.as_str(), "PIDDrawing") {
        if name.is_some() {
            acc.drawing_no = clone_opt(&name);
        }
        let doc = child_named_exec(nodes, c, "IDocument");
        let title = attr_of_child(nodes, doc, "DocTitle");
        if title.is_some() {
            acc.title = title;
        }
    }
    let drawing_item = match child_named_exec(nodes, c, "IDrawingItem") {
        Some(_) => Some(String::from_str("IDrawingItem")),
        None => None,
    };
    let extra = object_extra(nodes, c, o);
    let ghost obj_v = (
        uid@,
        node.name@,
        child_named(nv, c as int, "IDrawingItem"@) is Some,
        attr_of(nv, o as int, "Name"@),
        extra_rows(nv, c as int, o as int),
    );
    let object = PublishObject {
        drawing_id: uid,
        item_type: node.name.clone(),
        drawing_item_type: drawing_item,
        model_id: name,
        extra,
    };
    assert(object_matches(object, obj_v));
    let ghost before = acc.objects@;
    acc.objects.push(object);
    assert(forall|i: int| 0 <= i < before.len() ==> acc.objects@[i] == before[i]);
}

/// The scan of the top-level elements `kids`, from `init`.
fn scan_exec(nodes: &Vec<XmlNode>, kids: &Vec<usize>, init: ScanResult, Ghost(st0): Ghost<ScanState>) -> (r:
    ScanResult)
    requires
        forall|j: int| 0 <= j < kids@.len() ==> kids@[j] < nodes@.len(),
        scan_matches(init, st0),
    ensures
        scan_matches(r, scan(nodes_view(nodes@), st0, kids@.map_values(|k: usize| k as int))),
{
    let ghost nv = nodes_view(nodes@);
    let ghost kv = kids@.map_values(|k: usize| k as int);
    let mut acc = init;
    let mut j: usize = 0;
    assert(kv.take(0) =~= Seq::<int>::empty());
    while j < kids.len()
        invariant
            nv == nodes_view(nodes@),
            kv == kids@.map_values(|k: usize| k as int),
            forall|t: int| 0 <= t < kids@.len() ==> kids@[t] < nodes@.len(),
            j <= kids@.len(),
            scan_matches(acc, scan(nv, st0, kv.take(j as int))),
        decreases kids.len() - j,
    {
        let k = kids[j];
        scan_step_exec(nodes, &mut acc, Ghost(scan(nv, st0, kv.take(j as int))), k);
        assert(kv.take(j + 1).drop_last() =~= kv.take(j as int));
        assert(kv.take(j + 1).last() == k as int);
        j += 1;
    }
    assert(kv.take(kids@.len() as int) =~= kv);
    acc
}

/// A relationship read from Data.xml: model id, guid, source and target.
pub type RelView = (Seq<char>, Seq<char>, Seq<char>, Seq<char>);

/// Some object has drawing id `id`.
pub open spec fn has_object(objs: Seq<ObjView>, id: Seq<char>) -> bool {
    exists|i: int| 0 <= i < objs.len() && objs[i].0 == id
}

/// The relationship's own UID, or the stable identifier of
/// `<def>:<uid1>:<uid2>` when it has none.
pub open spec fn rel_guid(r: RawRelView) -> Seq<char> {
    match r.0 {
        Some(u) => u,
        None => crate::pid_publish::stable_uid_spec(r.3 + ":"@ + r.1 + ":"@ + r.2),
    }
}

pub open spec fn rel_view_of(r: RawRelView) -> RelView {
    ("Relationship."@ + r.3 + "."@ + rel_guid(r), rel_guid(r), r.1, r.2)
}

/// The relationship kept for `r`: only when both endpoints are objects.
pub open spec fn kept_rel(objs: Seq<ObjView>, r: RawRelView) -> Option<RelView> {
    if has_object(objs, r.1) && has_object(objs, r.2) {
        Some(rel_view_of(r))
    } else {
        None
    }
}

pub open spec fn relationships_of(objs: Seq<ObjView>, raw: Seq<RawRelView>) -> Seq<RelView> {
    raw.filter_map(|r: RawRelView| kept_rel(objs, r))
}

/// A relationship read from Data.xml.
#[derive(Debug, Clone, PartialEq, Eq)]
pub struct PublishRelationship {
    pub model_id: String,
    pub guid: String,
    pub source_drawing_id: Option<String>,
    pub target_drawing_id: Option<String>,
}

pub open spec fn rel_matches(p: PublishRelationship, v: RelView) -> bool {
    &&& p.model_id@ == v.0
    &&& p.guid@ == v.1
    &&& opt_str(p.source_drawing_id) == Some(v.2)
    &&& opt_str(p.target_drawing_id) == Some(v.3)
}

/// Is some object's drawing id `id`?
fn object_exists(objects: &Vec<PublishObject>, Ghost(objs): Ghost<Seq<ObjView>>, id: &String) -> (b: bool)
    requires
        objects@.len() == objs.len(),
        forall|i: int| 0 <= i < objs.len() ==> object_matches(#[trigger] objects@[i], objs[i]),
    ensures
        b == has_object(objs, id@),
{
    let mut i: usize = 0;
    while i < objects.len()
        invariant
            objects@.len() == objs.len(),
            forall|t: int| 0 <= t < objs.len() ==> object_matches(#[trigger] objects@[t], objs[t]),
            i <= objects@.len(),
            forall|t: int| 0 <= t < i ==> objs[t].0 != id@,
        decreases objects.len() - i,
    {
        assert(object_matches(objects@[i as int], objs[i as int]));
        if str_eq(objects[i].drawing_id.as_str(), id.as_str()) {
            return true;
        }
        i += 1;
    }
    false
}

/// The relationships whose two endpoints are both objects, with their
/// model ids and guids.
fn relationships_exec(
    objects: &Vec<PublishObject>,
    Ghost(objs): Ghost<Seq<ObjView>>,
    raw: &Vec<(Option<String>, String, String, String)>,
) -> (r: Vec<PublishRelationship>)
    requires
        objects@.len() == objs.len(),
        forall|i: int| 0 <= i < objs.len() ==> object_matches(#[trigger] objects@[i], objs[i]),
    ensures
        ({
            let want = relationships_of(
                objs,
                raw@.map_values(|x: (Option<String>, String, String, String)| raw_rel_view(x)),
            );
            &&& r@.len() == want.len()
            &&& forall|i: int| 0 <= i < want.len() ==> rel_matches(#[trigger] r@[i], want[i])
        }),
{
    let ghost rv = raw@.map_values(|x: (Option<String>, String, String, String)| raw_rel_view(x));
    let ghost f = |x: RawRelView| kept_rel(objs, x);
    let mut out: Vec<PublishRelationship> = Vec::new();
    let mut i: usize = 0;
    assert(rv.take(0).filter_map(f) =~= Seq::<RelView>::empty());
    while i < raw.len()
        invariant
            objects@.len() == objs.len(),
            forall|t: int| 0 <= t < objs.len() ==> object_matches(#[trigger] objects@[t], objs[t]),
            rv == raw@.map_values(|x: (Option<String>, String, String, String)| raw_rel_view(x)),
            f == (|x: RawRelView| kept_rel(objs, x)),
            i <= raw@.len(),
            out@.len() == rv.take(i as int).filter_map(f).len(),
            forall|t: int|
                0 <= t < out@.len() ==> rel_matches(#[trigger] out@[t], rv.take(i as int).filter_map(f)[t]),
        decreases raw.len() - i,
    {
        let (uid, u1, u2, def) = &raw[i];
        assert(rv[i as int] == raw_rel_view(raw@[i as int]));
        assert(rv.take(i + 1).drop_last() =~= rv.take(i as int));
        assert(rv.take(i + 1).last() == rv[i as int]);
        let keep = object_exists(objects, Ghost(objs), u1) && object_exists(objects, Ghost(objs), u2);
        if keep {
            let guid = match uid {
                Some(u) => u.clone(),
                None => {
                    let mut seed = def.clone();
                    push_str(&mut seed, ":");
                    push_str(&mut seed, u1.as_str());
                    push_str(&mut seed, ":");
                    push_str(&mut seed, u2.as_str());
                    crate::pid_publish::stable_uid(seed.as_str())
                },
            };
            let mut model_id = String::from_str("Relationship.");
            push_str(&mut model_id, def.as_str());
            push_str(&mut model_id, ".");
            push_str(&mut model_id, guid.as_str());
            let rel = PublishRelationship {
                model_id,
                guid,
                source_drawing_id: Some(u1.clone()),
                target_drawing_id: Some(u2.clone()),
            };
            assert(rel_matches(rel, rel_view_of(rv[i as int])));
            let ghost before = out@;
            out.push(rel);
            assert(rv.take(i + 1).filter_map(f) == rv.take(i as int).filter_map(f) + seq![
                rel_view_of(rv[i as int]),
            ]);
            assert forall|t: int| 0 <= t < out@.len() implies rel_matches(
                #[trigger] out@[t],
                rv.take(i + 1).filter_map(f)[t],
            ) by {
                if t < before.len() {
                    assert(out@[t] == before[t]);
                }
            }
        } else {
            assert(rv.take(i + 1).filter_map(f) == rv.take(i as int).filter_map(f));
        }
        i += 1;
    }
    assert(rv.take(raw@.len() as int) =~= rv);
    out
}

proof fn lemma_children_nonempty(nodes: Seq<XmlNodeView>, id: nat, n: nat, i: int)
    requires
        0 <= i < n <= nodes.len(),
        nodes[i].2 == 1,
        nodes[i].1 == Some(id),
    ensures
        element_children_upto(nodes, id, n).len() > 0,
    decreases n,
{
    if i < n - 1 {
        lemma_children_nonempty(nodes, id, (n - 1) as nat, i);
    }
}

/// The document's root element: the first element child of the root node.
pub open spec fn root_index(nodes: Seq<XmlNodeView>) -> int {
    element_children(nodes, 0)[0]
}

/// The drawing's objects and relationships as Data.xml lists them.
pub open spec fn data_scan(nodes: Seq<XmlNodeView>) -> ScanState {
    let r = root_index(nodes);
    scan(
        nodes,
        (attr_of(nodes, r, "DocName"@), None, Seq::empty(), Seq::empty()),
        element_children(nodes, r),
    )
}

/// The project number: a non-blank `Project` attribute of the root
/// element, else its `Plant` attribute.
pub open spec fn project_number_of(nodes: Seq<XmlNodeView>, r: int) -> Option<Seq<char>> {
    match attr_of(nodes, r, "Project"@) {
        Some(p) => if trim(p).len() > 0 {
            Some(p)
        } else {
            attr_of(nodes, r, "Plant"@)
        },
        None => attr_of(nodes, r, "Plant"@),
    }
}

/// Drawing id of each object mapped to the position of the last object
/// with that id.
pub open spec fn drawing_id_index(objs: Seq<PublishObject>) -> Map<Seq<char>, nat>
    decreases objs.len(),
{
    if objs.len() == 0 {
        Map::empty()
    } else {
        drawing_id_index(objs.drop_last()).insert(objs.last().drawing_id@, (objs.len() - 1) as nat)
    }
}

/// The index holds exactly the objects' drawing ids, and maps each id to
/// the position of the last object that has it.
pub proof fn lemma_drawing_id_index(objs: Seq<PublishObject>)
    ensures
        forall|k: Seq<char>|
            #[trigger] drawing_id_index(objs).contains_key(k) <==> exists|i: int|
                0 <= i < objs.len() && objs[i].drawing_id@ == k,
        forall|i: int|
            0 <= i < objs.len() && (forall|j: int| i < j < objs.len() ==> objs[j].drawing_id@ != objs[i].drawing_id@)
                ==> drawing_id_index(objs)[#[trigger] objs[i].drawing_id@] == i,
        forall|k: Seq<char>|
            #[trigger] drawing_id_index(objs).contains_key(k) ==> drawing_id_index(objs)[k] < objs.len()
                && objs[drawing_id_index(objs)[k] as int].drawing_id@ == k,
    decreases objs.len(),
{
    if objs.len() > 0 {
        let p = objs.drop_last();
        lemma_drawing_id_index(p);
        assert forall|i: int| 0 <= i < p.len() implies p[i] == objs[i] by {}
        assert forall|k: Seq<char>| #[trigger] drawing_id_index(objs).contains_key(k) implies drawing_id_index(
            objs,
        )[k] < objs.len() && objs[drawing_id_index(objs)[k] as int].drawing_id@ == k by {
            if k != objs.last().drawing_id@ {
                assert(drawing_id_index(p).contains_key(k));
                assert(p[drawing_id_index(p)[k] as int] == objs[drawing_id_index(p)[k] as int]);
            }
        }
        assert forall|k: Seq<char>| #[trigger] drawing_id_index(objs).contains_key(k) <==> exists|i: int|
            0 <= i < objs.len() && objs[i].drawing_id@ == k by {
            if exists|i: int| 0 <= i < objs.len() && objs[i].drawing_id@ == k {
                let i = choose|i: int| 0 <= i < objs.len() && objs[i].drawing_id@ == k;
                if i < p.len() {
                    assert(p[i].drawing_id@ == k);
                }
            }
            if drawing_id_index(p).contains_key(k) {
                let i = choose|i: int| 0 <= i < p.len() && p[i].drawing_id@ == k;
                assert(objs[i].drawing_id@ == k);
            }
        }
    }
}

/// Item type of the objects mapped to how many objects have it.
pub open spec fn type_counts(objs: Seq<PublishObject>) -> Map<Seq<char>, nat>
    decreases objs.len(),
{
    if objs.len() == 0 {
        Map::empty()
    } else {
        let m = type_counts(objs.drop_last());
        let t = objs.last().item_type@;
        m.insert(t, if m.contains_key(t) { m[t] + 1 } else { 1 })
    }
}

/// Sum of the numbers of `(key, number)` rows.
pub open spec fn count_sum(rows: Seq<(Seq<char>, nat)>) -> nat
    decreases rows.len(),
{
    if rows.len() == 0 {
        0
    } else {
        count_sum(rows.drop_last()) + rows.last().1
    }
}

proof fn lemma_count_sum_update(rows: Seq<(Seq<char>, nat)>, j: int, v: nat)
    requires
        0 <= j < rows.len(),
    ensures
        count_sum(rows.update(j, (rows[j].0, v))) + rows[j].1 == count_sum(rows) + v,
    decreases rows.len(),
{
    let u = rows.update(j, (rows[j].0, v));
    if j == rows.len() - 1 {
        assert(u.drop_last() =~= rows.drop_last());
    } else {
        lemma_count_sum_update(rows.drop_last(), j, v);
        assert(u.drop_last() =~= rows.drop_last().update(j, (rows[j].0, v)));
    }
}

proof fn lemma_count_sum_remove(rows: Seq<(Seq<char>, nat)>, j: int)
    requires
        0 <= j < rows.len(),
    ensures
        count_sum(rows.remove(j)) + rows[j].1 == count_sum(rows),
    decreases rows.len(),
{
    if j == rows.len() - 1 {
        assert(rows.remove(j) =~= rows.drop_last());
    } else {
        lemma_count_sum_remove(rows.drop_last(), j);
        assert(rows.remove(j).drop_last() =~= rows.drop_last().remove(j));
        assert(rows.remove(j).last() == rows.last());
    }
}

proof fn lemma_type_counts_rows_total(objs: Seq<PublishObject>, rows: Seq<(Seq<char>, nat)>)
    requires
        keys_distinct(rows),
        map_of(rows) == type_counts(objs),
    ensures
        count_sum(rows) == objs.len(),
    decreases objs.len(),
{
    lemma_map_of(rows);
    if objs.len() == 0 {
        assert(map_of(rows).dom() =~= Set::<Seq<char>>::empty());
    } else {
        let p = objs.drop_last();
        let mp = type_counts(p);
        let t = objs.last().item_type@;
        assert(map_of(rows).dom().contains(t));
        let j = choose|j: int| 0 <= j < rows.len() && rows[j].0 == t;
        assert(map_of(rows)[rows[j].0] == rows[j].1);
        if mp.contains_key(t) {
            let v = (rows[j].1 - 1) as nat;
            lemma_rows_update(rows, j, v);
            assert(map_of(rows.update(j, (rows[j].0, v))) =~= mp);
            lemma_count_sum_update(rows, j, v);
            lemma_type_counts_rows_total(p, rows.update(j, (rows[j].0, v)));
        } else {
            lemma_map_of_remove_at(rows, j);
            assert(map_of(rows.remove(j)) =~= mp);
            lemma_count_sum_remove(rows, j);
            lemma_type_counts_rows_total(p, rows.remove(j));
        }
    }
}

/// Objects with pairwise distinct item types are each counted once, and
/// only their types are counted.
pub proof fn lemma_type_counts_distinct(objs: Seq<PublishObject>)
    requires
        forall|i: int, j: int| 0 <= i < j < objs.len() ==> objs[i].item_type@ != objs[j].item_type@,
    ensures
        forall|i: int|
            0 <= i < objs.len() ==> type_counts(objs).contains_key(#[trigger] objs[i].item_type@)
                && type_counts(objs)[objs[i].item_type@] == 1,
        forall|k: Seq<char>|
            #[trigger] type_counts(objs).contains_key(k) ==> exists|i: int| 0 <= i < objs.len() && objs[i].item_type@ == k,
    decreases objs.len(),
{
    if objs.len() > 0 {
        let p = objs.drop_last();
        assert forall|i: int| 0 <= i < p.len() implies p[i] == objs[i] by {}
        lemma_type_counts_distinct(p);
        let t = objs.last().item_type@;
        assert(!type_counts(p).contains_key(t)) by {
            if type_counts(p).contains_key(t) {
                let i = choose|i: int| 0 <= i < p.len() && p[i].item_type@ == t;
                assert(objs[i].item_type@ == objs[objs.len() - 1].item_type@);
            }
        }
        assert forall|k: Seq<char>| #[trigger] type_counts(objs).contains_key(k) implies exists|i: int|
            0 <= i < objs.len() && objs[i].item_type@ == k by {
            if k != t {
                let i = choose|i: int| 0 <= i < p.len() && p[i].item_type@ == k;
                assert(objs[i].item_type@ == k);
            } else {
                assert(objs[objs.len() - 1].item_type@ == k);
            }
        }
        assert forall|i: int| 0 <= i < objs.len() implies type_counts(objs).contains_key(
            #[trigger] objs[i].item_type@,
        ) && type_counts(objs)[objs[i].item_type@] == 1 by {
            if i < p.len() {
                assert(p[i].item_type@ == objs[i].item_type@);
                assert(objs[i].item_type@ != t);
            }
        }
    }
}

/// The per-type counts of objects add up to the number of objects.
pub proof fn lemma_type_counts_sum(objs: Seq<PublishObject>, counts: Vec<(String, usize)>)
    requires
        lists_counts(counts, type_counts(objs)),
    ensures
        count_sum(count_rows_view(counts@)) == objs.len(),
{
    lemma_type_counts_rows_total(objs, count_rows_view(counts@));
}

/// `(key, number)` rows as plain values.
pub open spec fn count_rows_view(v: Seq<(String, usize)>) -> Seq<(Seq<char>, nat)> {
    v.map_values(|e: (String, usize)| (e.0@, e.1 as nat))
}

/// `rows` lists the map `m`, each key once.
pub open spec fn lists_counts(rows: Vec<(String, usize)>, m: Map<Seq<char>, nat>) -> bool {
    keys_distinct(count_rows_view(rows@)) && map_of(count_rows_view(rows@)) == m
}

/// The index and counts of a graph's objects: `by_drawing_id` maps each
/// drawing id to its object's position (the last one for repeated ids),
/// `counts_by_type` each item type to its number of objects.
pub open spec fn graph_indexes(
    objects: Seq<PublishObject>,
    by_drawing_id: Vec<(String, usize)>,
    counts_by_type: Vec<(String, usize)>,
) -> bool {
    lists_counts(by_drawing_id, drawing_id_index(objects)) && lists_counts(counts_by_type, type_counts(objects))
}

/// The index and counts of a list of objects agree with it: each indexed
/// drawing id sends to an object with that id, and the per-type counts
/// add up to the number of objects.
pub proof fn lemma_graph_indexes_consistent(
    objects: Seq<PublishObject>,
    by_drawing_id: Vec<(String, usize)>,
    counts_by_type: Vec<(String, usize)>,
)
    requires
        graph_indexes(objects, by_drawing_id, counts_by_type),
    ensures
        forall|j: int|
            0 <= j < by_drawing_id@.len() ==> (#[trigger] by_drawing_id@[j]).1 < objects.len()
                && objects[by_drawing_id@[j].1 as int].drawing_id@ == by_drawing_id@[j].0@,
        count_sum(count_rows_view(counts_by_type@)) == objects.len(),
{
    let rows = count_rows_view(by_drawing_id@);
    lemma_map_of(rows);
    lemma_drawing_id_index(objects);
    assert forall|j: int| 0 <= j < by_drawing_id@.len() implies (#[trigger] by_drawing_id@[j]).1 < objects.len()
        && objects[by_drawing_id@[j].1 as int].drawing_id@ == by_drawing_id@[j].0@ by {
        assert(rows[j] == (by_drawing_id@[j].0@, by_drawing_id@[j].1 as nat));
        assert(map_of(rows)[rows[j].0] == rows[j].1);
        assert(drawing_id_index(objects).contains_key(rows[j].0));
    }
    lemma_type_counts_sum(objects, counts_by_type);
}

/// Position of `key` in `rows`.
fn find_row(rows: &Vec<(String, usize)>, key: &str) -> (r: Option<usize>)
    ensures
        match r {
            Some(i) => i < rows@.len() && rows@[i as int].0@ == key@,
            None => !has_key(count_rows_view(rows@), key@),
        },
{
    let mut i: usize = 0;
    while i < rows.len()
        invariant
            i <= rows@.len(),
            forall|j: int| 0 <= j < i ==> (#[trigger] rows@[j]).0@ != key@,
        decreases rows.len() - i,
    {
        if str_eq(rows[i].0.as_str(), key) {
            return Some(i);
        }
        i += 1;
    }
    proof {
        if has_key(count_rows_view(rows@), key@) {
            let j = choose|j: int| 0 <= j < rows@.len() && count_rows_view(rows@)[j].0 == key@;
            assert(rows@[j].0@ == key@);
        }
    }
    None
}

/// Set `key` to `value` in the listing `rows`.
fn set_row(rows: &mut Vec<(String, usize)>, key: &String, value: usize)
    requires
        keys_distinct(count_rows_view(old(rows)@)),
    ensures
        keys_distinct(count_rows_view(final(rows)@)),
        map_of(count_rows_view(final(rows)@)) == map_of(count_rows_view(old(rows)@)).insert(key@, value as nat),
{
    let ghost before = count_rows_view(rows@);
    match find_row(rows, key.as_str()) {
        Some(i) => {
            rows.set(i, (key.clone(), value));
            proof {
                assert(count_rows_view(rows@) =~= before.update(i as int, (before[i as int].0, value as nat)));
                lemma_rows_update(before, i as int, value as nat);
            }
        },
        None => {
            rows.push((key.clone(), value));
            proof {
                let nr = count_rows_view(rows@);
                assert(nr =~= before.insert(before.len() as int, (key@, value as nat)));
                lemma_insert_has_key(before, before.len() as int, (key@, value as nat));
                assert(keys_distinct(nr)) by {
                    assert forall|a: int, b: int| 0 <= a < b < nr.len() implies nr[a].0 != nr[b].0 by {
                        if b == nr.len() - 1 {
                            assert(nr[a] == before[a]);
                        } else {
                            assert(nr[a] == before[a] && nr[b] == before[b]);
                        }
                    }
                }
                assert(nr.drop_last() =~= before);
            }
        },
    }
}

/// The by-drawing-id index and per-type counts of `objects`.
pub fn index_objects(objects: &Vec<PublishObject>) -> (r: (Vec<(String, usize)>, Vec<(String, usize)>))
    ensures
        graph_indexes(objects@, r.0, r.1),
{
    let mut by_id: Vec<(String, usize)> = Vec::new();
    let mut counts: Vec<(String, usize)> = Vec::new();
    let mut i: usize = 0;
    assert(count_rows_view(by_id@) =~= Seq::<(Seq<char>, nat)>::empty());
    assert(count_rows_view(counts@) =~= Seq::<(Seq<char>, nat)>::empty());
    assert(objects@.take(0) =~= Seq::<PublishObject>::empty());
    while i < objects.len()
        invariant
            i <= objects@.len(),
            lists_counts(by_id, drawing_id_index(objects@.take(i as int))),
            lists_counts(counts, type_counts(objects@.take(i as int))),
            forall|t: Seq<char>| #[trigger] type_counts(objects@.take(i as int)).contains_key(t)
                ==> type_counts(objects@.take(i as int))[t] <= i,
        decreases objects.len() - i,
    {
        let ghost pre = objects@.take(i as int);
        assert(objects@.take(i + 1).drop_last() =~= pre);
        assert(objects@.take(i + 1).last() == objects@[i as int]);
        set_row(&mut by_id, &objects[i].drawing_id, i);
        let t = &objects[i].item_type;
        let n: usize = match find_row(&counts, t.as_str()) {
            Some(j) => {
                proof {
                    lemma_map_of(count_rows_view(counts@));
                    let cv = count_rows_view(counts@);
                    assert(cv[j as int] == (counts@[j as int].0@, counts@[j as int].1 as nat));
                    assert(map_of(cv)[cv[j as int].0] == cv[j as int].1);
                    assert(has_key(cv, t@));
                    assert(type_counts(pre).contains_key(t@));
                    assert(type_counts(pre)[t@] <= i);
                }
                counts[j].1 + 1
            },
            None => {
                proof {
                    lemma_map_of(count_rows_view(counts@));
                }
                1
            },
        };
        set_row(&mut counts, t, n);
        i += 1;
        proof {
            let m = type_counts(objects@.take(i as int));
            assert forall|u: Seq<char>| #[trigger] m.contains_key(u) implies m[u] <= i by {
                if u != t@ {
                    assert(type_counts(pre).contains_key(u));
                }
            }
        }
    }
    assert(objects@.take(objects@.len() as int) =~= objects@);
    (by_id, counts)
}


/// What Data.xml describes.
#[derive(Debug)]
pub struct ParsedPublishData {
    pub drawing_no: Option<String>,
    pub project_number: Option<String>,
    pub objects: Vec<PublishObject>,
    pub relationships: Vec<PublishRelationship>,
    pub title: Option<String>,
    pub doc_uid: Option<String>,
    pub raw_xml: String,
    /// Drawing id to the position of its object (the last one when repeated).
    pub by_drawing_id: Vec<(String, usize)>,
    /// Item type to its number of objects.
    pub counts_by_type: Vec<(String, usize)>,
}

/// `d` is what the nodes `nodes` of the text `raw` describe.
pub open spec fn data_matches(d: ParsedPublishData, nodes: Seq<XmlNodeView>, raw: Seq<char>) -> bool {
    let st = data_scan(nodes);
    let r = root_index(nodes);
    let rels = relationships_of(st.2, st.3);
    &&& opt_str(d.drawing_no) == st.0
    &&& opt_str(d.title) == st.1
    &&& d.objects@.len() == st.2.len()
    &&& forall|i: int| 0 <= i < st.2.len() ==> object_matches(#[trigger] d.objects@[i], st.2[i])
    &&& d.relationships@.len() == rels.len()
    &&& forall|i: int| 0 <= i < rels.len() ==> rel_matches(#[trigger] d.relationships@[i], rels[i])
    &&& opt_str(d.project_number) == project_number_of(nodes, r)
    &&& opt_str(d.doc_uid) == attr_of(nodes, r, "DocUID"@)
    &&& d.raw_xml@ == raw
    &&& graph_indexes(d.objects@, d.by_drawing_id, d.counts_by_type)
}

pub open spec fn data_parse_error(path: Seq<char>, e: Seq<char>) -> Seq<char> {
    "failed to parse publish data XML "@ + path + ": "@ + e
}

fn root_element_exec(nodes: &Vec<XmlNode>) -> (r: usize)
    requires
        nodes@.len() > 0,
        nodes@[0].kind == 0,
        exists|i: int| 0 <= i < nodes@.len() && nodes@[i].kind == 1 && nodes@[i].parent == Some(nodes@[0].id),
    ensures
        r as int == root_index(nodes_view(nodes@)),
        r < nodes@.len(),
{
    let ghost nv = nodes_view(nodes@);
    proof {
        let i = choose|i: int| 0 <= i < nodes@.len() && nodes@[i].kind == 1 && nodes@[i].parent == Some(nodes@[0].id);
        assert(nv[i] == node_view(nodes@[i]));
        assert(nv[0] == node_view(nodes@[0]));
        lemma_children_nonempty(nv, nv[0].0, nv.len(), i);
        lemma_children_in_range(nv, nv[0].0, nv.len());
    }
    let kids = element_children_exec(nodes, 0);
    assert(kids@.map_values(|k: usize| k as int)[0] == kids@[0] as int);
    kids[0]
}

/// Read the text of a Data.xml sidecar at `path` (named in the error):
/// the drawing number and title, every element with an `IObject` UID as
/// an object, and the relationships between known objects.
pub fn parse_publish_data_xml(path: &str, raw_xml: String) -> (r: Result<ParsedPublishData, String>)
    ensures
        match xml_parse_result(raw_xml@) {
            Ok(nodes) => r matches Ok(d) && data_matches(d, nodes, raw_xml@),
            Err(e) => r matches Err(m) && m@ == data_parse_error(path@, e),
        },
{
    let nodes = match parse_xml_nodes(raw_xml.as_str()) {
        Ok(n) => n,
        Err(e) => {
            let mut m = String::from_str("failed to parse publish data XML ");
            push_str(&mut m, path);
            push_str(&mut m, ": ");
            push_str(&mut m, e.as_str());
            return Err(m);
        },
    };
    let ghost nv = nodes_view(nodes@);
    let root = root_element_exec(&nodes);
    assert(nv[root as int] == node_view(nodes@[root as int]));
    let doc_name = attr_exec(&nodes[root], "DocName");
    let doc_uid = attr_exec(&nodes[root], "DocUID");
    let init = ScanResult {
        drawing_no: doc_name,
        title: None,
        objects: Vec::new(),
        raw_relationships: Vec::new(),
    };
    let ghost st0: ScanState = (attr_of(nv, root as int, "DocName"@), None, Seq::empty(), Seq::empty());
    assert(init.raw_relationships@.map_values(|x: (Option<String>, String, String, String)| raw_rel_view(x)) =~= st0.3);
    let kids = element_children_exec(&nodes, root);
    let scanned = scan_exec(&nodes, &kids, init, Ghost(st0));
    let ghost st = data_scan(nv);
    let relationships = relationships_exec(&scanned.objects, Ghost(st.2), &scanned.raw_relationships);
    let project_number = match attr_exec(&nodes[root], "Project") {
        Some(p) => {
            if crate::text::chars_of(trimmed(p.as_str()).as_str()).len() > 0 {
                Some(p)
            } else {
                attr_exec(&nodes[root], "Plant")
            }
        },
        None => attr_exec(&nodes[root], "Plant"),
    };
    let (by_drawing_id, counts_by_type) = index_objects(&scanned.objects);
    Ok(ParsedPublishData {
        by_drawing_id,
        counts_by_type,
        drawing_no: scanned.drawing_no,
        project_number,
        objects: scanned.objects,
        relationships,
        title: scanned.title,
        doc_uid,
        raw_xml,
    })
}

/// Attribute `attr` of the `inner` child of the `outer` child of node `r`.
pub open spec fn nested_attr(nodes: Seq<XmlNodeView>, r: int, outer: Seq<char>, inner: Seq<char>, attr: Seq<char>) -> Option<Seq<char>> {
    match child_named(nodes, r, outer) {
        Some(o) => attr_of_opt(nodes, child_named(nodes, o, inner), attr),
        None => None,
    }
}

fn nested_attr_exec(nodes: &Vec<XmlNode>, r: usize, outer: &str, inner: &str, attr: &str) -> (res: Option<String>)
    requires
        r < nodes@.len(),
    ensures
        opt_str(res) == nested_attr(nodes_view(nodes@), r as int, outer@, inner@, attr@),
{
    match child_named_exec(nodes, r, outer) {
        Some(o) => {
            let i = child_named_exec(nodes, o, inner);
            attr_of_child(nodes, i, attr)
        },
        None => None,
    }
}

/// What Meta.xml records: document version and revision, the file's
/// directory, and the tags written to the General metadata.
#[derive(Debug)]
pub struct ParsedPublishMeta {
    pub file_path: Option<String>,
    pub raw_xml: String,
    /// `DocName`, `DocUID`, `DocVersion` and `DocRevision`, when present.
    pub tags: StringMap,
    pub doc_version: Option<String>,
    pub doc_revision: Option<String>,
}

/// The tag rows of Meta.xml, in insertion order.
pub open spec fn meta_tag_rows(nodes: Seq<XmlNodeView>, r: int) -> Rows {
    opt_row("DocName"@, attr_of(nodes, r, "DocName"@)) + opt_row("DocUID"@, attr_of(nodes, r, "DocUID"@))
        + opt_row("DocVersion"@, nested_attr(nodes, r, "DocumentVersion"@, "IDocumentVersion"@, "DocVersion"@))
        + opt_row("DocRevision"@, nested_attr(nodes, r, "DocumentVersion"@, "IDocumentVersion"@, "DocRevision"@))
}

/// A `(key, value)` row when `v` is present.
pub open spec fn opt_row(key: Seq<char>, v: Option<Seq<char>>) -> Rows {
    match v {
        Some(s) => seq![(key, s)],
        None => Seq::empty(),
    }
}

pub open spec fn meta_matches(m: ParsedPublishMeta, nodes: Seq<XmlNodeView>, raw: Seq<char>) -> bool {
    let r = root_index(nodes);
    &&& opt_str(m.doc_version) == nested_attr(nodes, r, "DocumentVersion"@, "IDocumentVersion"@, "DocVersion"@)
    &&& opt_str(m.doc_revision) == nested_attr(nodes, r, "DocumentVersion"@, "IDocumentVersion"@, "DocRevision"@)
    &&& opt_str(m.file_path) == nested_attr(nodes, r, "File"@, "IFile"@, "FilePath"@)
    &&& m.tags@ == map_of(meta_tag_rows(nodes, r))
    &&& m.raw_xml@ == raw
}

pub open spec fn meta_parse_error(path: Seq<char>, e: Seq<char>) -> Seq<char> {
    "failed to parse publish meta XML "@ + path + ": "@ + e
}

fn insert_opt(m: &mut StringMap, Ghost(rows): Ghost<Rows>, key: &str, value: &Option<String>)
    requires
        old(m)@ == map_of(rows),
    ensures
        final(m)@ == map_of(rows + opt_row(key@, opt_str(*value))),
{
    match value {
        Some(v) => {
            m.insert(String::from_str(key), v.clone());
            proof {
                lemma_map_of_push(rows, key@, v@);
                assert(rows + seq![(key@, v@)] =~= rows.push((key@, v@)));
            }
        },
        None => {
            assert(rows + Seq::<(Seq<char>, Seq<char>)>::empty() =~= rows);
        },
    }
}

/// Read the text of a Meta.xml sidecar at `path` (named in the error).
pub fn parse_publish_meta_xml(path: &str, raw_xml: String) -> (r: Result<ParsedPublishMeta, String>)
    ensures
        match xml_parse_result(raw_xml@) {
            Ok(nodes) => r matches Ok(m) && meta_matches(m, nodes, raw_xml@),
            Err(e) => r matches Err(msg) && msg@ == meta_parse_error(path@, e),
        },
{
    let nodes = match parse_xml_nodes(raw_xml.as_str()) {
        Ok(n) => n,
        Err(e) => {
            let mut m = String::from_str("failed to parse publish meta XML ");
            push_str(&mut m, path);
            push_str(&mut m, ": ");
            push_str(&mut m, e.as_str());
            return Err(m);
        },
    };
    let ghost nv = nodes_view(nodes@);
    let root = root_element_exec(&nodes);
    assert(nv[root as int] == node_view(nodes@[root as int]));
    let doc_version = nested_attr_exec(&nodes, root, "DocumentVersion", "IDocumentVersion", "DocVersion");
    let doc_revision = nested_attr_exec(&nodes, root, "DocumentVersion", "IDocumentVersion", "DocRevision");
    let file_path = nested_attr_exec(&nodes, root, "File", "IFile", "FilePath");
    let doc_name = attr_exec(&nodes[root], "DocName");
    let doc_uid = attr_exec(&nodes[root], "DocUID");
    let mut tags = StringMap::new();
    assert(map_of(Seq::<(Seq<char>, Seq<char>)>::empty()) =~= Map::<Seq<char>, Seq<char>>::empty());
    let ghost r0 = Seq::<(Seq<char>, Seq<char>)>::empty();
    insert_opt(&mut tags, Ghost(r0), "DocName", &doc_name);
    let ghost r1 = r0 + opt_row("DocName"@, opt_str(doc_name));
    insert_opt(&mut tags, Ghost(r1), "DocUID", &doc_uid);
    let ghost r2 = r1 + opt_row("DocUID"@, opt_str(doc_uid));
    insert_opt(&mut tags, Ghost(r2), "DocVersion", &doc_version);
    let ghost r3 = r2 + opt_row("DocVersion"@, opt_str(doc_version));
    insert_opt(&mut tags, Ghost(r3), "DocRevision", &doc_revision);
    assert(r3 + opt_row("DocRevision"@, opt_str(doc_revision)) =~= meta_tag_rows(nv, root as int));
    Ok(ParsedPublishMeta { file_path, raw_xml, tags, doc_version, doc_revision })
}

} // verus!
