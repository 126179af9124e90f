//! Reports over a cached PID package: the owned record types handed to
//! the command layer, resolution of a drawing id given exactly or by
//! prefix, the display projection of graph objects, the health report
//! assembled from sub-reports, metadata stream access and edits, and the
//! short labels used in previews.

use crate::pid_store::{PidPackageData, PidPackageStore, PidRawStream};
use crate::pid_verify::{braced, no_cache_error, no_cache_message, PidVerifyReport};
use crate::string_map::{is_sorted_listing, map_of, seq_lt, StringMap};
use crate::text::{dec_text, join_strings, join_with, push_char, push_decimal, push_str};
use vstd::prelude::*;
use crate::path_order::{path_components, PathComponent};

verus! {

/// Counts describing an opened PID file.
#[derive(Debug, Clone, PartialEq, Eq)]
pub struct PidImportSummary {
    pub title: String,
    pub object_count: usize,
    pub relationship_count: usize,
    pub unresolved_relationship_count: usize,
    pub symbol_count: usize,
    pub cluster_count: usize,
    pub sheet_count: usize,
    pub stream_count: usize,
    pub attribute_class_count: usize,
    pub tagged_text_count: usize,
    pub dynamic_attribute_record_count: usize,
    pub object_graph_available: bool,
}

/// What a preview entity stands for.
#[derive(Debug, Clone, PartialEq, Eq, PartialOrd, Ord)]
pub enum PidNodeKey {
    Overview,
    Object { drawing_id: String },
    Relationship { guid: String },
    Sheet { name: String },
    Stream { name: String },
    Cluster { name: String },
    Symbol { symbol_path: String },
    AttributeClass { class_name: String },
    Root { name: String },
    TaggedStorage { storage_name: String },
    DynamicAttributes,
    ClusterCoverage,
    Unresolved { label: String },
}

/// Outcome of an attribute edit in the Drawing stream.
#[derive(Debug, Clone, PartialEq, Eq)]
pub struct DrawingAttributeEdit {
    pub attr: String,
    pub previous: Option<String>,
    pub next: String,
    pub new_xml_len: usize,
}

/// Outcome of a drawing-number edit: the `SP_DRAWINGNUMBER` projection of
/// a [`DrawingAttributeEdit`].
#[derive(Debug, Clone, PartialEq, Eq)]
pub struct DrawingNumberEdit {
    pub previous: Option<String>,
    pub next: String,
    pub new_xml_len: usize,
}

/// Outcome of an element-text edit in the General stream.
#[derive(Debug, Clone, PartialEq, Eq)]
pub struct GeneralElementEdit {
    pub element: String,
    pub previous: Option<String>,
    pub next: String,
    pub new_xml_len: usize,
}

/// Every readable metadata field of a cached PID, in source order.
#[derive(Debug, Clone, PartialEq, Eq)]
pub struct PidPropsListing {
    pub drawing_attributes: Vec<(String, String)>,
    pub general_elements: Vec<(String, String)>,
}

impl Default for PidPropsListing {
    fn default() -> (r: Self)
        ensures
            r.drawing_attributes@.len() == 0,
            r.general_elements@.len() == 0,
    {
        PidPropsListing { drawing_attributes: Vec::new(), general_elements: Vec::new() }
    }
}

/// One record of the save log.
#[derive(Debug, Clone, PartialEq, Eq)]
pub struct PidVersionRecord {
    pub op_type: u8,
    pub op_label: String,
    pub version: u32,
}

/// The structured save log of a PID file.
#[derive(Debug, Clone, PartialEq, Eq)]
pub struct PidVersionLog {
    pub magic_u32_le: u32,
    pub reserved_all_zero: bool,
    pub records: Vec<PidVersionRecord>,
}

/// Display projection of a graph object.
#[derive(Debug, Clone, PartialEq, Eq)]
pub struct PidNeighborInfo {
    pub drawing_id: String,
    pub item_type: String,
    pub model_id: Option<String>,
    /// `Tag`, else `ItemTag`, else the value of the smallest extra key.
    pub tag_label: Option<String>,
}

/// Which dimension of an object a search filters on.
#[derive(Debug, Clone, PartialEq, Eq)]
pub enum PidFindCriterion {
    ItemType(String),
    ExtraEquals { key: String, value: String },
}

/// Object and relationship counts of an object graph and how many
/// relationships have both, one or none of their endpoints resolved.
#[derive(Debug, Clone, Copy, PartialEq, Eq)]
pub struct PidGraphStats {
    pub object_count: usize,
    pub relationship_count: usize,
    pub fully_resolved: usize,
    pub partially_resolved: usize,
    pub unresolved: usize,
}

/// A top-level stream the parser does not recognise.
#[derive(Debug, Clone, PartialEq, Eq)]
pub struct UnidentifiedStreamInfo {
    pub path: String,
    pub size: u64,
    pub magic_u32_le: Option<u32>,
    pub magic_tag: Option<String>,
}

/// Aggregate health check of a cached package; each sub-report is absent
/// when it could not be produced.
#[derive(Debug)]
pub struct PidHealthReport {
    pub source_path: String,
    pub stream_count: usize,
    pub graph_stats: Option<PidGraphStats>,
    pub drawing_attributes: Vec<(String, String)>,
    pub general_elements: Vec<(String, String)>,
    pub verify: Option<PidVerifyReport>,
    pub unidentified: Vec<UnidentifiedStreamInfo>,
    pub version_log: Option<PidVersionLog>,
    pub root_clsid: Option<String>,
    pub non_root_clsid_count: usize,
}

pub open spec fn no_match_message(input: Seq<char>) -> Seq<char> {
    "no drawing_id matches '"@ + input + "' (exact or prefix)"@
}

/// The first (at most) three of `matches`.
pub open spec fn preview_of(matches: Seq<Seq<char>>) -> Seq<Seq<char>> {
    if matches.len() <= 3 {
        matches
    } else {
        matches.take(3)
    }
}

pub open spec fn ambiguous_message(input: Seq<char>, matches: Seq<Seq<char>>) -> Seq<char> {
    let n = matches.len();
    "prefix '"@ + input + "' is ambiguous (matches "@ + dec_text(n) + "): "@ + join_with(
        preview_of(matches),
        ", "@,
    ) + if n > 3 {
        ", ... ("@ + dec_text((n - 3) as nat) + " more)"@
    } else {
        Seq::empty()
    }
}

/// What resolving `input` gives when it is (`exact`) or is not a known
/// drawing id and `matches` are the ids it prefixes.
pub open spec fn resolve_spec(input: Seq<char>, exact: bool, matches: Seq<Seq<char>>) -> Result<
    Seq<char>,
    Seq<char>,
> {
    if exact {
        Ok(input)
    } else if matches.len() == 0 {
        Err(no_match_message(input))
    } else if matches.len() == 1 {
        Ok(matches[0])
    } else {
        Err(ambiguous_message(input, matches))
    }
}

pub open spec fn result_view(r: Result<String, String>) -> Result<Seq<char>, Seq<char>> {
    match r {
        Ok(s) => Ok(s@),
        Err(e) => Err(e@),
    }
}

/// Resolve a drawing id given exactly or by a unique prefix: `exact` says
/// whether `input` is itself an id, `matches` lists the ids it prefixes.
pub fn resolve_drawing_id(input: &str, exact: bool, matches: &Vec<String>) -> (r: Result<
    String,
    String,
>)
    ensures
        result_view(r) == resolve_spec(
            input@,
            exact,
            matches@.map_values(|s: String| s@),
        ),
{
    let ghost mv = matches@.map_values(|s: String| s@);
    if exact {
        return Ok(String::from_str(input));
    }
    let n = matches.len();
    if n == 0 {
        let mut e = String::from_str("no drawing_id matches '");
        push_str(&mut e, input);
        push_str(&mut e, "' (exact or prefix)");
        return Err(e);
    }
    if n == 1 {
        assert(mv[0] == matches@[0]@);
        return Ok(matches[0].clone());
    }
    let mut preview: Vec<String> = Vec::new();
    let mut i: usize = 0;
    while i < n && i < 3
        invariant
            n == matches@.len(),
            mv == matches@.map_values(|s: String| s@),
            i <= n,
            i <= 3,
            preview@.map_values(|s: String| s@) == mv.take(i as int),
        decreases 3 - i,
    {
        let item = matches[i].clone();
        assert(item@ == mv[i as int]);
        let ghost before = preview@;
        preview.push(item);
        assert(preview@ == before.push(item));
        assert(preview@.map_values(|s: String| s@) =~= before.map_values(|s: String| s@).push(item@));
        assert(preview@.map_values(|s: String| s@) =~= mv.take(i + 1));
        i += 1;
    }
    assert(mv.take(i as int) =~= preview_of(mv));
    let mut e = String::from_str("prefix '");
    push_str(&mut e, input);
    push_str(&mut e, "' is ambiguous (matches ");
    push_decimal(&mut e, n as u64);
    push_str(&mut e, "): ");
    push_str(&mut e, join_strings(&preview, ", ").as_str());
    let ghost head = e@;
    assert(head == "prefix '"@ + input@ + "' is ambiguous (matches "@ + dec_text(mv.len()) + "): "@
        + join_with(preview_of(mv), ", "@));
    if n > 3 {
        push_str(&mut e, ", ... (");
        push_decimal(&mut e, (n - 3) as u64);
        push_str(&mut e, " more)");
        assert(e@ =~= head + (", ... ("@ + dec_text((n - 3) as nat) + " more)"@));
    } else {
        assert(e@ =~= head + Seq::<char>::empty());
    }
    Err(e)
}

/// `value` cut to its first `max_chars` characters, with `…` appended when
/// anything was cut.
pub open spec fn short_text_spec(value: Seq<char>, max_chars: nat) -> Seq<char> {
    if value.len() > max_chars {
        value.take(max_chars as int).push('…')
    } else {
        value
    }
}

/// At most `max_chars` characters of `value`, marked with `…` when cut.
pub fn short_text(value: &str, max_chars: usize) -> (r: String)
    ensures
        r@ == short_text_spec(value@, max_chars as nat),
{
    let v = crate::text::chars_of(value);
    if v.len() > max_chars {
        let mut r = crate::text::string_from_range(&v, 0, max_chars);
        push_char(&mut r, '…');
        assert(v@.subrange(0, max_chars as int) =~= value@.take(max_chars as int));
        r
    } else {
        String::from_str(value)
    }
}

/// `c` when it is an ASCII letter or digit, else `_`.
pub open spec fn layer_char(c: char) -> char {
    if ('a' <= c && c <= 'z') || ('A' <= c && c <= 'Z') || ('0' <= c && c <= '9') {
        c
    } else {
        '_'
    }
}

/// `value` with every character other than an ASCII letter or digit
/// replaced by `_`, for use as a layer name.
pub fn sanitize_layer_name(value: &str) -> (r: String)
    ensures
        r@ == value@.map_values(|c: char| layer_char(c)),
{
    let v = crate::text::chars_of(value);
    let mut r = String::new();
    let mut i: usize = 0;
    while i < v.len()
        invariant
            v@ == value@,
            i <= v@.len(),
            r@ == v@.take(i as int).map_values(|c: char| layer_char(c)),
        decreases v.len() - i,
    {
        let c = v[i];
        let keep = ('a' <= c && c <= 'z') || ('A' <= c && c <= 'Z') || ('0' <= c && c <= '9');
        push_char(&mut r, if keep { c } else { '_' });
        assert(v@.take(i + 1).map_values(|c: char| layer_char(c)) =~= v@.take(i as int).map_values(
            |c: char| layer_char(c),
        ).push(layer_char(c)));
        i += 1;
    }
    assert(v@.take(v@.len() as int) =~= v@);
    r
}

/// The leading characters of `value` that make up its first 8 bytes, or
/// all of `value` when byte 8 is past its end or inside a character.
pub open spec fn short_id_spec(value: Seq<char>) -> Seq<char> {
    if exists|k: int| 0 <= k <= value.len() && crate::native_codes::utf8_byte_len(value.take(k)) == 8 {
        value.take(
            choose|k: int|
                0 <= k <= value.len() && crate::native_codes::utf8_byte_len(value.take(k)) == 8,
        )
    } else {
        value
    }
}

/// The first 8 bytes of `value` when they end on a character boundary,
/// else `value` itself (std's `value.get(..8).unwrap_or(value)`).
pub fn short_id(value: &str) -> (r: String)
    ensures
        r@ == short_id_spec(value@),
{
    let v = crate::text::chars_of(value);
    let mut bytes: usize = 0;
    let mut k: usize = 0;
    while k < v.len() && bytes < 8
        invariant
            v@ == value@,
            k <= v@.len(),
            bytes == crate::native_codes::utf8_byte_len(v@.take(k as int)),
            forall|j: int| 0 <= j < k ==> crate::native_codes::utf8_byte_len(#[trigger] v@.take(j)) < 8,
        decreases v.len() - k,
    {
        proof {
            crate::native_codes::lemma_utf8_byte_len_step(v@, k as int);
        }
        let c = v[k];
        let w: usize = if '\u{80}' > c {
            1
        } else if '\u{800}' > c {
            2
        } else if '\u{10000}' > c {
            3
        } else {
            4
        };
        bytes = bytes + w;
        k += 1;
    }
    proof {
        let n = v@.len() as int;
        if bytes == 8 {
            assert forall|k2: int|
                0 <= k2 <= n && crate::native_codes::utf8_byte_len(
                    #[trigger] v@.take(k2),
                ) == 8 implies k2 == k by {
                if k2 < k {
                    lemma_prefix_bytes_strict(v@, k2, k as int);
                } else if k2 > k {
                    lemma_prefix_bytes_strict(v@, k as int, k2);
                }
            }
        } else {
            assert forall|k2: int| 0 <= k2 <= n implies crate::native_codes::utf8_byte_len(
                #[trigger] v@.take(k2),
            ) != 8 by {
                if k2 > k {
                    lemma_prefix_bytes_strict(v@, k as int, k2);
                }
            }
        }
    }
    if bytes == 8 {
        crate::text::string_from_range(&v, 0, k)
    } else {
        String::from_str(value)
    }
}

proof fn lemma_prefix_bytes_strict(s: Seq<char>, j: int, k: int)
    requires
        0 <= j < k <= s.len(),
    ensures
        crate::native_codes::utf8_byte_len(s.take(j)) < crate::native_codes::utf8_byte_len(
            s.take(k),
        ),
    decreases k - j,
{
    crate::native_codes::lemma_utf8_byte_len_step(s, k - 1);
    if j < k - 1 {
        lemma_prefix_bytes_strict(s, j, k - 1);
    }
}

/// The plain values of a graph object that its display projection reads.
#[derive(Debug)]
pub struct PidObjectRecord {
    pub drawing_id: String,
    pub item_type: String,
    pub model_id: Option<String>,
    /// Extra attributes by name.
    pub extra: StringMap,
}

/// `k` is the smallest key of `m`.
pub open spec fn is_min_key(m: Map<Seq<char>, Seq<char>>, k: Seq<char>) -> bool {
    &&& m.contains_key(k)
    &&& forall|k2: Seq<char>| #[trigger] m.contains_key(k2) && k2 != k ==> seq_lt(k, k2)
}

/// Display tag of an object: `Tag`, else `ItemTag`, else the value under
/// the smallest key, else nothing.
pub open spec fn tag_label_spec(m: Map<Seq<char>, Seq<char>>) -> Option<Seq<char>> {
    if m.contains_key("Tag"@) {
        Some(m["Tag"@])
    } else if m.contains_key("ItemTag"@) {
        Some(m["ItemTag"@])
    } else if exists|k: Seq<char>| is_min_key(m, k) {
        Some(m[choose|k: Seq<char>| is_min_key(m, k)])
    } else {
        None
    }
}

pub open spec fn opt_view(o: Option<String>) -> Option<Seq<char>> {
    match o {
        Some(s) => Some(s@),
        None => None,
    }
}

fn clone_opt(o: &Option<String>) -> (r: Option<String>)
    ensures
        opt_view(r) == opt_view(*o),
{
    match o {
        Some(s) => Some(s.clone()),
        None => None,
    }
}

/// The value under the smallest key of `m`, if `m` is not empty.
fn first_value(m: &StringMap) -> (r: Option<String>)
    ensures
        opt_view(r) == (if exists|k: Seq<char>| is_min_key(m@, k) {
            Some(m@[choose|k: Seq<char>| is_min_key(m@, k)])
        } else {
            None
        }),
{
    let entries = m.sorted_entries();
    let ghost rows = entries@.map_values(|e: (String, String)| (e.0@, e.1@));
    proof {
        crate::string_map::lemma_sorted_distinct(rows);
        crate::string_map::lemma_map_of(rows);
    }
    if entries.len() == 0 {
        proof {
            assert forall|k: Seq<char>| !is_min_key(m@, k) by {
                if m@.contains_key(k) {
                    let i = choose|i: int| 0 <= i < rows.len() && rows[i].0 == k;
                }
            }
        }
        None
    } else {
        let ghost k0 = rows[0].0;
        proof {
            assert(rows[0] == (entries@[0].0@, entries@[0].1@));
            assert(crate::string_map::has_key(rows, k0));
            assert(is_min_key(m@, k0)) by {
                assert forall|k2: Seq<char>| #[trigger] m@.contains_key(k2) && k2 != k0 implies seq_lt(
                    k0,
                    k2,
                ) by {
                    let j = choose|j: int| 0 <= j < rows.len() && rows[j].0 == k2;
                    assert(j != 0);
                }
            }
            let c = choose|k: Seq<char>| is_min_key(m@, k);
            if c != k0 {
                assert(seq_lt(k0, c));
                assert(seq_lt(c, k0));
                crate::string_map::lemma_seq_lt_transitive(k0, c, k0);
                crate::string_map::lemma_seq_lt_irreflexive(k0);
            }
            assert(m@[k0] == rows[0].1);
        }
        Some(entries[0].1.clone())
    }
}

/// Display projection of `obj`.
pub fn project_neighbor(obj: &PidObjectRecord) -> (r: PidNeighborInfo)
    ensures
        r.drawing_id@ == obj.drawing_id@,
        r.item_type@ == obj.item_type@,
        opt_view(r.model_id) == opt_view(obj.model_id),
        opt_view(r.tag_label) == tag_label_spec(obj.extra@),
{
    let tag_label = match obj.extra.get("Tag") {
        Some(v) => Some(v.clone()),
        None => match obj.extra.get("ItemTag") {
            Some(v) => Some(v.clone()),
            None => first_value(&obj.extra),
        },
    };
    PidNeighborInfo {
        drawing_id: obj.drawing_id.clone(),
        item_type: obj.item_type.clone(),
        model_id: clone_opt(&obj.model_id),
        tag_label,
    }
}

/// The message for a package without an object graph.
pub open spec fn no_graph_message() -> Seq<char> {
    "source PID has no object_graph (P&IDAttributes not parsed)"@
}

pub fn no_graph_error() -> (r: String)
    ensures
        r@ == no_graph_message(),
{
    String::from_str("source PID has no object_graph (P&IDAttributes not parsed)")
}

pub open spec fn no_path_message(from: Seq<char>, to: Seq<char>) -> Seq<char> {
    "no path from "@ + from + " to "@ + to + " (graph disconnected within these endpoints)"@
}

/// The message for two endpoints the graph does not connect.
pub fn no_path_error(from: &str, to: &str) -> (r: String)
    ensures
        r@ == no_path_message(from@, to@),
{
    let mut e = String::from_str("no path from ");
    push_str(&mut e, from);
    push_str(&mut e, " to ");
    push_str(&mut e, to);
    push_str(&mut e, " (graph disconnected within these endpoints)");
    e
}

pub open spec fn info_view(i: PidNeighborInfo) -> (Seq<char>, Seq<char>, Option<Seq<char>>, Option<
    Seq<char>,
>) {
    (i.drawing_id@, i.item_type@, opt_view(i.model_id), opt_view(i.tag_label))
}

fn clone_info(i: &PidNeighborInfo) -> (r: PidNeighborInfo)
    ensures
        info_view(r) == info_view(*i),
{
    PidNeighborInfo {
        drawing_id: i.drawing_id.clone(),
        item_type: i.item_type.clone(),
        model_id: clone_opt(&i.model_id),
        tag_label: clone_opt(&i.tag_label),
    }
}

/// The endpoints reported for a path: its first and last object, or an
/// empty record for `from_id` when the path holds no object.
pub fn pid_path_endpoints(from_id: &str, path: &Vec<PidNeighborInfo>) -> (r: (
    PidNeighborInfo,
    PidNeighborInfo,
))
    ensures
        path@.len() > 0 ==> info_view(r.0) == info_view(path@[0]) && info_view(r.1) == info_view(
            path@.last(),
        ),
        path@.len() == 0 ==> info_view(r.0) == (from_id@, Seq::<char>::empty(), None::<Seq<char>>, None::<Seq<char>>)
            && info_view(r.1) == info_view(r.0),
{
    if path.len() > 0 {
        (clone_info(&path[0]), clone_info(&path[path.len() - 1]))
    } else {
        let from = PidNeighborInfo {
            drawing_id: String::from_str(from_id),
            item_type: String::new(),
            model_id: None,
            tag_label: None,
        };
        let to = clone_info(&from);
        (from, to)
    }
}

/// The health report of the cached package for `source`, assembled from
/// the sub-reports that could be produced; an error only when nothing is
/// cached for `source`.
pub fn build_pid_health_report(
    store: &PidPackageStore,
    source: &str,
    graph_stats: Option<PidGraphStats>,
    listing: Option<PidPropsListing>,
    verify: Option<PidVerifyReport>,
    unidentified: Option<Vec<UnidentifiedStreamInfo>>,
    version_log: Option<Option<PidVersionLog>>,
) -> (r: Result<PidHealthReport, String>)
    ensures
        !store@.dom().contains(path_components(source@)) ==> (r matches Err(e) && e@ == no_cache_message(source@)),
        store@.dom().contains(path_components(source@)) ==> (r matches Ok(h) && {
            let pkg = store@[path_components(source@)];
            &&& h.source_path@ == source@
            &&& h.stream_count == pkg.streams@.len()
            &&& opt_view(h.root_clsid) == match pkg.root_clsid {
                Some(u) => Some(braced(u@)),
                None => None,
            }
            &&& h.non_root_clsid_count == pkg.storage_clsids@.len()
            &&& h.graph_stats == graph_stats
            &&& h.drawing_attributes@ == match listing {
                Some(l) => l.drawing_attributes@,
                None => Seq::empty(),
            }
            &&& h.general_elements@ == match listing {
                Some(l) => l.general_elements@,
                None => Seq::empty(),
            }
            &&& h.verify == verify
            &&& h.unidentified@ == match unidentified {
                Some(u) => u@,
                None => Seq::empty(),
            }
            &&& h.version_log == match version_log {
                Some(Some(l)) => Some(l),
                _ => None,
            }
        }),
{
    let pkg = match store.get_package(source) {
        Some(p) => p,
        None => {
            return Err(no_cache_error(source));
        },
    };
    let root_clsid = match &pkg.root_clsid {
        Some(u) => Some(crate::pid_verify::braced_string(u.as_str())),
        None => None,
    };
    let (drawing_attributes, general_elements) = match listing {
        Some(l) => (l.drawing_attributes, l.general_elements),
        None => (Vec::new(), Vec::new()),
    };
    let unidentified = match unidentified {
        Some(u) => u,
        None => Vec::new(),
    };
    let version_log = match version_log {
        Some(Some(l)) => Some(l),
        _ => None,
    };
    Ok(PidHealthReport {
        source_path: String::from_str(source),
        stream_count: pkg.streams.len(),
        graph_stats,
        drawing_attributes,
        general_elements,
        verify,
        unidentified,
        version_log,
        root_clsid,
        non_root_clsid_count: pkg.storage_clsids.len(),
    })
}

/// std's `str::from_utf8`: the text whose UTF-8 encoding is `bytes`, or
/// the error's rendering when `bytes` is not valid UTF-8.  The contract
/// claims the decoded text re-encodes to `bytes` and that an error comes
/// only for bytes no text encodes to; the error text is not described.
#[verifier::external_body]
fn decode_utf8(bytes: &[u8]) -> (r: Result<String, String>)
    ensures
        r matches Ok(s) ==> vstd::utf8::encode_utf8(s@) == bytes@,
        r is Err ==> forall|s: Seq<char>| #[trigger] vstd::utf8::encode_utf8(s) != bytes@,
{
    match std::str::from_utf8(bytes) {
        Ok(s) => Ok(s.to_string()),
        Err(e) => Err(e.to_string()),
    }
}

pub open spec fn missing_stream_message(path: Seq<char>) -> Seq<char> {
    "source PID is missing "@ + path + " stream"@
}

pub open spec fn not_utf8_prefix(label: Seq<char>) -> Seq<char> {
    label + " XML is not UTF-8 (BOM/UTF-16 not yet supported): "@
}

/// Bytes of stream `path` in the cached package for `source`, if both
/// exist.
pub open spec fn cached_stream_bytes(
    store: Map<Seq<PathComponent>, PidPackageData>,
    source: Seq<char>,
    path: Seq<char>,
) -> Option<Seq<u8>> {
    if store.contains_key(path_components(source)) {
        crate::pid_verify::lookup(crate::pid_verify::stream_rows(store[path_components(source)].streams@), path)
    } else {
        None
    }
}

/// Text of metadata stream `stream_path` of the cached package for
/// `source`, with an error naming what is missing: the cached package,
/// the stream, or valid UTF-8 (`label` names the stream in that message).
pub fn cached_stream_xml(store: &PidPackageStore, source: &str, stream_path: &str, label: &str) -> (r:
    Result<String, String>)
    ensures
        !store@.dom().contains(path_components(source@)) ==> (r matches Err(e) && e@ == no_cache_message(source@)),
        store@.dom().contains(path_components(source@)) && cached_stream_bytes(store@, source@, stream_path@) is None
            ==> (r matches Err(e) && e@ == missing_stream_message(stream_path@)),
        cached_stream_bytes(store@, source@, stream_path@) matches Some(d) ==> match r {
            Ok(x) => vstd::utf8::encode_utf8(x@) == d,
            Err(e) => (forall|s: Seq<char>| #[trigger] vstd::utf8::encode_utf8(s) != d) && exists|
                t: Seq<char>,
            | e@ == not_utf8_prefix(label@) + t,
        },
{
    let pkg = match store.get_package(source) {
        Some(p) => p,
        None => {
            return Err(no_cache_error(source));
        },
    };
    let key = String::from_str(stream_path);
    let data = match crate::pid_verify::find_stream(&pkg.streams, &key) {
        Some(d) => d,
        None => {
            let mut e = String::from_str("source PID is missing ");
            push_str(&mut e, stream_path);
            push_str(&mut e, " stream");
            return Err(e);
        },
    };
    match decode_utf8(data.as_slice()) {
        Ok(x) => Ok(x),
        Err(msg) => {
            let mut e = String::from_str(label);
            push_str(&mut e, " XML is not UTF-8 (BOM/UTF-16 not yet supported): ");
            let ghost head = e@;
            push_str(&mut e, msg.as_str());
            assert(e@ == not_utf8_prefix(label@) + msg@);
            Err(e)
        },
    }
}

/// Text of stream `stream_path` of the cached package for `source`, or
/// nothing when the package, the stream or valid UTF-8 is missing.
pub fn cached_stream_text(store: &PidPackageStore, source: &str, stream_path: &str) -> (r: Option<String>)
    ensures
        match cached_stream_bytes(store@, source@, stream_path@) {
            Some(d) => match r {
                Some(x) => vstd::utf8::encode_utf8(x@) == d,
                None => forall|s: Seq<char>| #[trigger] vstd::utf8::encode_utf8(s) != d,
            },
            None => r is None,
        },
{
    match cached_stream_xml(store, source, stream_path, "") {
        Ok(x) => Some(x),
        Err(_) => None,
    }
}

/// `rows` with the bytes of every stream at `path` replaced by `data`.
pub open spec fn replace_stream_rows(rows: Seq<(Seq<char>, Seq<u8>)>, path: Seq<char>, data: Seq<u8>) -> Seq<(Seq<char>, Seq<u8>)> {
    rows.map_values(|r: (Seq<char>, Seq<u8>)| if r.0 == path { (r.0, data) } else { r })
}

pub open spec fn clsid_rows(v: Seq<(String, String)>) -> Seq<(Seq<char>, Seq<char>)> {
    v.map_values(|p: (String, String)| (p.0@, p.1@))
}

/// `new` is `old` with stream `path`'s bytes replaced by `data`.
pub open spec fn package_with_stream(old: PidPackageData, new: PidPackageData, path: Seq<char>, data: Seq<u8>) -> bool {
    &&& crate::pid_verify::stream_rows(new.streams@) == replace_stream_rows(
        crate::pid_verify::stream_rows(old.streams@),
        path,
        data,
    )
    &&& opt_view(new.root_clsid) == opt_view(old.root_clsid)
    &&& clsid_rows(new.storage_clsids@) == clsid_rows(old.storage_clsids@)
}

fn package_replacing_stream(pkg: &PidPackageData, path: &str, data: &Vec<u8>) -> (r: PidPackageData)
    ensures
        package_with_stream(*pkg, r, path@, data@),
{
    let ghost rows = crate::pid_verify::stream_rows(pkg.streams@);
    let mut streams: Vec<PidRawStream> = Vec::new();
    let mut i: usize = 0;
    while i < pkg.streams.len()
        invariant
            i <= pkg.streams@.len(),
            rows == crate::pid_verify::stream_rows(pkg.streams@),
            crate::pid_verify::stream_rows(streams@) == replace_stream_rows(rows.take(i as int), path@, data@),
        decreases pkg.streams.len() - i,
    {
        let s = &pkg.streams[i];
        let same = crate::text::str_eq(s.path.as_str(), path);
        let bytes = if same {
            data.clone()
        } else {
            s.data.clone()
        };
        let ghost before = streams@;
        streams.push(PidRawStream { path: s.path.clone(), data: bytes });
        assert(rows[i as int] == (s.path@, s.data@));
        assert(crate::pid_verify::stream_rows(streams@) =~= crate::pid_verify::stream_rows(before).push(
            crate::pid_verify::stream_rows(streams@).last(),
        ));
        assert(replace_stream_rows(rows.take(i + 1), path@, data@) =~= replace_stream_rows(
            rows.take(i as int),
            path@,
            data@,
        ).push(replace_stream_rows(rows.take(i + 1), path@, data@).last()));
        i += 1;
    }
    assert(rows.take(pkg.streams@.len() as int) =~= rows);
    let mut clsids: Vec<(String, String)> = Vec::new();
    let mut j: usize = 0;
    while j < pkg.storage_clsids.len()
        invariant
            j <= pkg.storage_clsids@.len(),
            clsid_rows(clsids@) == clsid_rows(pkg.storage_clsids@).take(j as int),
        decreases pkg.storage_clsids.len() - j,
    {
        let (a, b) = &pkg.storage_clsids[j];
        let ghost before = clsids@;
        let pair = (a.clone(), b.clone());
        assert(pair.0@ == pkg.storage_clsids@[j as int].0@ && pair.1@ == pkg.storage_clsids@[j as int].1@);
        clsids.push(pair);
        assert(clsids@ == before.push(pair));
        assert(clsid_rows(clsids@) =~= clsid_rows(before).push((pair.0@, pair.1@)));
        assert(clsid_rows(clsids@) =~= clsid_rows(pkg.storage_clsids@).take(j + 1));
        j += 1;
    }
    assert(clsid_rows(pkg.storage_clsids@).take(pkg.storage_clsids@.len() as int) =~= clsid_rows(
        pkg.storage_clsids@,
    ));
    PidPackageData { streams, root_clsid: clone_opt(&pkg.root_clsid), storage_clsids: clsids }
}

pub open spec fn edit_failed_message(e: Seq<char>) -> Seq<char> {
    "metadata edit failed: "@ + e
}

/// Second half of a metadata edit: given the stream text the editor
/// produced (or its error), re-cache the package for `source` with stream
/// `stream_path` holding the new text's bytes, and give the text's byte
/// length.  An editor error is reported as a failed edit and leaves the
/// cache as it was.
pub fn apply_stream_edit(
    store: &mut PidPackageStore,
    source: &str,
    stream_path: &str,
    new_xml: Result<String, String>,
) -> (r: Result<usize, String>)
    ensures
        new_xml matches Err(e) ==> (r matches Err(m) && m@ == edit_failed_message(e@)),
        new_xml is Err ==> final(store)@ == old(store)@,
        new_xml is Ok && !old(store)@.dom().contains(path_components(source@)) ==> (r matches Err(m) && m@
            == no_cache_message(source@)),
        !old(store)@.dom().contains(path_components(source@)) ==> final(store)@ == old(store)@,
        new_xml matches Ok(x) ==> old(store)@.dom().contains(path_components(source@)) ==> (r matches Ok(n) && n
            == vstd::utf8::encode_utf8(x@).len()),
        new_xml matches Ok(x) ==> old(store)@.dom().contains(path_components(source@)) ==> exists|p: PidPackageData|
            #![trigger package_with_stream(old(store)@[path_components(source@)], p, stream_path@, vstd::utf8::encode_utf8(x@))]
            package_with_stream(old(store)@[path_components(source@)], p, stream_path@, vstd::utf8::encode_utf8(x@))
                && final(store)@ == old(store)@.insert(path_components(source@), p),
{
    let x = match new_xml {
        Ok(x) => x,
        Err(e) => {
            let mut m = String::from_str("metadata edit failed: ");
            push_str(&mut m, e.as_str());
            return Err(m);
        },
    };
    let updated = match store.get_package(source) {
        Some(pkg) => {
            let bytes = x.as_str().as_bytes_vec();
            let u = package_replacing_stream(pkg, stream_path, &bytes);
            proof {
                lemma_edit_keeps_well_formed(*pkg, u, stream_path@, bytes@);
            }
            u
        },
        None => {
            return Err(no_cache_error(source));
        },
    };
    let n = x.as_str().as_bytes().len();
    store.cache_package(String::from_str(source), updated);
    Ok(n)
}

/// Attribute holding the drawing number in the Drawing stream.
pub const DRAWING_NUMBER_ATTR: &'static str = "SP_DRAWINGNUMBER";

/// The Drawing-stream edit of attribute `attr` to `value`, once the editor
/// has given the previous value and the new stream text: the outcome
/// record, or the error of [`apply_stream_edit`].
pub fn edit_pid_drawing_attribute(
    store: &mut PidPackageStore,
    source: &str,
    attr: &str,
    value: &str,
    previous: Option<String>,
    new_xml: Result<String, String>,
) -> (r: Result<DrawingAttributeEdit, String>)
    ensures
        new_xml matches Err(e) ==> (r matches Err(m) && m@ == edit_failed_message(e@)),
        new_xml is Ok && !old(store)@.dom().contains(path_components(source@)) ==> (r matches Err(m) && m@
            == no_cache_message(source@)),
        new_xml matches Ok(x) ==> old(store)@.dom().contains(path_components(source@)) ==> (r matches Ok(ed) && ed.attr@
            == attr@ && opt_view(ed.previous) == opt_view(previous) && ed.next@ == value@
            && ed.new_xml_len == vstd::utf8::encode_utf8(x@).len()),
        new_xml is Err || !old(store)@.dom().contains(path_components(source@)) ==> final(store)@ == old(store)@,
        new_xml matches Ok(x) ==> old(store)@.dom().contains(path_components(source@)) ==> exists|p: PidPackageData|
            #![trigger package_with_stream(old(store)@[path_components(source@)], p, crate::pid_publish::DRAWING_STREAM_PATH@, vstd::utf8::encode_utf8(x@))]
            package_with_stream(
                old(store)@[path_components(source@)],
                p,
                crate::pid_publish::DRAWING_STREAM_PATH@,
                vstd::utf8::encode_utf8(x@),
            ) && final(store)@ == old(store)@.insert(path_components(source@), p),
{
    match apply_stream_edit(store, source, crate::pid_publish::DRAWING_STREAM_PATH, new_xml) {
        Ok(n) => Ok(DrawingAttributeEdit {
            attr: String::from_str(attr),
            previous,
            next: String::from_str(value),
            new_xml_len: n,
        }),
        Err(e) => Err(e),
    }
}

/// The General-stream edit of element `element` to `value`, once the
/// editor has given the previous text and the new stream text.
pub fn edit_pid_general_element(
    store: &mut PidPackageStore,
    source: &str,
    element: &str,
    value: &str,
    previous: Option<String>,
    new_xml: Result<String, String>,
) -> (r: Result<GeneralElementEdit, String>)
    ensures
        new_xml matches Err(e) ==> (r matches Err(m) && m@ == edit_failed_message(e@)),
        new_xml is Ok && !old(store)@.dom().contains(path_components(source@)) ==> (r matches Err(m) && m@
            == no_cache_message(source@)),
        new_xml matches Ok(x) ==> old(store)@.dom().contains(path_components(source@)) ==> (r matches Ok(ed)
            && ed.element@ == element@ && opt_view(ed.previous) == opt_view(previous) && ed.next@
            == value@ && ed.new_xml_len == vstd::utf8::encode_utf8(x@).len()),
        new_xml is Err || !old(store)@.dom().contains(path_components(source@)) ==> final(store)@ == old(store)@,
        new_xml matches Ok(x) ==> old(store)@.dom().contains(path_components(source@)) ==> exists|p: PidPackageData|
            #![trigger package_with_stream(old(store)@[path_components(source@)], p, crate::pid_publish::GENERAL_STREAM_PATH@, vstd::utf8::encode_utf8(x@))]
            package_with_stream(
                old(store)@[path_components(source@)],
                p,
                crate::pid_publish::GENERAL_STREAM_PATH@,
                vstd::utf8::encode_utf8(x@),
            ) && final(store)@ == old(store)@.insert(path_components(source@), p),
{
    match apply_stream_edit(store, source, crate::pid_publish::GENERAL_STREAM_PATH, new_xml) {
        Ok(n) => Ok(GeneralElementEdit {
            element: String::from_str(element),
            previous,
            next: String::from_str(value),
            new_xml_len: n,
        }),
        Err(e) => Err(e),
    }
}

/// The cached Drawing stream's bytes for `source`.
pub open spec fn drawing_bytes(store: Map<Seq<PathComponent>, PidPackageData>, source: Seq<char>) -> Option<Seq<u8>> {
    cached_stream_bytes(store, source, crate::pid_publish::DRAWING_STREAM_PATH@)
}

/// Set the drawing number (`SP_DRAWINGNUMBER`) of the package cached for
/// `source` to `value`.  The Drawing stream is read from the cache and
/// handed, as text, to `editor`, which gives the attribute's previous
/// value and the rewritten stream text (or why it could not rewrite it);
/// the rewritten text then replaces the stream in the cache.
///
/// It fails, leaving the cache as it was, when nothing is cached for
/// `source`, when the package has no Drawing stream, when that stream is
/// not UTF-8, or when the editor fails.
pub fn edit_pid_drawing_number<F: Fn(String) -> (Option<String>, Result<String, String>)>(
    store: &mut PidPackageStore,
    source: &str,
    value: &str,
    editor: F,
) -> (r: Result<DrawingNumberEdit, String>)
    requires
        forall|x: String| #[trigger] call_requires(editor, (x,)),
    ensures
        r is Err ==> final(store)@ == old(store)@,
        !old(store)@.dom().contains(path_components(source@)) ==> (r matches Err(m) && m@ == no_cache_message(source@)),
        old(store)@.dom().contains(path_components(source@)) && drawing_bytes(old(store)@, source@) is None ==> (r matches Err(
            m,
        ) && m@ == missing_stream_message(crate::pid_publish::DRAWING_STREAM_PATH@)),
        drawing_bytes(old(store)@, source@) matches Some(d) && (forall|s: Seq<char>| #[trigger] vstd::utf8::encode_utf8(s) != d)
            ==> (r matches Err(m) && exists|t: Seq<char>| m@ == not_utf8_prefix("Drawing"@) + t),
        r matches Err(m) ==> drawing_bytes(old(store)@, source@) matches Some(d) ==> (forall|s: Seq<char>|
            #[trigger] vstd::utf8::encode_utf8(s) != d) || exists|x: String, prev: Option<String>, e: String|
            vstd::utf8::encode_utf8(x@) == d && call_ensures(editor, (x,), (prev, Err::<String, String>(e))) && m@
                == edit_failed_message(e@),
        r matches Ok(n) ==> exists|x: String, prev: Option<String>, y: String, p: PidPackageData|
            #![trigger call_ensures(editor, (x,), (prev, Ok::<String, String>(y))), package_with_stream(old(store)@[path_components(source@)], p, crate::pid_publish::DRAWING_STREAM_PATH@, vstd::utf8::encode_utf8(y@))]
            drawing_bytes(old(store)@, source@) == Some(vstd::utf8::encode_utf8(x@)) && call_ensures(
                editor,
                (x,),
                (prev, Ok::<String, String>(y)),
            ) && opt_view(n.previous) == opt_view(prev) && n.next@ == value@ && n.new_xml_len
                == vstd::utf8::encode_utf8(y@).len() && package_with_stream(
                old(store)@[path_components(source@)],
                p,
                crate::pid_publish::DRAWING_STREAM_PATH@,
                vstd::utf8::encode_utf8(y@),
            ) && final(store)@ == old(store)@.insert(path_components(source@), p),
{
    let xml = match cached_stream_xml(store, source, crate::pid_publish::DRAWING_STREAM_PATH, "Drawing") {
        Ok(x) => x,
        Err(e) => return Err(e),
    };
    let ghost xv = xml;
    let (previous, new_xml) = editor(xml);
    let ghost out = (previous, new_xml);
    let ghost before = *store;
    match edit_pid_drawing_attribute(store, source, DRAWING_NUMBER_ATTR, value, previous, new_xml) {
        Ok(ed) => {
            proof {
                let y = out.1->Ok_0;
                let p = choose|p: PidPackageData|
                    package_with_stream(
                        before@[path_components(source@)],
                        p,
                        crate::pid_publish::DRAWING_STREAM_PATH@,
                        vstd::utf8::encode_utf8(y@),
                    ) && store@ == before@.insert(path_components(source@), p);
                assert(call_ensures(editor, (xv,), (out.0, Ok::<String, String>(y))));
            }
            Ok(DrawingNumberEdit { previous: ed.previous, next: ed.next, new_xml_len: ed.new_xml_len })
        },
        Err(e) => Err(e),
    }
}

proof fn lemma_lookup_replaced(rows: Seq<(Seq<char>, Seq<u8>)>, path: Seq<char>, d: Seq<u8>)
    requires
        crate::pid_verify::lookup(rows, path) is Some,
    ensures
        crate::pid_verify::lookup(replace_stream_rows(rows, path, d), path) == Some(d),
    decreases rows.len(),
{
    let r2 = replace_stream_rows(rows, path, d);
    if rows[0].0 != path {
        assert(r2.skip(1) =~= replace_stream_rows(rows.skip(1), path, d));
        lemma_lookup_replaced(rows.skip(1), path, d);
    }
}

proof fn lemma_lookup_other(rows: Seq<(Seq<char>, Seq<u8>)>, path: Seq<char>, d: Seq<u8>, other: Seq<char>)
    requires
        other != path,
    ensures
        crate::pid_verify::lookup(replace_stream_rows(rows, path, d), other) == crate::pid_verify::lookup(rows, other),
    decreases rows.len(),
{
    let r2 = replace_stream_rows(rows, path, d);
    if rows.len() > 0 {
        assert(r2.skip(1) =~= replace_stream_rows(rows.skip(1), path, d));
        lemma_lookup_other(rows.skip(1), path, d, other);
    }
}

/// An edit of stream `path` of the package cached for `source` leaves every
/// other stream of that package, and every stream of every other cached
/// package, as it was.
pub proof fn lemma_edit_keeps_other_streams(
    before: Map<Seq<PathComponent>, PidPackageData>,
    source: Seq<char>,
    path: Seq<char>,
    data: Seq<u8>,
    p: PidPackageData,
    other_source: Seq<char>,
    other_path: Seq<char>,
)
    requires
        before.contains_key(path_components(source)),
        package_with_stream(before[path_components(source)], p, path, data),
        path_components(other_source) != path_components(source) || other_path != path,
    ensures
        cached_stream_bytes(before.insert(path_components(source), p), other_source, other_path) == cached_stream_bytes(
            before,
            other_source,
            other_path,
        ),
{
    if path_components(other_source) == path_components(source) {
        lemma_lookup_other(crate::pid_verify::stream_rows(before[path_components(source)].streams@), path, data, other_path);
    }
}

/// Replacing a stream's bytes keeps a package well formed: its stream
/// paths and storages are unchanged.
pub proof fn lemma_edit_keeps_well_formed(old: PidPackageData, new: PidPackageData, path: Seq<char>, data: Seq<u8>)
    requires
        old.well_formed(),
        package_with_stream(old, new, path, data),
    ensures
        new.well_formed(),
{
    let ro = crate::pid_verify::stream_rows(old.streams@);
    let rn = crate::pid_verify::stream_rows(new.streams@);
    assert(rn.len() == ro.len());
    assert forall|i: int| 0 <= i < new.streams@.len() implies (#[trigger] new.streams@[i]).path@ == old.streams@[i].path@ by {
        assert(rn[i].0 == new.streams@[i].path@);
        assert(ro[i].0 == old.streams@[i].path@);
        assert(rn[i] == replace_stream_rows(ro, path, data)[i]);
    }
    let co = clsid_rows(old.storage_clsids@);
    let cn = clsid_rows(new.storage_clsids@);
    assert(cn.len() == co.len());
    assert forall|i: int| 0 <= i < new.storage_clsids@.len() implies (#[trigger] new.storage_clsids@[i]).0@
        == old.storage_clsids@[i].0@ && new.storage_clsids@[i].1@ == old.storage_clsids@[i].1@ by {
        assert(cn[i] == co[i]);
    }
    if new.root_clsid is Some {
        assert(opt_view(new.root_clsid) == opt_view(old.root_clsid));
    }
}

/// Reading a metadata stream back after an edit rewrote it to text `x`
/// gives `x`: the cached stream then holds exactly the UTF-8 bytes of
/// `x`, and `x` is the only text with those bytes.
pub proof fn lemma_edit_then_read(
    before: Map<Seq<PathComponent>, PidPackageData>,
    source: Seq<char>,
    path: Seq<char>,
    x: Seq<char>,
    p: PidPackageData,
    y: Seq<char>,
)
    requires
        cached_stream_bytes(before, source, path) is Some,
        package_with_stream(before[path_components(source)], p, path, vstd::utf8::encode_utf8(x)),
    ensures
        cached_stream_bytes(before.insert(path_components(source), p), source, path) == Some(vstd::utf8::encode_utf8(x)),
        vstd::utf8::encode_utf8(y) == vstd::utf8::encode_utf8(x) ==> y == x,
{
    lemma_lookup_replaced(
        crate::pid_verify::stream_rows(before[path_components(source)].streams@),
        path,
        vstd::utf8::encode_utf8(x),
    );
    vstd::utf8::encode_utf8_decode_utf8(x);
    vstd::utf8::encode_utf8_decode_utf8(y);
}

pub open spec fn incomplete_bundle_message(pid: Seq<char>, data: Seq<char>, meta: Seq<char>) -> Seq<char> {
    "incomplete publish bundle beside "@ + pid + " (expected both "@ + data + " and "@ + meta + ")"@
}

/// The both-or-nothing rule for the publish sidecars of a PID file:
/// `Ok(false)` when neither exists, `Ok(true)` when both do, and an error
/// naming the three paths when only one does.
pub fn check_sidecar_pair(has_data: bool, has_meta: bool, pid_path: &str, data_path: &str, meta_path: &str) -> (r:
    Result<bool, String>)
    ensures
        !has_data && !has_meta ==> r == Ok::<bool, String>(false),
        has_data && has_meta ==> r == Ok::<bool, String>(true),
        has_data != has_meta ==> (r matches Err(e) && e@ == incomplete_bundle_message(
            pid_path@,
            data_path@,
            meta_path@,
        )),
{
    if !has_data && !has_meta {
        return Ok(false);
    }
    if has_data != has_meta {
        let mut e = String::from_str("incomplete publish bundle beside ");
        push_str(&mut e, pid_path);
        push_str(&mut e, " (expected both ");
        push_str(&mut e, data_path);
        push_str(&mut e, " and ");
        push_str(&mut e, meta_path);
        push_str(&mut e, ")");
        return Err(e);
    }
    Ok(true)
}

pub open spec fn save_without_cache_message(source: Seq<char>) -> Seq<char> {
    "PID save requires the original .pid file to be opened first (no cached package for "@ + source
        + ")"@
}

/// The cached package a PID save replays for `source`, or the error
/// telling the user to open the original file first.
pub fn package_for_save<'a>(store: &'a PidPackageStore, source: &str) -> (r: Result<
    &'a PidPackageData,
    String,
>)
    ensures
        match r {
            Ok(p) => store@.dom().contains(path_components(source@)) && store@[path_components(source@)] == *p,
            Err(e) => !store@.dom().contains(path_components(source@)) && e@ == save_without_cache_message(source@),
        },
{
    match store.get_package(source) {
        Some(p) => Ok(p),
        None => {
            let mut e = String::from_str(
                "PID save requires the original .pid file to be opened first (no cached package for ",
            );
            push_str(&mut e, source);
            push_str(&mut e, ")");
            Err(e)
        },
    }
}

pub open spec fn not_pid_message(label: Seq<char>, path: Seq<char>) -> Seq<char> {
    label + ": '"@ + path + "' is not a .pid file"@
}

/// Check of one input of a PID diff: an error unless its extension
/// (`ext`, if any) is `pid` in any ASCII case.
pub fn pid_extension_error(label: &str, path: &str, ext: Option<&str>) -> (r: Option<String>)
    ensures
        match ext {
            Some(e) => crate::text::ascii_lower_seq(e@) == "pid"@,
            None => false,
        } ==> r is None,
        !(match ext {
            Some(e) => crate::text::ascii_lower_seq(e@) == "pid"@,
            None => false,
        }) ==> (r matches Some(m) && m@ == not_pid_message(label@, path@)),
{
    let ok = match ext {
        Some(e) => {
            let v = crate::text::chars_of(e);
            let n = v.len();
            assert(v@.subrange(0, n as int) =~= e@);
            crate::text::eq_ascii_lower(&v, 0, n, "pid")
        },
        None => false,
    };
    if ok {
        None
    } else {
        let mut m = String::from_str(label);
        push_str(&mut m, ": '");
        push_str(&mut m, path);
        push_str(&mut m, "' is not a .pid file");
        Some(m)
    }
}

/// Whether the file at `path`, a path read alike on every platform, has
/// the extension `pid` in any ASCII case.
pub open spec fn has_pid_extension(path: Seq<char>) -> bool {
    match crate::svg_export::name_extension(crate::svg_export::final_segment(path)) {
        Some(e) => crate::text::ascii_lower_seq(e) == "pid"@,
        None => false,
    }
}

/// The extension check of a PID diff: both inputs must be `.pid` files;
/// the first offending input (`a` before `b`) is reported.
pub fn check_pid_diff_inputs(a: &str, b: &str) -> (r: Result<(), String>)
    ensures
        r matches Err(m) ==> (m@ == not_pid_message("a"@, a@) || m@ == not_pid_message("b"@, b@)),
        crate::svg_export::portable_path(a@) && crate::svg_export::portable_path(b@) ==> match r {
            Ok(_) => has_pid_extension(a@) && has_pid_extension(b@),
            Err(m) => if !has_pid_extension(a@) {
                m@ == not_pid_message("a"@, a@)
            } else {
                !has_pid_extension(b@) && m@ == not_pid_message("b"@, b@)
            },
        },
{
    let ea = crate::svg_export::path_extension(a);
    let ra = match &ea {
        Some(e) => pid_extension_error("a", a, Some(e.as_str())),
        None => pid_extension_error("a", a, None),
    };
    if let Some(m) = ra {
        return Err(m);
    }
    let eb = crate::svg_export::path_extension(b);
    let rb = match &eb {
        Some(e) => pid_extension_error("b", b, Some(e.as_str())),
        None => pid_extension_error("b", b, None),
    };
    match rb {
        Some(m) => Err(m),
        None => Ok(()),
    }
}

} // verus!
