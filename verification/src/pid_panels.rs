//! The text panels beside the PID preview drawing: which lines each panel
//! shows, in order, with the node each line stands for.
//!
//! A panel is a heading followed by one line per listed item, capped at a
//! fixed number of items; its placement on the sheet is left to the caller.

use vstd::prelude::*;
use crate::pid_report::{short_text, short_text_spec, PidNodeKey};
use crate::preview_index::{node_key_view, KeyView};
use crate::text::{dec_text, push_decimal, push_str, str_eq};

verus! {

/// One line of a preview panel: its text, the node it is indexed under,
/// and a second node it is also indexed under, if any.
#[derive(Debug, Clone)]
pub struct PanelLine {
    pub text: String,
    pub key: Option<PidNodeKey>,
    pub also: Option<PidNodeKey>,
}

/// A panel line as plain values.
pub type LineView = (Seq<char>, Option<KeyView>, Option<KeyView>);

pub open spec fn opt_key_view(k: Option<PidNodeKey>) -> Option<KeyView> {
    match k {
        Some(k) => Some(node_key_view(k)),
        None => None,
    }
}

pub open spec fn line_view(l: PanelLine) -> LineView {
    (l.text@, opt_key_view(l.key), opt_key_view(l.also))
}

pub open spec fn panel_view(lines: Seq<PanelLine>) -> Seq<LineView> {
    lines.map_values(|l: PanelLine| line_view(l))
}

/// A heading line: text only, indexed under no node.
pub open spec fn heading(title: Seq<char>) -> LineView {
    (title, None, None)
}

/// `n`, but at most `cap`.
pub open spec fn capped(n: nat, cap: nat) -> nat {
    if n < cap {
        n
    } else {
        cap
    }
}

/// A line indexed under `key` alone.
pub open spec fn keyed(text: Seq<char>, key: PidNodeKey) -> LineView {
    (text, Some(node_key_view(key)), None)
}

fn heading_line(title: &str) -> (l: PanelLine)
    ensures
        line_view(l) == heading(title@),
{
    PanelLine { text: String::from_str(title), key: None, also: None }
}

fn push_line(lines: &mut Vec<PanelLine>, l: PanelLine)
    ensures
        panel_view(final(lines)@) == panel_view(old(lines)@).push(line_view(l)),
{
    let ghost before = lines@;
    lines.push(l);
    assert(panel_view(lines@) =~= panel_view(before).push(line_view(l)));
}

fn cap(n: usize, limit: usize) -> (r: usize)
    ensures
        r == capped(n as nat, limit as nat),
{
    if n < limit {
        n
    } else {
        limit
    }
}

/// `label [n]`-style text: `label`, then `open`, then `n` in decimal,
/// then `close`.
pub open spec fn counted(label: Seq<char>, open: Seq<char>, n: nat, close: Seq<char>) -> Seq<char> {
    label + open + dec_text(n) + close
}

fn counted_text(label: String, open: &str, n: u64, close: &str) -> (r: String)
    ensures
        r@ == counted(label@, open@, n as nat, close@),
{
    let mut r = label;
    push_str(&mut r, open);
    push_decimal(&mut r, n);
    push_str(&mut r, close);
    r
}

// ---------------------------------------------------------------------------
// Symbols
// ---------------------------------------------------------------------------

/// A symbol used by the drawing, as the preview lists it.
#[derive(Debug, Clone)]
pub struct PidSymbolEntry {
    pub symbol_name: Option<String>,
    pub symbol_path: String,
    pub usage_count: u64,
}

/// Most symbols the panel lists.
pub const SYMBOL_PANEL_ROWS: usize = 10;

pub open spec fn symbol_line(s: PidSymbolEntry) -> LineView {
    let label = match s.symbol_name {
        Some(n) => n@,
        None => short_text_spec(s.symbol_path@, 24),
    };
    keyed(counted(label, " ["@, s.usage_count as nat, "]"@), PidNodeKey::Symbol { symbol_path: s.symbol_path })
}

/// The Symbols panel: nothing when there are no symbols, else its heading
/// and a line `name [uses]` for each of the first symbols.
pub open spec fn symbol_panel(symbols: Seq<PidSymbolEntry>) -> Seq<LineView> {
    if symbols.len() == 0 {
        Seq::empty()
    } else {
        seq![heading("Symbols"@)] + Seq::new(
            capped(symbols.len(), SYMBOL_PANEL_ROWS as nat),
            |i: int| symbol_line(symbols[i]),
        )
    }
}

fn symbol_line_of(s: &PidSymbolEntry) -> (l: PanelLine)
    ensures
        line_view(l) == symbol_line(*s),
{
    let label = match &s.symbol_name {
        Some(n) => n.clone(),
        None => short_text(s.symbol_path.as_str(), 24),
    };
    PanelLine {
        text: counted_text(label, " [", s.usage_count, "]"),
        key: Some(PidNodeKey::Symbol { symbol_path: s.symbol_path.clone() }),
        also: None,
    }
}

/// The lines of the Symbols panel.
pub fn symbol_panel_lines(symbols: &Vec<PidSymbolEntry>) -> (r: Vec<PanelLine>)
    ensures
        panel_view(r@) == symbol_panel(symbols@),
{
    let mut r: Vec<PanelLine> = Vec::new();
    if symbols.len() == 0 {
        assert(panel_view(r@) =~= Seq::<LineView>::empty());
        return r;
    }
    push_line(&mut r, heading_line("Symbols"));
    let n = cap(symbols.len(), SYMBOL_PANEL_ROWS);
    let mut i: usize = 0;
    while i < n
        invariant
            n == capped(symbols@.len(), SYMBOL_PANEL_ROWS as nat),
            i <= n,
            panel_view(r@) == seq![heading("Symbols"@)] + Seq::new(i as nat, |j: int| symbol_line(symbols@[j])),
        decreases n - i,
    {
        push_line(&mut r, symbol_line_of(&symbols[i]));
        i += 1;
        assert(panel_view(r@) =~= seq![heading("Symbols"@)] + Seq::new(i as nat, |j: int| symbol_line(symbols@[j])));
    }
    r
}

// ---------------------------------------------------------------------------
// Clusters
// ---------------------------------------------------------------------------

/// A cluster of the drawing (a sheet, the coverage check, or another
/// grouping), as the preview lists it.
#[derive(Debug, Clone)]
pub struct PidClusterEntry {
    pub name: String,
    pub kind: String,
    pub record_count: u64,
    pub note: String,
}

/// Most clusters the panel lists.
pub const CLUSTER_PANEL_ROWS: usize = 12;

/// The node a cluster line stands for: its sheet, the cluster coverage, or
/// the cluster itself, by the cluster's kind.
pub open spec fn cluster_key(c: PidClusterEntry) -> PidNodeKey {
    if c.kind@ == "Sheet"@ {
        PidNodeKey::Sheet { name: c.name }
    } else if c.kind@ == "Coverage"@ {
        PidNodeKey::ClusterCoverage
    } else {
        PidNodeKey::Cluster { name: c.name }
    }
}

pub open spec fn cluster_line(c: PidClusterEntry) -> LineView {
    (
        counted(short_text_spec(c.name@, 24), " ["@, c.record_count as nat, "] "@) + short_text_spec(c.note@, 36),
        Some(node_key_view(cluster_key(c))),
        if c.kind@ == "Sheet"@ {
            Some(node_key_view(PidNodeKey::Stream { name: c.name }))
        } else {
            None
        },
    )
}

/// The Clusters / Sheets panel: nothing when there are no clusters, else
/// its heading and a line `name [records] note` for each of the first
/// clusters; a sheet's line is also indexed under the stream of that name.
pub open spec fn cluster_panel(clusters: Seq<PidClusterEntry>) -> Seq<LineView> {
    if clusters.len() == 0 {
        Seq::empty()
    } else {
        seq![heading("Clusters / Sheets"@)] + Seq::new(
            capped(clusters.len(), CLUSTER_PANEL_ROWS as nat),
            |i: int| cluster_line(clusters[i]),
        )
    }
}

fn cluster_line_of(c: &PidClusterEntry) -> (l: PanelLine)
    ensures
        line_view(l) == cluster_line(*c),
{
    let is_sheet = str_eq(c.kind.as_str(), "Sheet");
    let key = if is_sheet {
        PidNodeKey::Sheet { name: c.name.clone() }
    } else if str_eq(c.kind.as_str(), "Coverage") {
        PidNodeKey::ClusterCoverage
    } else {
        PidNodeKey::Cluster { name: c.name.clone() }
    };
    let mut text = counted_text(short_text(c.name.as_str(), 24), " [", c.record_count, "] ");
    push_str(&mut text, short_text(c.note.as_str(), 36).as_str());
    let also = if is_sheet {
        Some(PidNodeKey::Stream { name: c.name.clone() })
    } else {
        None
    };
    PanelLine { text, key: Some(key), also }
}

/// The lines of the Clusters / Sheets panel.
pub fn cluster_panel_lines(clusters: &Vec<PidClusterEntry>) -> (r: Vec<PanelLine>)
    ensures
        panel_view(r@) == cluster_panel(clusters@),
{
    let mut r: Vec<PanelLine> = Vec::new();
    if clusters.len() == 0 {
        assert(panel_view(r@) =~= Seq::<LineView>::empty());
        return r;
    }
    push_line(&mut r, heading_line("Clusters / Sheets"));
    let n = cap(clusters.len(), CLUSTER_PANEL_ROWS);
    let mut i: usize = 0;
    while i < n
        invariant
            n == capped(clusters@.len(), CLUSTER_PANEL_ROWS as nat),
            i <= n,
            panel_view(r@) == seq![heading("Clusters / Sheets"@)] + Seq::new(
                i as nat,
                |j: int| cluster_line(clusters@[j]),
            ),
        decreases n - i,
    {
        push_line(&mut r, cluster_line_of(&clusters[i]));
        i += 1;
        assert(panel_view(r@) =~= seq![heading("Clusters / Sheets"@)] + Seq::new(
            i as nat,
            |j: int| cluster_line(clusters@[j]),
        ));
    }
    r
}

// ---------------------------------------------------------------------------
// Cross reference
// ---------------------------------------------------------------------------

/// An attribute class of the drawing's cross reference.
#[derive(Debug, Clone)]
pub struct PidAttributeClassEntry {
    pub class_name: String,
    pub record_count: u64,
}

/// Whether a root named by the cross reference was found in the file.
#[derive(Debug, Clone)]
pub struct PidRootEntry {
    pub name: String,
    pub found_as_storage: bool,
    pub found_as_stream: bool,
}

/// What the preview shows of the drawing's cross reference: its attribute
/// classes, its roots, and how many clusters it declared that are missing
/// or found that it did not declare.
#[derive(Debug, Clone)]
pub struct PidCrossReferenceSummary {
    pub attribute_classes: Vec<PidAttributeClassEntry>,
    pub root_presence: Vec<PidRootEntry>,
    pub declared_missing: usize,
    pub found_extra: usize,
}

/// Most attribute classes the Cross Reference panel lists.
pub const CLASS_PANEL_ROWS: usize = 8;

/// Most roots the Cross Reference panel lists.
pub const ROOT_PANEL_ROWS: usize = 6;

pub open spec fn class_line(c: PidAttributeClassEntry) -> LineView {
    keyed(
        counted(short_text_spec(c.class_name@, 26), " ["@, c.record_count as nat, " records]"@),
        PidNodeKey::AttributeClass { class_name: c.class_name },
    )
}

pub open spec fn root_line(r: PidRootEntry) -> LineView {
    keyed(
        "root "@ + short_text_spec(r.name@, 24) + " ["@ + (if r.found_as_storage || r.found_as_stream {
            "ok"@
        } else {
            "missing"@
        }) + "]"@,
        PidNodeKey::Root { name: r.name },
    )
}

/// The coverage line, `prefix` then the missing and extra counts, when
/// either count is not zero.
pub open spec fn coverage_lines(prefix: Seq<char>, missing: nat, extra: nat) -> Seq<LineView> {
    if missing > 0 || extra > 0 {
        seq![
            keyed(
                prefix + "missing="@ + dec_text(missing) + " extra="@ + dec_text(extra),
                PidNodeKey::ClusterCoverage,
            ),
        ]
    } else {
        Seq::empty()
    }
}

/// The Cross Reference panel: nothing without a cross reference or when it
/// lists nothing, else its heading, a line per attribute class and per
/// root (each capped), and the coverage line.
pub open spec fn cross_reference_panel(cross: Option<PidCrossReferenceSummary>) -> Seq<LineView> {
    match cross {
        None => Seq::empty(),
        Some(c) => if c.attribute_classes@.len() == 0 && c.root_presence@.len() == 0 && c.declared_missing == 0
            && c.found_extra == 0 {
            Seq::empty()
        } else {
            seq![heading("Cross Reference"@)] + Seq::new(
                capped(c.attribute_classes@.len(), CLASS_PANEL_ROWS as nat),
                |i: int| class_line(c.attribute_classes@[i]),
            ) + Seq::new(
                capped(c.root_presence@.len(), ROOT_PANEL_ROWS as nat),
                |i: int| root_line(c.root_presence@[i]),
            ) + coverage_lines("coverage "@, c.declared_missing as nat, c.found_extra as nat)
        },
    }
}

fn class_line_of(c: &PidAttributeClassEntry) -> (l: PanelLine)
    ensures
        line_view(l) == class_line(*c),
{
    PanelLine {
        text: counted_text(short_text(c.class_name.as_str(), 26), " [", c.record_count, " records]"),
        key: Some(PidNodeKey::AttributeClass { class_name: c.class_name.clone() }),
        also: None,
    }
}

fn root_line_of(r: &PidRootEntry) -> (l: PanelLine)
    ensures
        line_view(l) == root_line(*r),
{
    let mut text = String::from_str("root ");
    push_str(&mut text, short_text(r.name.as_str(), 24).as_str());
    push_str(&mut text, " [");
    if r.found_as_storage || r.found_as_stream {
        push_str(&mut text, "ok");
    } else {
        push_str(&mut text, "missing");
    }
    push_str(&mut text, "]");
    PanelLine { text, key: Some(PidNodeKey::Root { name: r.name.clone() }), also: None }
}

fn push_coverage_line(lines: &mut Vec<PanelLine>, prefix: &str, missing: usize, extra: usize)
    ensures
        panel_view(final(lines)@) == panel_view(old(lines)@) + coverage_lines(prefix@, missing as nat, extra as nat),
{
    if missing > 0 || extra > 0 {
        let mut text = String::from_str(prefix);
        push_str(&mut text, "missing=");
        push_decimal(&mut text, missing as u64);
        push_str(&mut text, " extra=");
        push_decimal(&mut text, extra as u64);
        push_line(lines, PanelLine { text, key: Some(PidNodeKey::ClusterCoverage), also: None });
    } else {
        assert(panel_view(lines@) =~= panel_view(lines@) + Seq::<LineView>::empty());
    }
}

/// The lines of the Cross Reference panel.
pub fn cross_reference_panel_lines(cross: &Option<PidCrossReferenceSummary>) -> (r: Vec<PanelLine>)
    ensures
        panel_view(r@) == cross_reference_panel(*cross),
{
    let mut r: Vec<PanelLine> = Vec::new();
    let c = match cross {
        None => {
            assert(panel_view(r@) =~= Seq::<LineView>::empty());
            return r;
        },
        Some(c) => c,
    };
    if c.attribute_classes.len() == 0 && c.root_presence.len() == 0 && c.declared_missing == 0 && c.found_extra
        == 0 {
        assert(panel_view(r@) =~= Seq::<LineView>::empty());
        return r;
    }
    push_line(&mut r, heading_line("Cross Reference"));
    let ghost head = seq![heading("Cross Reference"@)];
    let n = cap(c.attribute_classes.len(), CLASS_PANEL_ROWS);
    let mut i: usize = 0;
    while i < n
        invariant
            n == capped(c.attribute_classes@.len(), CLASS_PANEL_ROWS as nat),
            i <= n,
            panel_view(r@) == head + Seq::new(i as nat, |j: int| class_line(c.attribute_classes@[j])),
        decreases n - i,
    {
        push_line(&mut r, class_line_of(&c.attribute_classes[i]));
        i += 1;
        assert(panel_view(r@) =~= head + Seq::new(i as nat, |j: int| class_line(c.attribute_classes@[j])));
    }
    let ghost classes = Seq::new(n as nat, |j: int| class_line(c.attribute_classes@[j]));
    let m = cap(c.root_presence.len(), ROOT_PANEL_ROWS);
    let mut k: usize = 0;
    assert(panel_view(r@) =~= head + classes + Seq::new(0, |j: int| root_line(c.root_presence@[j])));
    while k < m
        invariant
            m == capped(c.root_presence@.len(), ROOT_PANEL_ROWS as nat),
            k <= m,
            panel_view(r@) == head + classes + Seq::new(k as nat, |j: int| root_line(c.root_presence@[j])),
        decreases m - k,
    {
        push_line(&mut r, root_line_of(&c.root_presence[k]));
        k += 1;
        assert(panel_view(r@) =~= head + classes + Seq::new(k as nat, |j: int| root_line(c.root_presence@[j])));
    }
    push_coverage_line(&mut r, "coverage ", c.declared_missing, c.found_extra);
    r
}

// ---------------------------------------------------------------------------
// Streams
// ---------------------------------------------------------------------------

/// A sheet stream of the drawing and how many endpoint records it holds.
#[derive(Debug, Clone)]
pub struct PidSheetEntry {
    pub name: String,
    pub endpoint_count: usize,
}

/// Most sheet streams the Streams panel lists.
pub const SHEET_PANEL_ROWS: usize = 8;

/// Most tagged-text storages the Streams panel lists.
pub const TAGGED_PANEL_ROWS: usize = 6;

pub open spec fn sheet_line(s: PidSheetEntry) -> LineView {
    (
        counted(short_text_spec(s.name@, 28), " ["@, s.endpoint_count as nat, " endpoints]"@),
        Some(node_key_view(PidNodeKey::Stream { name: s.name })),
        Some(node_key_view(PidNodeKey::Sheet { name: s.name })),
    )
}

pub open spec fn tagged_line(storage: String) -> LineView {
    keyed("TaggedText "@ + short_text_spec(storage@, 26), PidNodeKey::TaggedStorage { storage_name: storage })
}

/// Whether the drawing has anything the Streams panel shows.
pub open spec fn has_streams(
    dynamic_records: Option<usize>,
    sheets: Seq<PidSheetEntry>,
    tagged: Option<Seq<String>>,
    cross: Option<PidCrossReferenceSummary>,
) -> bool {
    sheets.len() > 0 || dynamic_records is Some || (tagged matches Some(t) && t.len() > 0) || cross is Some
}

/// The Streams panel: nothing when the drawing has no sheet streams,
/// dynamic attributes, tagged text or cross reference; else its heading,
/// the dynamic-attribute line, a line per sheet and per tagged storage
/// (each capped; a sheet's line is also indexed under the sheet), and the
/// cluster-coverage line.
pub open spec fn stream_panel(
    dynamic_records: Option<usize>,
    sheets: Seq<PidSheetEntry>,
    tagged: Option<Seq<String>>,
    cross: Option<PidCrossReferenceSummary>,
) -> Seq<LineView> {
    if !has_streams(dynamic_records, sheets, tagged, cross) {
        Seq::empty()
    } else {
        seq![heading("Streams"@)] + (match dynamic_records {
            Some(n) => seq![keyed(counted("DynamicAttrs"@, " ["@, n as nat, " records]"@), PidNodeKey::DynamicAttributes)],
            None => Seq::empty(),
        }) + Seq::new(capped(sheets.len(), SHEET_PANEL_ROWS as nat), |i: int| sheet_line(sheets[i])) + (match tagged {
            Some(t) => Seq::new(capped(t.len(), TAGGED_PANEL_ROWS as nat), |i: int| tagged_line(t[i])),
            None => Seq::empty(),
        }) + (match cross {
            Some(c) => coverage_lines("ClusterCoverage "@, c.declared_missing as nat, c.found_extra as nat),
            None => Seq::empty(),
        })
    }
}

pub open spec fn opt_vec_view(v: Option<Vec<String>>) -> Option<Seq<String>> {
    match v {
        Some(v) => Some(v@),
        None => None,
    }
}

fn sheet_line_of(s: &PidSheetEntry) -> (l: PanelLine)
    ensures
        line_view(l) == sheet_line(*s),
{
    PanelLine {
        text: counted_text(short_text(s.name.as_str(), 28), " [", s.endpoint_count as u64, " endpoints]"),
        key: Some(PidNodeKey::Stream { name: s.name.clone() }),
        also: Some(PidNodeKey::Sheet { name: s.name.clone() }),
    }
}

fn tagged_line_of(storage: &String) -> (l: PanelLine)
    ensures
        line_view(l) == tagged_line(*storage),
{
    let mut text = String::from_str("TaggedText ");
    push_str(&mut text, short_text(storage.as_str(), 26).as_str());
    PanelLine { text, key: Some(PidNodeKey::TaggedStorage { storage_name: storage.clone() }), also: None }
}

/// The lines of the Streams panel.
pub fn stream_panel_lines(
    dynamic_records: Option<usize>,
    sheets: &Vec<PidSheetEntry>,
    tagged: &Option<Vec<String>>,
    cross: &Option<PidCrossReferenceSummary>,
) -> (r: Vec<PanelLine>)
    ensures
        panel_view(r@) == stream_panel(dynamic_records, sheets@, opt_vec_view(*tagged), *cross),
{
    let mut r: Vec<PanelLine> = Vec::new();
    let any_tagged = match tagged {
        Some(t) => t.len() > 0,
        None => false,
    };
    if !(sheets.len() > 0 || dynamic_records.is_some() || any_tagged || cross.is_some()) {
        assert(panel_view(r@) =~= Seq::<LineView>::empty());
        return r;
    }
    push_line(&mut r, heading_line("Streams"));
    let ghost head = seq![heading("Streams"@)];
    match dynamic_records {
        Some(n) => {
            push_line(
                &mut r,
                PanelLine {
                    text: counted_text(String::from_str("DynamicAttrs"), " [", n as u64, " records]"),
                    key: Some(PidNodeKey::DynamicAttributes),
                    also: None,
                },
            );
        },
        None => {},
    }
    let ghost dynamic_lines = match dynamic_records {
        Some(n) => seq![keyed(counted("DynamicAttrs"@, " ["@, n as nat, " records]"@), PidNodeKey::DynamicAttributes)],
        None => Seq::<LineView>::empty(),
    };
    assert(panel_view(r@) =~= head + dynamic_lines + Seq::new(0, |j: int| sheet_line(sheets@[j])));
    let n = cap(sheets.len(), SHEET_PANEL_ROWS);
    let mut i: usize = 0;
    while i < n
        invariant
            n == capped(sheets@.len(), SHEET_PANEL_ROWS as nat),
            i <= n,
            panel_view(r@) == head + dynamic_lines + Seq::new(i as nat, |j: int| sheet_line(sheets@[j])),
        decreases n - i,
    {
        push_line(&mut r, sheet_line_of(&sheets[i]));
        i += 1;
        assert(panel_view(r@) =~= head + dynamic_lines + Seq::new(i as nat, |j: int| sheet_line(sheets@[j])));
    }
    let ghost before_tagged = head + dynamic_lines + Seq::new(n as nat, |j: int| sheet_line(sheets@[j]));
    match tagged {
        Some(t) => {
            let m = cap(t.len(), TAGGED_PANEL_ROWS);
            let mut k: usize = 0;
            assert(panel_view(r@) =~= before_tagged + Seq::new(0, |j: int| tagged_line(t@[j])));
            while k < m
                invariant
                    m == capped(t@.len(), TAGGED_PANEL_ROWS as nat),
                    k <= m,
                    panel_view(r@) == before_tagged + Seq::new(k as nat, |j: int| tagged_line(t@[j])),
                decreases m - k,
            {
                push_line(&mut r, tagged_line_of(&t[k]));
                k += 1;
                assert(panel_view(r@) =~= before_tagged + Seq::new(k as nat, |j: int| tagged_line(t@[j])));
            }
        },
        None => {
            assert(panel_view(r@) =~= before_tagged + Seq::<LineView>::empty());
        },
    }
    match cross {
        Some(c) => {
            push_coverage_line(&mut r, "ClusterCoverage ", c.declared_missing, c.found_extra);
        },
        None => {
            assert(panel_view(r@) =~= panel_view(r@) + Seq::<LineView>::empty());
        },
    }
    r
}

// ---------------------------------------------------------------------------
// Unresolved
// ---------------------------------------------------------------------------

/// Most unresolved notes the Unresolved panel lists.
pub const UNRESOLVED_PANEL_ROWS: usize = 8;

pub open spec fn edge_count_text(edges: nat) -> Seq<char> {
    dec_text(edges) + " unresolved relationship edge(s)"@
}

pub open spec fn unresolved_line(note: String) -> LineView {
    keyed(short_text_spec(note@, 72), PidNodeKey::Unresolved { label: note })
}

/// The Unresolved panel: nothing when there are no unresolved notes and no
/// unresolved relationship edges; else its heading, the edge-count line
/// (when there are such edges) and a line for each of the first notes.
pub open spec fn unresolved_panel(notes: Seq<String>, unresolved_edges: usize) -> Seq<LineView> {
    if notes.len() == 0 && unresolved_edges == 0 {
        Seq::empty()
    } else {
        seq![heading("Unresolved"@)] + (if unresolved_edges > 0 {
            seq![(
                edge_count_text(unresolved_edges as nat),
                Some((12u8, edge_count_text(unresolved_edges as nat))),
                None,
            )]
        } else {
            Seq::empty()
        }) + Seq::new(capped(notes.len(), UNRESOLVED_PANEL_ROWS as nat), |i: int| unresolved_line(notes[i]))
    }
}

fn unresolved_line_of(note: &String) -> (l: PanelLine)
    ensures
        line_view(l) == unresolved_line(*note),
{
    PanelLine {
        text: short_text(note.as_str(), 72),
        key: Some(PidNodeKey::Unresolved { label: note.clone() }),
        also: None,
    }
}

/// The lines of the Unresolved panel, from the import's unresolved notes
/// and the number of relationships that could not be drawn.
pub fn unresolved_panel_lines(notes: &Vec<String>, unresolved_edges: usize) -> (r: Vec<PanelLine>)
    ensures
        panel_view(r@) == unresolved_panel(notes@, unresolved_edges),
{
    let mut r: Vec<PanelLine> = Vec::new();
    if notes.len() == 0 && unresolved_edges == 0 {
        assert(panel_view(r@) =~= Seq::<LineView>::empty());
        return r;
    }
    push_line(&mut r, heading_line("Unresolved"));
    let ghost head = seq![heading("Unresolved"@)];
    if unresolved_edges > 0 {
        let mut label = String::new();
        push_decimal(&mut label, unresolved_edges as u64);
        push_str(&mut label, " unresolved relationship edge(s)");
        let text = label.clone();
        push_line(&mut r, PanelLine { text, key: Some(PidNodeKey::Unresolved { label }), also: None });
    }
    let ghost edge_lines = if unresolved_edges > 0 {
        seq![(
            edge_count_text(unresolved_edges as nat),
            Some((12u8, edge_count_text(unresolved_edges as nat))),
            None,
        )]
    } else {
        Seq::<LineView>::empty()
    };
    assert(panel_view(r@) =~= head + edge_lines + Seq::new(0, |j: int| unresolved_line(notes@[j])));
    let n = cap(notes.len(), UNRESOLVED_PANEL_ROWS);
    let mut i: usize = 0;
    while i < n
        invariant
            n == capped(notes@.len(), UNRESOLVED_PANEL_ROWS as nat),
            i <= n,
            panel_view(r@) == head + edge_lines + Seq::new(i as nat, |j: int| unresolved_line(notes@[j])),
        decreases n - i,
    {
        push_line(&mut r, unresolved_line_of(&notes[i]));
        i += 1;
        assert(panel_view(r@) =~= head + edge_lines + Seq::new(i as nat, |j: int| unresolved_line(notes@[j])));
    }
    r
}

// ---------------------------------------------------------------------------
// Overview
// ---------------------------------------------------------------------------

/// The note under the overview panel naming where the drawing came from.
pub const PID_SOURCE_NOTE: &'static str = "Imported from Smart P&ID via pid-parse";

/// The counts line of the overview panel.
pub open spec fn overview_counts(
    objects: usize,
    relationships: usize,
    symbols: usize,
    clusters: usize,
    unresolved: usize,
) -> Seq<char> {
    "objects="@ + dec_text(objects as nat) + " relationships="@ + dec_text(relationships as nat) + " symbols="@
        + dec_text(symbols as nat) + " clusters="@ + dec_text(clusters as nat) + " unresolved="@ + dec_text(
        unresolved as nat,
    )
}

/// The overview panel's text: the title, the project number line when there
/// is one, and the counts line, separated by MText paragraph breaks.
pub open spec fn overview_text(
    title: Seq<char>,
    project_number: Option<String>,
    counts: Seq<char>,
) -> Seq<char> {
    title + (match project_number {
        Some(p) => "\\P"@ + "project="@ + p@,
        None => Seq::empty(),
    }) + "\\P"@ + counts
}

/// The overview panel's text for a drawing with `title` and
/// `project_number`, listing how many objects, relationships, symbols,
/// clusters and unresolved notes the import found.
pub fn overview_panel_text(
    title: &str,
    project_number: &Option<String>,
    objects: usize,
    relationships: usize,
    symbols: usize,
    clusters: usize,
    unresolved: usize,
) -> (r: String)
    ensures
        r@ == overview_text(
            title@,
            *project_number,
            overview_counts(objects, relationships, symbols, clusters, unresolved),
        ),
{
    let mut r = String::from_str(title);
    match project_number {
        Some(p) => {
            push_str(&mut r, "\\P");
            push_str(&mut r, "project=");
            push_str(&mut r, p.as_str());
        },
        None => {},
    }
    push_str(&mut r, "\\P");
    push_str(&mut r, "objects=");
    push_decimal(&mut r, objects as u64);
    push_str(&mut r, " relationships=");
    push_decimal(&mut r, relationships as u64);
    push_str(&mut r, " symbols=");
    push_decimal(&mut r, symbols as u64);
    push_str(&mut r, " clusters=");
    push_decimal(&mut r, clusters as u64);
    push_str(&mut r, " unresolved=");
    push_decimal(&mut r, unresolved as u64);
    r
}

} // verus!
