//! Decisions of the PID layout preview that do not depend on geometry:
//! which glyph a layout item is drawn with, and how many relationships
//! could not be drawn because an end was never placed.

use vstd::prelude::*;
use crate::pid_panels::{heading, line_view, panel_view, LineView, PanelLine};
use crate::pid_report::{sanitize_layer_name, short_id, short_id_spec, short_text, short_text_spec, layer_char, PidNodeKey};
use crate::preview_index::node_key_view;
use crate::string_map::{is_sorted_listing, StringMap};
use crate::text::{join_strings, join_with, push_str, str_eq};

verus! {

/// The shape a layout item of the PID preview is drawn with.
#[derive(Debug, Clone, Copy, PartialEq, Eq, Structural)]
pub enum LayoutGlyphKind {
    Pipeline,
    Branch,
    Connector,
    ProcessPoint,
    Instrument,
    Equipment,
    Vessel,
    Note,
    Nozzle,
    OffPageConnector,
    PipingComponent,
    Generic,
}

/// The glyph for a layout item whose semantic name (its symbol name, or
/// its kind when it has none) is `s`.
pub open spec fn glyph_kind_of(s: Seq<char>) -> LayoutGlyphKind {
    if s == "Pipeline"@ || s == "PIDPipeline"@ || s == "PipeRun"@ {
        LayoutGlyphKind::Pipeline
    } else if s == "Branch"@ || s == "PIDPipingBranchPoint"@ || s == "PIDBranchPoint"@ {
        LayoutGlyphKind::Branch
    } else if s == "Connector"@ || s == "PIDPipingConnector"@ {
        LayoutGlyphKind::Connector
    } else if s == "ProcessPoint"@ || s == "PIDProcessPoint"@ {
        LayoutGlyphKind::ProcessPoint
    } else if s == "Instrument"@ || s == "PIDInstrument"@ || s == "PIDControlSystemFunction"@ {
        LayoutGlyphKind::Instrument
    } else if s == "Equipment"@ || s == "PIDEquipment"@ {
        LayoutGlyphKind::Equipment
    } else if s == "Vessel"@ || s == "PIDProcessVessel"@ {
        LayoutGlyphKind::Vessel
    } else if s == "Note"@ || s == "PIDNote"@ || s == "ItemNote"@ {
        LayoutGlyphKind::Note
    } else if s == "Nozzle"@ || s == "PIDNozzle"@ || s == "PipingPort"@ || s == "SignalPort"@
        || s == "PIDPipingPort"@ || s == "PIDSignalPort"@ {
        LayoutGlyphKind::Nozzle
    } else if s == "OffPageConnector"@ || s == "PIDSignalConnector"@ || s == "OPC"@ {
        LayoutGlyphKind::OffPageConnector
    } else if s == "PipingComponent"@ || s == "PIDPipingComponent"@ || s == "PipingComp"@ {
        LayoutGlyphKind::PipingComponent
    } else {
        LayoutGlyphKind::Generic
    }
}

/// Every SPPID item-type name (and short alias) of the glyph table is
/// drawn with its own glyph: pipelines, branch points, connectors,
/// process points, instruments (including control-system functions),
/// equipment, vessels, notes, nozzles and ports, off-page connectors and
/// piping components.
pub proof fn lemma_glyph_table()
    ensures
        glyph_kind_of("Pipeline"@) == LayoutGlyphKind::Pipeline,
        glyph_kind_of("PIDPipeline"@) == LayoutGlyphKind::Pipeline,
        glyph_kind_of("PipeRun"@) == LayoutGlyphKind::Pipeline,
        glyph_kind_of("Branch"@) == LayoutGlyphKind::Branch,
        glyph_kind_of("PIDPipingBranchPoint"@) == LayoutGlyphKind::Branch,
        glyph_kind_of("PIDBranchPoint"@) == LayoutGlyphKind::Branch,
        glyph_kind_of("Connector"@) == LayoutGlyphKind::Connector,
        glyph_kind_of("PIDPipingConnector"@) == LayoutGlyphKind::Connector,
        glyph_kind_of("ProcessPoint"@) == LayoutGlyphKind::ProcessPoint,
        glyph_kind_of("PIDProcessPoint"@) == LayoutGlyphKind::ProcessPoint,
        glyph_kind_of("Instrument"@) == LayoutGlyphKind::Instrument,
        glyph_kind_of("PIDInstrument"@) == LayoutGlyphKind::Instrument,
        glyph_kind_of("PIDControlSystemFunction"@) == LayoutGlyphKind::Instrument,
        glyph_kind_of("Equipment"@) == LayoutGlyphKind::Equipment,
        glyph_kind_of("PIDEquipment"@) == LayoutGlyphKind::Equipment,
        glyph_kind_of("Vessel"@) == LayoutGlyphKind::Vessel,
        glyph_kind_of("PIDProcessVessel"@) == LayoutGlyphKind::Vessel,
        glyph_kind_of("Note"@) == LayoutGlyphKind::Note,
        glyph_kind_of("PIDNote"@) == LayoutGlyphKind::Note,
        glyph_kind_of("ItemNote"@) == LayoutGlyphKind::Note,
        glyph_kind_of("Nozzle"@) == LayoutGlyphKind::Nozzle,
        glyph_kind_of("PIDNozzle"@) == LayoutGlyphKind::Nozzle,
        glyph_kind_of("PipingPort"@) == LayoutGlyphKind::Nozzle,
        glyph_kind_of("SignalPort"@) == LayoutGlyphKind::Nozzle,
        glyph_kind_of("PIDPipingPort"@) == LayoutGlyphKind::Nozzle,
        glyph_kind_of("PIDSignalPort"@) == LayoutGlyphKind::Nozzle,
        glyph_kind_of("OffPageConnector"@) == LayoutGlyphKind::OffPageConnector,
        glyph_kind_of("PIDSignalConnector"@) == LayoutGlyphKind::OffPageConnector,
        glyph_kind_of("OPC"@) == LayoutGlyphKind::OffPageConnector,
        glyph_kind_of("PipingComponent"@) == LayoutGlyphKind::PipingComponent,
        glyph_kind_of("PIDPipingComponent"@) == LayoutGlyphKind::PipingComponent,
        glyph_kind_of("PipingComp"@) == LayoutGlyphKind::PipingComponent,
{
    reveal_strlit("Pipeline");
    reveal_strlit("PIDPipeline");
    reveal_strlit("PipeRun");
    reveal_strlit("Branch");
    reveal_strlit("PIDPipingBranchPoint");
    reveal_strlit("PIDBranchPoint");
    reveal_strlit("Connector");
    reveal_strlit("PIDPipingConnector");
    reveal_strlit("ProcessPoint");
    reveal_strlit("PIDProcessPoint");
    reveal_strlit("Instrument");
    reveal_strlit("PIDInstrument");
    reveal_strlit("PIDControlSystemFunction");
    reveal_strlit("Equipment");
    reveal_strlit("PIDEquipment");
    reveal_strlit("Vessel");
    reveal_strlit("PIDProcessVessel");
    reveal_strlit("Note");
    reveal_strlit("PIDNote");
    reveal_strlit("ItemNote");
    reveal_strlit("Nozzle");
    reveal_strlit("PIDNozzle");
    reveal_strlit("PipingPort");
    reveal_strlit("SignalPort");
    reveal_strlit("PIDPipingPort");
    reveal_strlit("PIDSignalPort");
    reveal_strlit("OffPageConnector");
    reveal_strlit("PIDSignalConnector");
    reveal_strlit("OPC");
    reveal_strlit("PipingComponent");
    reveal_strlit("PIDPipingComponent");
    reveal_strlit("PipingComp");
    assert("Pipeline"@.len() == 8);
    assert("PIDPipeline"@.len() == 11);
    assert("PipeRun"@.len() == 7);
    assert("Branch"@.len() == 6);
    assert("PIDPipingBranchPoint"@.len() == 20);
    assert("PIDBranchPoint"@.len() == 14);
    assert("Connector"@.len() == 9);
    assert("PIDPipingConnector"@.len() == 18);
    assert("ProcessPoint"@.len() == 12);
    assert("PIDProcessPoint"@.len() == 15);
    assert("Instrument"@.len() == 10);
    assert("PIDInstrument"@.len() == 13);
    assert("PIDControlSystemFunction"@.len() == 24);
    assert("Equipment"@.len() == 9);
    assert("PIDEquipment"@.len() == 12);
    assert("Vessel"@.len() == 6);
    assert("PIDProcessVessel"@.len() == 16);
    assert("Note"@.len() == 4);
    assert("PIDNote"@.len() == 7);
    assert("ItemNote"@.len() == 8);
    assert("Nozzle"@.len() == 6);
    assert("PIDNozzle"@.len() == 9);
    assert("PipingPort"@.len() == 10);
    assert("SignalPort"@.len() == 10);
    assert("PIDPipingPort"@.len() == 13);
    assert("PIDSignalPort"@.len() == 13);
    assert("OffPageConnector"@.len() == 16);
    assert("PIDSignalConnector"@.len() == 18);
    assert("OPC"@.len() == 3);
    assert("PipingComponent"@.len() == 15);
    assert("PIDPipingComponent"@.len() == 18);
    assert("PipingComp"@.len() == 10);
    assert("Equipment"@[0] != "Connector"@[0]);
    assert("PIDEquipment"@[1] != "ProcessPoint"@[1]);
    assert("Vessel"@[0] != "Branch"@[0]);
    assert("PIDNote"@[1] != "PipeRun"@[1]);
    assert("ItemNote"@[0] != "Pipeline"@[0]);
    assert("Nozzle"@[0] != "Branch"@[0]);
    assert("Nozzle"@[0] != "Vessel"@[0]);
    assert("PIDNozzle"@[0] != "Connector"@[0]);
    assert("PIDNozzle"@[0] != "Equipment"@[0]);
    assert("PipingPort"@[0] != "Instrument"@[0]);
    assert("SignalPort"@[0] != "Instrument"@[0]);
    assert("PIDPipingPort"@[3] != "PIDInstrument"@[3]);
    assert("PIDSignalPort"@[3] != "PIDInstrument"@[3]);
    assert("OffPageConnector"@[0] != "PIDProcessVessel"@[0]);
    assert("PIDSignalConnector"@[3] != "PIDPipingConnector"@[3]);
    assert("PipingComponent"@[1] != "PIDProcessPoint"@[1]);
    assert("PIDPipingComponent"@[11] != "PIDPipingConnector"@[11]);
    assert("PIDPipingComponent"@[3] != "PIDSignalConnector"@[3]);
    assert("PipingComp"@[0] != "Instrument"@[0]);
    assert("PipingComp"@[6] != "PipingPort"@[6]);
    assert("PipingComp"@[0] != "SignalPort"@[0]);
}

/// A name outside the glyph table is drawn with the generic glyph.
pub proof fn lemma_glyph_other_names(s: Seq<char>)
    requires
        s != "Pipeline"@ && s != "PIDPipeline"@ && s != "PipeRun"@ && s != "Branch"@ &&
            s != "PIDPipingBranchPoint"@ && s != "PIDBranchPoint"@ && s != "Connector"@ &&
            s != "PIDPipingConnector"@ && s != "ProcessPoint"@ && s != "PIDProcessPoint"@ &&
            s != "Instrument"@ && s != "PIDInstrument"@ && s != "PIDControlSystemFunction"@ &&
            s != "Equipment"@ && s != "PIDEquipment"@ && s != "Vessel"@ &&
            s != "PIDProcessVessel"@ && s != "Note"@ && s != "PIDNote"@ && s != "ItemNote"@ &&
            s != "Nozzle"@ && s != "PIDNozzle"@ && s != "PipingPort"@ && s != "SignalPort"@ &&
            s != "PIDPipingPort"@ && s != "PIDSignalPort"@ && s != "OffPageConnector"@ &&
            s != "PIDSignalConnector"@ && s != "OPC"@ && s != "PipingComponent"@ &&
            s != "PIDPipingComponent"@ && s != "PipingComp"@,
    ensures
        glyph_kind_of(s) == LayoutGlyphKind::Generic,
{
}

/// The name a layout item is classified by: its symbol name when it has
/// one, else its kind.
pub open spec fn semantic_name(symbol_name: Option<String>, kind: Seq<char>) -> Seq<char> {
    match symbol_name {
        Some(s) => s@,
        None => kind,
    }
}

/// Whether `s` is one of `names`.
fn is_one_of(s: &str, names: &[&str]) -> (r: bool)
    ensures
        r == exists|i: int| 0 <= i < names@.len() && s@ == (#[trigger] names@[i])@,
{
    let mut i: usize = 0;
    while i < names.len()
        invariant
            i <= names@.len(),
            forall|j: int| 0 <= j < i ==> s@ != (#[trigger] names@[j])@,
        decreases names.len() - i,
    {
        if str_eq(s, names[i]) {
            return true;
        }
        i += 1;
    }
    false
}

/// The glyph a layout item is drawn with, from its symbol name and kind.
pub fn classify_layout_glyph(symbol_name: &Option<String>, kind: &str) -> (g: LayoutGlyphKind)
    ensures
        g == glyph_kind_of(semantic_name(*symbol_name, kind@)),
{
    let semantic: &str = match symbol_name {
        Some(s) => s.as_str(),
        None => kind,
    };
    let pipeline = ["Pipeline", "PIDPipeline", "PipeRun"];
    let branch = ["Branch", "PIDPipingBranchPoint", "PIDBranchPoint"];
    let connector = ["Connector", "PIDPipingConnector"];
    let process_point = ["ProcessPoint", "PIDProcessPoint"];
    let instrument = ["Instrument", "PIDInstrument", "PIDControlSystemFunction"];
    let equipment = ["Equipment", "PIDEquipment"];
    let vessel = ["Vessel", "PIDProcessVessel"];
    let note = ["Note", "PIDNote", "ItemNote"];
    let nozzle = ["Nozzle", "PIDNozzle", "PipingPort", "SignalPort", "PIDPipingPort", "PIDSignalPort"];
    let off_page = ["OffPageConnector", "PIDSignalConnector", "OPC"];
    let piping = ["PipingComponent", "PIDPipingComponent", "PipingComp"];
    let r = if is_one_of(semantic, &pipeline) {
        LayoutGlyphKind::Pipeline
    } else if is_one_of(semantic, &branch) {
        LayoutGlyphKind::Branch
    } else if is_one_of(semantic, &connector) {
        LayoutGlyphKind::Connector
    } else if is_one_of(semantic, &process_point) {
        LayoutGlyphKind::ProcessPoint
    } else if is_one_of(semantic, &instrument) {
        LayoutGlyphKind::Instrument
    } else if is_one_of(semantic, &equipment) {
        LayoutGlyphKind::Equipment
    } else if is_one_of(semantic, &vessel) {
        LayoutGlyphKind::Vessel
    } else if is_one_of(semantic, &note) {
        LayoutGlyphKind::Note
    } else if is_one_of(semantic, &nozzle) {
        LayoutGlyphKind::Nozzle
    } else if is_one_of(semantic, &off_page) {
        LayoutGlyphKind::OffPageConnector
    } else if is_one_of(semantic, &piping) {
        LayoutGlyphKind::PipingComponent
    } else {
        LayoutGlyphKind::Generic
    };
    r
}

/// Whether the relationship end `end` names a drawing id among `placed`.
pub open spec fn end_placed(placed: Seq<String>, end: Option<String>) -> bool {
    match end {
        Some(id) => exists|i: int| 0 <= i < placed.len() && (#[trigger] placed[i])@ == id@,
        None => false,
    }
}

/// How many of `rels`, each a (source, target) pair of drawing ids, have
/// an end that is missing or was never placed.
pub open spec fn unresolved_count(rels: Seq<(Option<String>, Option<String>)>, placed: Seq<String>) -> nat
    decreases rels.len(),
{
    if rels.len() == 0 {
        0
    } else {
        let last = rels.last();
        unresolved_count(rels.drop_last(), placed) + (if end_placed(placed, last.0) && end_placed(placed, last.1) {
            0nat
        } else {
            1nat
        })
    }
}

/// Whether `id` is one of `placed`.
fn contains_id(placed: &Vec<String>, id: &str) -> (r: bool)
    ensures
        r == exists|i: int| 0 <= i < placed@.len() && (#[trigger] placed@[i])@ == id@,
{
    let mut i: usize = 0;
    while i < placed.len()
        invariant
            i <= placed@.len(),
            forall|j: int| 0 <= j < i ==> (#[trigger] placed@[j])@ != id@,
        decreases placed.len() - i,
    {
        if str_eq(placed[i].as_str(), id) {
            assert((placed@[i as int])@ == id@);
            return true;
        }
        i += 1;
    }
    false
}

/// Whether `end` names a drawing id among `placed`.
fn is_placed(placed: &Vec<String>, end: &Option<String>) -> (r: bool)
    ensures
        r == end_placed(placed@, *end),
{
    match end {
        None => false,
        Some(id) => contains_id(placed, id.as_str()),
    }
}

/// The number of relationships, given as (source, target) drawing ids,
/// that cannot be drawn because an end is missing or was not placed in the
/// layout; `placed` holds the drawing ids that were given a position.
pub fn count_unresolved_relationships(rels: &Vec<(Option<String>, Option<String>)>, placed: &Vec<String>) -> (n: usize)
    ensures
        n == unresolved_count(rels@, placed@),
{
    let mut n: usize = 0;
    let mut i: usize = 0;
    while i < rels.len()
        invariant
            i <= rels@.len(),
            n == unresolved_count(rels@.take(i as int), placed@),
            n <= i,
        decreases rels.len() - i,
    {
        let source_placed = is_placed(placed, &rels[i].0);
        let target_placed = is_placed(placed, &rels[i].1);
        assert(rels@.take(i as int + 1).drop_last() =~= rels@.take(i as int));
        if !(source_placed && target_placed) {
            n += 1;
        }
        i += 1;
    }
    assert(rels@.take(rels@.len() as int) =~= rels@);
    n
}

/// Colour index of the layer for objects of `item_type`.
pub open spec fn object_layer_color(item_type: Seq<char>) -> i16 {
    if item_type == "Instrument"@ {
        4
    } else if item_type == "PipeRun"@ {
        3
    } else if item_type == "Nozzle"@ {
        2
    } else if item_type == "Drawing"@ {
        7
    } else {
        6
    }
}

/// The layer for the preview entities of objects of `item_type`, named
/// `PID_OBJECTS_` and the item type with every character other than an
/// ASCII letter or digit replaced by `_`, with the layer's colour index.
pub fn object_layer(item_type: &str) -> (r: (String, i16))
    ensures
        r.0@ == "PID_OBJECTS_"@ + item_type@.map_values(|c: char| layer_char(c)),
        r.1 == object_layer_color(item_type@),
{
    let mut name = String::from_str("PID_OBJECTS_");
    push_str(&mut name, sanitize_layer_name(item_type).as_str());
    let color: i16 = if str_eq(item_type, "Instrument") {
        4
    } else if str_eq(item_type, "PipeRun") {
        3
    } else if str_eq(item_type, "Nozzle") {
        2
    } else if str_eq(item_type, "Drawing") {
        7
    } else {
        6
    };
    (name, color)
}

/// A drawing object of the PID import, as the preview labels it.
#[derive(Debug)]
pub struct PidVisualObjectEntry {
    pub drawing_id: String,
    pub item_type: String,
    pub drawing_item_type: Option<String>,
    pub model_id: Option<String>,
    /// Extra attributes by name.
    pub extra: StringMap,
}

/// `[x]` when `o` holds `x`, else nothing.
pub open spec fn opt_line(o: Option<Seq<char>>) -> Seq<Seq<char>> {
    match o {
        Some(x) => seq![x],
        None => Seq::empty(),
    }
}

pub open spec fn opt_short(o: Option<String>, max_chars: nat) -> Option<Seq<char>> {
    match o {
        Some(x) => Some(short_text_spec(x@, max_chars)),
        None => None,
    }
}

/// The lines of an object's label: its item type, its short drawing id,
/// its drawing item type and model id when it has them, and `name=value`
/// for the first two extra attributes of `extra_rows` (in key order).
pub open spec fn object_label_lines(o: PidVisualObjectEntry, extra_rows: Seq<(Seq<char>, Seq<char>)>) -> Seq<Seq<char>> {
    seq![o.item_type@, short_id_spec(o.drawing_id@)] + opt_line(opt_short(o.drawing_item_type, 24)) + opt_line(
        opt_short(o.model_id, 28),
    ) + Seq::new(
        if extra_rows.len() < 2 { extra_rows.len() } else { 2 },
        |i: int| short_text_spec(extra_rows[i].0, 10) + "="@ + short_text_spec(extra_rows[i].1, 18),
    )
}

fn push_text(lines: &mut Vec<String>, t: String)
    ensures
        final(lines)@.map_values(|s: String| s@) == old(lines)@.map_values(|s: String| s@).push(t@),
{
    let ghost before = lines@;
    lines.push(t);
    assert(lines@.map_values(|s: String| s@) =~= before.map_values(|s: String| s@).push(t@));
}

/// The label drawn beside an object: its label lines joined by MText
/// paragraph breaks.
pub fn object_label(o: &PidVisualObjectEntry) -> (r: String)
    ensures
        exists|rows: Seq<(Seq<char>, Seq<char>)>|
            is_sorted_listing(rows, o.extra@) && r@ == join_with(object_label_lines(*o, rows), "\\P"@),
{
    let extra = o.extra.sorted_entries();
    let ghost rows = extra@.map_values(|e: (String, String)| (e.0@, e.1@));
    let mut lines: Vec<String> = Vec::new();
    push_text(&mut lines, o.item_type.clone());
    push_text(&mut lines, short_id(o.drawing_id.as_str()));
    match &o.drawing_item_type {
        Some(kind) => push_text(&mut lines, short_text(kind.as_str(), 24)),
        None => {},
    }
    match &o.model_id {
        Some(model_id) => push_text(&mut lines, short_text(model_id.as_str(), 28)),
        None => {},
    }
    let ghost fixed = lines@.map_values(|s: String| s@);
    let n: usize = if extra.len() < 2 { extra.len() } else { 2 };
    let mut i: usize = 0;
    while i < n
        invariant
            n <= extra@.len(),
            n == (if extra@.len() < 2 { extra@.len() } else { 2 }),
            i <= n,
            rows == extra@.map_values(|e: (String, String)| (e.0@, e.1@)),
            lines@.map_values(|s: String| s@) == fixed + Seq::new(
                i as nat,
                |j: int| short_text_spec(rows[j].0, 10) + "="@ + short_text_spec(rows[j].1, 18),
            ),
        decreases n - i,
    {
        let mut t = short_text(extra[i].0.as_str(), 10);
        push_str(&mut t, "=");
        push_str(&mut t, short_text(extra[i].1.as_str(), 18).as_str());
        push_text(&mut lines, t);
        i += 1;
        assert(lines@.map_values(|s: String| s@) =~= fixed + Seq::new(
            i as nat,
            |j: int| short_text_spec(rows[j].0, 10) + "="@ + short_text_spec(rows[j].1, 18),
        ));
    }
    assert(lines@.map_values(|s: String| s@) =~= object_label_lines(*o, rows));
    join_strings(&lines, "\\P")
}

/// The label of an object in the fallback panel: its item type, its short
/// drawing id and, when it has one, its model id.
pub open spec fn fallback_label(o: PidVisualObjectEntry) -> Seq<char> {
    join_with(seq![o.item_type@, short_id_spec(o.drawing_id@)] + opt_line(opt_short(o.model_id, 28)), "\\P"@)
}

/// Whether `id` is one of `placed`.
pub open spec fn is_placed_id(placed: Seq<String>, id: Seq<char>) -> bool {
    exists|i: int| 0 <= i < placed.len() && (#[trigger] placed[i])@ == id
}

/// The fallback line of an object that was not placed; none for one that
/// was.
pub open spec fn fallback_row(placed: Seq<String>) -> spec_fn(PidVisualObjectEntry) -> Option<LineView> {
    |o: PidVisualObjectEntry|
        if is_placed_id(placed, o.drawing_id@) {
            None
        } else {
            Some(
                (
                    fallback_label(o),
                    Some(node_key_view(PidNodeKey::Object { drawing_id: o.drawing_id })),
                    None::<(u8, Seq<char>)>,
                ),
            )
        }
}

/// The fallback panel: nothing when every object was placed, else its
/// heading and one line per object that was not, in order.
pub open spec fn fallback_panel(objects: Seq<PidVisualObjectEntry>, placed: Seq<String>) -> Seq<LineView> {
    let rows = objects.filter_map(fallback_row(placed));
    if rows.len() == 0 {
        Seq::empty()
    } else {
        seq![heading("Fallback / Unplaced"@)] + rows
    }
}

fn fallback_line(o: &PidVisualObjectEntry) -> (l: PanelLine)
    ensures
        line_view(l) == (
            fallback_label(*o),
            Some(node_key_view(PidNodeKey::Object { drawing_id: o.drawing_id })),
            None::<(u8, Seq<char>)>,
        ),
{
    let mut lines: Vec<String> = Vec::new();
    push_text(&mut lines, o.item_type.clone());
    push_text(&mut lines, short_id(o.drawing_id.as_str()));
    match &o.model_id {
        Some(model_id) => push_text(&mut lines, short_text(model_id.as_str(), 28)),
        None => {},
    }
    assert(lines@.map_values(|s: String| s@) =~= seq![o.item_type@, short_id_spec(o.drawing_id@)] + opt_line(
        opt_short(o.model_id, 28),
    ));
    PanelLine {
        text: join_strings(&lines, "\\P"),
        key: Some(PidNodeKey::Object { drawing_id: o.drawing_id.clone() }),
        also: None,
    }
}

/// The lines of the fallback panel, which lists the objects that the
/// layout gave no position; `placed` holds the drawing ids that it did.
pub fn fallback_panel_lines(objects: &Vec<PidVisualObjectEntry>, placed: &Vec<String>) -> (r: Vec<PanelLine>)
    ensures
        panel_view(r@) == fallback_panel(objects@, placed@),
{
    let mut rows: Vec<PanelLine> = Vec::new();
    let ghost f = fallback_row(placed@);
    let mut i: usize = 0;
    while i < objects.len()
        invariant
            i <= objects@.len(),
            f == fallback_row(placed@),
            panel_view(rows@) == objects@.take(i as int).filter_map(f),
        decreases objects.len() - i,
    {
        let ghost before = rows@;
        assert(objects@.take(i + 1).drop_last() =~= objects@.take(i as int));
        if !contains_id(placed, objects[i].drawing_id.as_str()) {
            rows.push(fallback_line(&objects[i]));
            assert(panel_view(rows@) =~= panel_view(before) + seq![line_view(rows@.last())]);
        }
        i += 1;
    }
    assert(objects@.take(objects@.len() as int) =~= objects@);
    if rows.len() == 0 {
        return rows;
    }
    let mut r: Vec<PanelLine> = Vec::new();
    r.push(PanelLine { text: String::from_str("Fallback / Unplaced"), key: None, also: None });
    r.append(&mut rows);
    assert(panel_view(r@) =~= seq![heading("Fallback / Unplaced"@)] + objects@.filter_map(f));
    r
}

/// The model id of an object with drawing id `drawing_id`; none for the
/// other objects.
pub open spec fn model_ids_of(drawing_id: Seq<char>) -> spec_fn((String, Option<String>)) -> Option<Option<String>> {
    |o: (String, Option<String>)|
        if o.0@ == drawing_id {
            Some(o.1)
        } else {
            None
        }
}

/// The label of a layout item: its own label, else the model id of the
/// object with its drawing id (the last such object, when several share
/// it), else its kind.
pub open spec fn layout_item_label(
    label: Option<String>,
    objects: Seq<(String, Option<String>)>,
    drawing_id: Seq<char>,
    kind: Seq<char>,
) -> Seq<char> {
    match label {
        Some(l) => l@,
        None => {
            let hits = objects.filter_map(model_ids_of(drawing_id));
            if hits.len() > 0 && hits.last() is Some {
                hits.last()->0@
            } else {
                kind
            }
        },
    }
}

/// The label drawn beside a layout item, from its own label, the
/// (drawing id, model id) pairs of the imported objects, its drawing id
/// and its kind.
pub fn layout_label(
    label: &Option<String>,
    objects: &Vec<(String, Option<String>)>,
    drawing_id: &str,
    kind: &str,
) -> (r: String)
    ensures
        r@ == layout_item_label(*label, objects@, drawing_id@, kind@),
{
    match label {
        Some(l) => return l.clone(),
        None => {},
    }
    let ghost f = model_ids_of(drawing_id@);
    let mut found: Option<&Option<String>> = None;
    let mut i: usize = 0;
    while i < objects.len()
        invariant
            i <= objects@.len(),
            f == model_ids_of(drawing_id@),
            match found {
                Some(m) => objects@.take(i as int).filter_map(f).len() > 0 && objects@.take(i as int).filter_map(
                    f,
                ).last() == *m,
                None => objects@.take(i as int).filter_map(f).len() == 0,
            },
        decreases objects.len() - i,
    {
        assert(objects@.take(i + 1).drop_last() =~= objects@.take(i as int));
        if str_eq(objects[i].0.as_str(), drawing_id) {
            found = Some(&objects[i].1);
        }
        i += 1;
    }
    assert(objects@.take(objects@.len() as int) =~= objects@);
    match found {
        Some(Some(m)) => m.clone(),
        _ => String::from_str(kind),
    }
}

} // verus!
