use h7cad::pid_layout::{
    classify_layout_glyph, count_unresolved_relationships, fallback_panel_lines, layout_label,
    object_label, object_layer, LayoutGlyphKind, PidVisualObjectEntry,
};
use h7cad::pid_report::PidNodeKey;
use h7cad::string_map::StringMap;

fn by_kind(kind: &str) -> LayoutGlyphKind {
    classify_layout_glyph(&None, kind)
}

#[test]
fn glyph_kinds_follow_the_semantic_name_table() {
    assert_eq!(by_kind("PIDPipeline"), LayoutGlyphKind::Pipeline);
    assert_eq!(by_kind("PipeRun"), LayoutGlyphKind::Pipeline);
    assert_eq!(by_kind("PIDBranchPoint"), LayoutGlyphKind::Branch);
    assert_eq!(by_kind("PIDPipingConnector"), LayoutGlyphKind::Connector);
    assert_eq!(by_kind("ProcessPoint"), LayoutGlyphKind::ProcessPoint);
    assert_eq!(by_kind("PIDControlSystemFunction"), LayoutGlyphKind::Instrument);
    assert_eq!(by_kind("PIDEquipment"), LayoutGlyphKind::Equipment);
    assert_eq!(by_kind("PIDProcessVessel"), LayoutGlyphKind::Vessel);
    assert_eq!(by_kind("ItemNote"), LayoutGlyphKind::Note);
    assert_eq!(by_kind("SignalPort"), LayoutGlyphKind::Nozzle);
    assert_eq!(by_kind("PIDPipingPort"), LayoutGlyphKind::Nozzle);
    assert_eq!(by_kind("OPC"), LayoutGlyphKind::OffPageConnector);
    assert_eq!(by_kind("PipingComp"), LayoutGlyphKind::PipingComponent);
    assert_eq!(by_kind("Tank"), LayoutGlyphKind::Generic);
    assert_eq!(by_kind(""), LayoutGlyphKind::Generic);
    assert_eq!(by_kind("pipeline"), LayoutGlyphKind::Generic);
}

#[test]
fn symbol_name_takes_precedence_over_kind() {
    assert_eq!(
        classify_layout_glyph(&Some("PIDNozzle".to_string()), "PIDPipeline"),
        LayoutGlyphKind::Nozzle
    );
    assert_eq!(
        classify_layout_glyph(&Some("Unknown".to_string()), "PIDPipeline"),
        LayoutGlyphKind::Generic
    );
}

#[test]
fn unresolved_relationships_are_those_with_an_unplaced_end() {
    let placed = vec!["A".to_string(), "B".to_string()];
    let rels = vec![
        (Some("A".to_string()), Some("B".to_string())),
        (Some("A".to_string()), Some("C".to_string())),
        (None, Some("B".to_string())),
        (Some("B".to_string()), None),
        (Some("B".to_string()), Some("A".to_string())),
    ];
    assert_eq!(count_unresolved_relationships(&rels, &placed), 3);
    assert_eq!(count_unresolved_relationships(&Vec::new(), &placed), 0);
    assert_eq!(count_unresolved_relationships(&rels, &Vec::new()), 5);
}

#[test]
fn object_layers_are_sanitized_and_coloured_by_type() {
    assert_eq!(object_layer("Instrument"), ("PID_OBJECTS_Instrument".to_string(), 4));
    assert_eq!(object_layer("PipeRun"), ("PID_OBJECTS_PipeRun".to_string(), 3));
    assert_eq!(object_layer("Nozzle"), ("PID_OBJECTS_Nozzle".to_string(), 2));
    assert_eq!(object_layer("Drawing"), ("PID_OBJECTS_Drawing".to_string(), 7));
    assert_eq!(object_layer("Piping Comp/2"), ("PID_OBJECTS_Piping_Comp_2".to_string(), 6));
}

fn entry(id: &str, item_type: &str, model_id: Option<&str>) -> PidVisualObjectEntry {
    PidVisualObjectEntry {
        drawing_id: id.to_string(),
        item_type: item_type.to_string(),
        drawing_item_type: None,
        model_id: model_id.map(|m| m.to_string()),
        extra: StringMap::new(),
    }
}

#[test]
fn object_label_lists_type_id_kind_model_and_two_extras_in_key_order() {
    let mut o = entry("ABCDEF0123456789", "Instrument", Some("M-1"));
    o.drawing_item_type = Some("PIDInstrument".to_string());
    o.extra.insert("Zeta".to_string(), "last".to_string());
    o.extra.insert("Alpha".to_string(), "first".to_string());
    o.extra.insert("Mid".to_string(), "second".to_string());
    assert_eq!(
        object_label(&o),
        "Instrument\\PABCDEF01\\PPIDInstrument\\PM-1\\PAlpha=first\\PMid=second"
    );
    let bare = entry("X", "PipeRun", None);
    assert_eq!(object_label(&bare), "PipeRun\\PX");
}

#[test]
fn fallback_panel_lists_only_unplaced_objects() {
    let objects = vec![
        entry("PLACED01", "PipeRun", None),
        entry("LOOSE0001", "Nozzle", Some("N-7")),
        entry("LOOSE2", "Vessel", None),
    ];
    let placed = vec!["PLACED01".to_string()];
    let lines = fallback_panel_lines(&objects, &placed);
    let texts: Vec<&str> = lines.iter().map(|l| l.text.as_str()).collect();
    assert_eq!(texts, vec!["Fallback / Unplaced", "Nozzle\\PLOOSE000\\PN-7", "Vessel\\PLOOSE2"]);
    assert_eq!(lines[0].key, None);
    assert_eq!(lines[1].key, Some(PidNodeKey::Object { drawing_id: "LOOSE0001".to_string() }));
    let all = vec!["PLACED01".to_string(), "LOOSE0001".to_string(), "LOOSE2".to_string()];
    assert!(fallback_panel_lines(&objects, &all).is_empty());
}

#[test]
fn layout_label_prefers_own_label_then_model_id_then_kind() {
    let objects = vec![
        ("D1".to_string(), Some("M-old".to_string())),
        ("D2".to_string(), None),
        ("D1".to_string(), Some("M-new".to_string())),
    ];
    assert_eq!(layout_label(&Some("L".to_string()), &objects, "D1", "Kind"), "L");
    assert_eq!(layout_label(&None, &objects, "D1", "Kind"), "M-new");
    assert_eq!(layout_label(&None, &objects, "D2", "Kind"), "Kind");
    assert_eq!(layout_label(&None, &objects, "D3", "Kind"), "Kind");
}
