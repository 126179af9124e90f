use acadrust::entities::{AttributeEntity, Insert};
use acadrust::types::Vector3;
use acadrust::{CadDocument, EntityType};
use h7cad::pid_publish::{
    attr_or_default, bran_insert_count, bran_publish_model_from_attributes, build_publish_object_graph,
    publish_relationship, bran_publish_model_from_document,
    bran_publish_model_from_entities, build_publish_data_xml, build_publish_drawing_stream_xml,
    build_publish_general_stream_xml, build_publish_meta_xml, general_stream_xml_for_dir,
    publish_bundle_for, publish_data_path, publish_meta_path, publish_meta_xml_with,
    publish_rel_xml, publish_report, publish_sidecar_name, sppid_bran_attributes, stable_uid,
    xml_escape_attr, xml_escape_text, BranPublishModel, SPPID_BRAN_BLOCK_NAME,
    SPPID_SOFTWARE_VERSION, SPPID_TOOL_ID,
};
use h7cad::string_map::StringMap;

#[test]
fn sppid_software_version_tracks_cargo_pkg_version() {
    assert_eq!(SPPID_SOFTWARE_VERSION, "0.1.3");
}

#[test]
fn sppid_tool_id_matches_crate_name() {
    assert_eq!(SPPID_TOOL_ID, "H7CAD");
}

#[test]
fn stable_uid_known_values() {
    assert_eq!(stable_uid(""), "CBF29CE48422232584222325CBF29CE4");
    assert_eq!(stable_uid("a"), "AF63DC4C8601EC8C789E3E398D3FF5FF");
    assert_eq!(stable_uid("drawing:DWG-0202GP06-01"), "56F6A38B869E8873E707658025BCA794");
    assert_eq!(stable_uid("drawing:é"), "04A633ECD5761C19EB1C74355444E260");
}

#[test]
fn stable_uid_is_deterministic_and_32_hex_digits() {
    for seed in ["", "x", "pipeline:A3jqz0101-OD", "中文"] {
        let a = stable_uid(seed);
        assert_eq!(a, stable_uid(seed));
        assert_eq!(a.len(), 32);
        assert!(a.chars().all(|c| c.is_ascii_hexdigit() && !c.is_ascii_lowercase()));
    }
    assert_ne!(stable_uid("a"), stable_uid("b"));
}

#[test]
fn escapes_text_and_attributes() {
    assert_eq!(xml_escape_text("a&b<c>'d\"e"), "a&amp;b&lt;c&gt;&apos;d\"e");
    assert_eq!(xml_escape_attr("a&b<c>'d\"e"), "a&amp;b&lt;c&gt;&apos;d&quot;e");
}

#[test]
fn rel_element_exact_text() {
    assert_eq!(
        publish_rel_xml("R", "a<b", "c", "D"),
        "<Rel><IObject UID=\"R\"/><IRel UID1=\"a&lt;b\" UID2=\"c\" DefUID=\"D\"/></Rel>"
    );
}

#[test]
fn bran_table_has_seven_rows_in_order() {
    let rows = sppid_bran_attributes();
    assert_eq!(rows.len(), 7);
    assert_eq!(rows[0], ("DRAWING_NO", "Drawing Number", "DWG-0202GP06-01"));
    assert_eq!(rows[6], ("BRANCH_NAME", "Branch Name", "BRAN-1"));
    assert_eq!(SPPID_BRAN_BLOCK_NAME, "SPPID_BRAN");
}

#[test]
fn attr_or_default_prefers_trimmed_value_then_default() {
    let mut attrs = StringMap::new();
    attrs.insert("PIPELINE".to_string(), "  P-1  ".to_string());
    attrs.insert("CONNECTOR".to_string(), "   ".to_string());
    assert_eq!(attr_or_default(&attrs, "PIPELINE").unwrap(), "P-1");
    assert_eq!(attr_or_default(&attrs, "CONNECTOR").unwrap(), "A3jqz0101-OD-50 mm-1.6AR12-WE-50mm");
    assert_eq!(attr_or_default(&attrs, "DOC_TITLE").unwrap(), "H7CAD BRAN Tutorial");
    assert_eq!(
        attr_or_default(&attrs, "UNKNOWN").unwrap_err(),
        "missing required SPPID attribute UNKNOWN"
    );
}

fn default_model() -> BranPublishModel {
    bran_publish_model_from_attributes(&StringMap::new()).unwrap()
}

#[test]
fn model_from_defaults_derives_identifiers() {
    let m = default_model();
    assert_eq!(m.drawing_no, "DWG-0202GP06-01");
    assert_eq!(m.branch_name, "BRAN-1");
    assert_eq!(m.drawing_uid, stable_uid("drawing:DWG-0202GP06-01"));
    assert_eq!(m.piping_branch_uid, stable_uid("piping-branch:DWG-0202GP06-01:BRAN-1"));
    assert_eq!(m.process_point_uid, stable_uid("process-point:A3jqz0101-OD:BRAN-1"));
    assert_eq!(m.file_uid, stable_uid("file:DWG-0202GP06-01"));
    assert_eq!(m.drawing_uid, "56F6A38B869E8873E707658025BCA794");
}

#[test]
fn drawing_and_general_streams_exact_text() {
    let mut m = default_model();
    m.drawing_no = "N&1".to_string();
    m.doc_title = "T".to_string();
    assert_eq!(
        build_publish_drawing_stream_xml(&m),
        "<?xml version=\"1.0\"?><Drawing><Tag SP_DRAWINGNUMBER=\"N&amp;1\" SP_DOCTITLE=\"T\"/></Drawing>"
    );
    assert_eq!(
        general_stream_xml_for_dir("C:\\a & \"b\""),
        "<?xml version=\"1.0\"?><General><FilePath>C:\\a &amp; \"b\"</FilePath></General>"
    );
    assert_eq!(
        build_publish_general_stream_xml("/tmp/x/y.pid"),
        "<?xml version=\"1.0\"?><General><FilePath>/tmp/x</FilePath></General>"
    );
}

#[test]
fn sidecar_names_and_paths() {
    assert_eq!(publish_sidecar_name(Some("plant"), "_Data.xml"), "plant_Data.xml");
    assert_eq!(publish_sidecar_name(None, "_Meta.xml"), "publish_Meta.xml");
    assert_eq!(publish_data_path("/tmp/x/y.pid"), std::path::PathBuf::from("/tmp/x/y_Data.xml"));
    assert_eq!(publish_meta_path("/tmp/x/y.pid"), std::path::PathBuf::from("/tmp/x/y_Meta.xml"));
}

#[test]
fn data_xml_layout() {
    let m = default_model();
    let xml = build_publish_data_xml(&m);
    assert!(xml.starts_with(
        "<?xml version =\"1.0\" encoding=\"UTF-8\"?>\n<Container CompSchema=\"PIDComponent\" Scope=\"Data\" SoftwareVersion=\"0.1.3\""
    ));
    assert!(xml.contains("DocUID=\"56F6A38B869E8873E707658025BCA794\" DocName=\"DWG-0202GP06-01\""));
    assert!(xml.contains("ToolID=\"H7CAD\""));
    assert!(xml.contains("<IPipeCrossSectionItem NominalDiameter=\"50 mm\"/>"));
    assert!(xml.contains("<IObject UID=\"REL-TAP\"/>"));
    assert_eq!(xml.matches("<Rel>").count(), 11);
    assert!(xml.ends_with("</Container>\n"));
}

#[test]
fn meta_xml_names_file_and_directory() {
    let m = default_model();
    let xml = publish_meta_xml_with(&m, "a&b.pid", "/data");
    assert!(xml.contains("CompSchema=\"DocVersioningComponent\""));
    assert!(xml.contains("Name=\"a&amp;b.pid\" Description=\"\"/>"));
    assert!(xml.contains("<IFile FilePath=\"/data\"/>"));
    assert_eq!(xml.matches("<Rel>").count(), 3);
    let from_path = build_publish_meta_xml(&m, "/data/a&b.pid");
    assert_eq!(from_path, xml);
}

#[test]
fn report_and_bundle_counts() {
    let m = default_model();
    let r = publish_report(&m);
    assert_eq!(r.drawing_no, "DWG-0202GP06-01");
    assert_eq!(r.object_count, 7);
    assert_eq!(r.relationship_count, 6);
    let b = publish_bundle_for(&m, "/tmp/out/plant.pid");
    assert_eq!(b.pid_path, std::path::PathBuf::from("/tmp/out/plant.pid"));
    assert_eq!(b.data_xml_path, std::path::PathBuf::from("/tmp/out/plant_Data.xml"));
    assert_eq!(b.report, r);
}

fn bran_insert(name: &str, attrs: &[(&str, &str)]) -> EntityType {
    let mut insert = Insert::new(name, Vector3::new(0.0, 0.0, 0.0));
    insert.attributes = attrs
        .iter()
        .map(|(t, v)| AttributeEntity::new(t.to_string(), v.to_string()))
        .collect();
    EntityType::Insert(insert)
}

#[test]
fn export_sppid_publish_bundle_without_bran_insert_errors() {
    let doc = CadDocument::new();
    let err = bran_publish_model_from_document(&doc).unwrap_err();
    assert!(err.contains("exactly one SPPID_BRAN insert"), "got: {err}");
}

#[test]
fn export_sppid_publish_bundle_rejects_multiple_bran_inserts() {
    let mut doc = CadDocument::new();
    for _ in 0..2 {
        doc.add_entity(bran_insert("SPPID_BRAN", &[("DRAWING_NO", "D-1")])).expect("seed");
    }
    let err = bran_publish_model_from_document(&doc).unwrap_err();
    assert!(err.contains("exactly one SPPID_BRAN insert per drawing"), "got: {err}");
}

#[test]
fn single_bran_insert_reads_attributes_case_insensitively() {
    let mut doc = CadDocument::new();
    doc.add_entity(bran_insert("other", &[("DRAWING_NO", "IGNORED")])).expect("seed");
    doc.add_entity(bran_insert(
        "sppid_bran",
        &[("drawing_no", "  D-42 "), ("Branch_Name", "B9"), ("PIPELINE", "")],
    ))
    .expect("seed");
    let m = bran_publish_model_from_document(&doc).expect("one BRAN");
    assert_eq!(m.drawing_no, "D-42");
    assert_eq!(m.branch_name, "B9");
    assert_eq!(m.pipeline_name, "A3jqz0101-OD");
    assert_eq!(m.branch_uid, stable_uid("branch:D-42:B9"));
}

#[test]
fn entity_rows_decide_like_the_document() {
    let none: Vec<Option<(String, Vec<(String, String)>)>> = vec![None, None];
    assert_eq!(
        bran_publish_model_from_entities(&none).unwrap_err(),
        "SPPID export requires exactly one SPPID_BRAN insert in the active drawing"
    );
    let two = vec![
        Some(("SPPID_BRAN".to_string(), vec![])),
        None,
        Some(("Sppid_Bran".to_string(), vec![])),
    ];
    assert_eq!(
        bran_publish_model_from_entities(&two).unwrap_err(),
        "SPPID export currently supports exactly one SPPID_BRAN insert per drawing"
    );
    let one = vec![Some((
        "SPPID_BRAN".to_string(),
        vec![("doc_title".to_string(), "T1".to_string()), ("DOC_TITLE".to_string(), "T2".to_string())],
    ))];
    assert_eq!(bran_publish_model_from_entities(&one).unwrap().doc_title, "T2");
}

#[test]
fn object_graph_has_seven_objects_and_six_relationships() {
    let m = default_model();
    let g = build_publish_object_graph(&m);
    assert_eq!(g.drawing_no.as_deref(), Some("DWG-0202GP06-01"));
    assert_eq!(g.project_number, None);
    assert_eq!(g.objects.len(), 7);
    assert_eq!(g.relationships.len(), 6);
    assert_eq!(g.objects[1].extra.get("NominalDiameter").map(String::as_str), Some("50 mm"));
    assert_eq!(g.objects[5].model_id.as_deref(), Some("BRAN-1-PP"));
    assert_eq!(g.objects[6].extra.get("RepresentationType").map(String::as_str), Some("Polyline"));
    for r in &g.relationships {
        let src = r.source_drawing_id.as_deref().unwrap();
        let dst = r.target_drawing_id.as_deref().unwrap();
        assert!(g.objects.iter().any(|o| o.drawing_id == src));
        assert!(g.objects.iter().any(|o| o.drawing_id == dst));
    }
    let report = publish_report(&m);
    assert_eq!(report.object_count, g.objects.len());
    assert_eq!(report.relationship_count, g.relationships.len());
}

#[test]
fn relationship_guid_is_stable_uid_of_its_endpoints() {
    let r = publish_relationship("DrawingItems", &"P".to_string(), &"D".to_string());
    assert_eq!(r.guid, stable_uid("DrawingItems:P:D"));
    assert_eq!(r.model_id, format!("Relationship.DrawingItems.{}", r.guid));
    assert_eq!(r.source_drawing_id.as_deref(), Some("P"));
    assert_eq!(r.target_drawing_id.as_deref(), Some("D"));
}

#[test]
fn bran_insert_count_counts_case_insensitively() {
    let mut doc = CadDocument::new();
    assert_eq!(bran_insert_count(&doc), 0);
    doc.add_entity(bran_insert("Sppid_Bran", &[])).expect("seed");
    doc.add_entity(bran_insert("OTHER", &[])).expect("seed");
    assert_eq!(bran_insert_count(&doc), 1);
}

#[test]
fn sidecar_paths_of_a_bare_file_name_are_bare_names() {
    assert_eq!(publish_data_path("plant.pid"), std::path::PathBuf::from("plant_Data.xml"));
    assert_eq!(publish_meta_path("plant.v2.pid"), std::path::PathBuf::from("plant.v2_Meta.xml"));
    assert_eq!(publish_data_path(".pid"), std::path::PathBuf::from(".pid_Data.xml"));
}

#[test]
fn object_graph_indexes_ids_and_counts_types() {
    let m = default_model();
    let g = build_publish_object_graph(&m);
    assert_eq!(g.by_drawing_id.len(), 7);
    for (i, o) in g.objects.iter().enumerate() {
        let hit: Vec<usize> = g.by_drawing_id.iter().filter(|e| e.0 == o.drawing_id).map(|e| e.1).collect();
        assert_eq!(hit, vec![i]);
    }
    assert_eq!(g.counts_by_type.len(), 7);
    assert!(g.counts_by_type.iter().all(|e| e.1 == 1));
    assert!(g.counts_by_type.iter().any(|e| e.0 == "PIDProcessPoint"));
}

#[test]
fn bundle_paths_of_a_bare_file_name() {
    let b = publish_bundle_for(&default_model(), "plant.pid");
    assert_eq!(b.pid_path, std::path::PathBuf::from("plant.pid"));
    assert_eq!(b.data_xml_path, std::path::PathBuf::from("plant_Data.xml"));
    assert_eq!(b.meta_xml_path, std::path::PathBuf::from("plant_Meta.xml"));
}

fn joined(dir: &str, name: &str) -> Vec<std::path::PathBuf> {
    vec![
        std::path::PathBuf::from(format!("{dir}/{name}")),
        std::path::PathBuf::from(format!("{dir}\\{name}")),
    ]
}

#[test]
fn general_stream_records_the_directory_part() {
    assert_eq!(
        build_publish_general_stream_xml("plant.pid"),
        "<?xml version=\"1.0\"?><General><FilePath></FilePath></General>"
    );
    assert_eq!(
        build_publish_general_stream_xml("proj/a&b/plant.pid"),
        "<?xml version=\"1.0\"?><General><FilePath>proj/a&amp;b</FilePath></General>"
    );
    assert_eq!(
        build_publish_general_stream_xml("../up/plant.pid"),
        "<?xml version=\"1.0\"?><General><FilePath>../up</FilePath></General>"
    );
}

#[test]
fn meta_xml_takes_file_name_and_directory_of_the_path() {
    let m = default_model();
    assert_eq!(build_publish_meta_xml(&m, "proj/sub/unit.pid"), publish_meta_xml_with(&m, "unit.pid", "proj/sub"));
    assert_eq!(build_publish_meta_xml(&m, "unit.pid"), publish_meta_xml_with(&m, "unit.pid", ""));
    assert_eq!(build_publish_meta_xml(&m, "proj/.."), publish_meta_xml_with(&m, "publish.pid", "proj"));
}

#[test]
fn sidecar_paths_stay_in_the_directory_of_the_pid_file() {
    assert!(joined("proj/sub", "unit_Data.xml").contains(&publish_data_path("proj/sub/unit.pid")));
    assert!(joined("proj/sub", "unit.v2_Meta.xml").contains(&publish_meta_path("proj/sub/unit.v2.pid")));
    assert!(joined("/abs", "x_Data.xml").contains(&publish_data_path("/abs/x.pid")));
    let b = publish_bundle_for(&default_model(), "out/plant.pid");
    assert!(joined("out", "plant_Data.xml").contains(&b.data_xml_path));
    assert!(joined("out", "plant_Meta.xml").contains(&b.meta_xml_path));
}

#[test]
fn sidecar_after_parent_dir_component_is_named_publish() {
    assert!(joined("proj/..", "publish_Data.xml").contains(&publish_data_path("proj/..")));
    assert!(joined("..", "publish_Meta.xml").contains(&publish_meta_path("..")));
}

#[test]
fn object_graph_counts_add_up_to_objects() {
    let g = build_publish_object_graph(&default_model());
    let total: usize = g.counts_by_type.iter().map(|e| e.1).sum();
    assert_eq!(total, g.objects.len());
    for (id, i) in &g.by_drawing_id {
        assert_eq!(&g.objects[*i].drawing_id, id);
    }
}

#[test]
fn paths_under_the_current_directory_keep_it() {
    assert_eq!(
        build_publish_general_stream_xml("./plant.pid"),
        "<?xml version=\"1.0\"?><General><FilePath>.</FilePath></General>"
    );
    assert!(joined(".", "plant_Data.xml").contains(&publish_data_path("./plant.pid")));
    let m = default_model();
    assert_eq!(build_publish_meta_xml(&m, "./plant.pid"), publish_meta_xml_with(&m, "plant.pid", "."));
}
