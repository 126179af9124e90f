use h7cad::pid_publish::{
    bran_publish_model_from_attributes, build_publish_data_xml, publish_meta_xml_with, stable_uid,
};
use h7cad::publish_xml::{parse_publish_data_xml, parse_publish_meta_xml};
use h7cad::string_map::StringMap;

#[test]
fn published_data_reads_back_objects_and_relationships() {
    let model = bran_publish_model_from_attributes(&StringMap::new()).unwrap();
    let xml = build_publish_data_xml(&model);
    let parsed = parse_publish_data_xml("/tmp/x_Data.xml", xml.clone()).expect("parse");
    assert_eq!(parsed.drawing_no.as_deref(), Some("DWG-0202GP06-01"));
    assert_eq!(parsed.title.as_deref(), Some("H7CAD BRAN Tutorial"));
    assert_eq!(parsed.doc_uid.as_deref(), Some(model.drawing_uid.as_str()));
    assert_eq!(parsed.project_number.as_deref(), Some("P01"));
    assert_eq!(parsed.objects.len(), 7);
    assert_eq!(parsed.relationships.len(), 11);
    assert_eq!(parsed.raw_xml, xml);
    let drawing = &parsed.objects[0];
    assert_eq!(drawing.item_type, "PIDDrawing");
    assert_eq!(drawing.drawing_id, model.drawing_uid);
    assert_eq!(drawing.model_id.as_deref(), Some("DWG-0202GP06-01"));
    assert_eq!(drawing.drawing_item_type, None);
    assert_eq!(drawing.extra.get("IObject.Name").map(String::as_str), Some("DWG-0202GP06-01"));
    assert_eq!(drawing.extra.get("IDocument.DocType").map(String::as_str), Some("P&ID"));
    assert!(drawing.extra.get("IObject.Description").is_none());
    let pipeline = &parsed.objects[1];
    assert_eq!(pipeline.item_type, "PIDPipeline");
    assert_eq!(pipeline.drawing_item_type.as_deref(), Some("IDrawingItem"));
    assert_eq!(pipeline.extra.get("IPipeCrossSectionItem.NominalDiameter").map(String::as_str), Some("50 mm"));
    let rel = &parsed.relationships[0];
    assert_eq!(rel.guid, "REL-DRAW-PIPELINE");
    assert_eq!(rel.model_id, "Relationship.DrawingItems.REL-DRAW-PIPELINE");
    assert_eq!(rel.source_drawing_id.as_deref(), Some(model.pipeline_uid.as_str()));
    assert_eq!(rel.target_drawing_id.as_deref(), Some(model.drawing_uid.as_str()));
}

#[test]
fn relationships_need_known_endpoints_and_get_stable_guids() {
    let xml = "<Container DocName=\"D\" Plant=\"P\" Project=\"  \">\
        <A><IObject UID=\"a\" Name=\"\" Description=\"d\"/><X k=\"v\">  t  </X></A>\
        <B><IObject UID=\"b\"/></B>\
        <C><IObject Name=\"no-uid\"/></C>\
        <Rel><IRel UID1=\" a \" UID2=\"b\"/></Rel>\
        <Rel><IObject UID=\"R2\"/><IRel UID1=\"a\" UID2=\"zz\" DefUID=\"D\"/></Rel>\
        <Rel><IRel UID1=\"\" UID2=\"b\"/></Rel>\
        </Container>";
    let parsed = parse_publish_data_xml("p", xml.to_string()).unwrap();
    assert_eq!(parsed.drawing_no.as_deref(), Some("D"));
    assert_eq!(parsed.title, None);
    assert_eq!(parsed.project_number.as_deref(), Some("P"));
    assert_eq!(parsed.objects.len(), 2);
    let a = &parsed.objects[0];
    assert_eq!(a.extra.get("IObject.Description").map(String::as_str), Some("d"));
    assert!(a.extra.get("IObject.Name").is_none());
    assert_eq!(a.extra.get("X.k").map(String::as_str), Some("v"));
    assert_eq!(a.extra.get("X.text").map(String::as_str), Some("t"));
    assert_eq!(parsed.relationships.len(), 1);
    let guid = stable_uid("Relationship:a:b");
    assert_eq!(parsed.relationships[0].guid, guid);
    assert_eq!(parsed.relationships[0].model_id, format!("Relationship.Relationship.{guid}"));
}

#[test]
fn unparsable_data_names_the_file() {
    let err = parse_publish_data_xml("/tmp/bad_Data.xml", "<a".to_string()).unwrap_err();
    assert!(err.starts_with("failed to parse publish data XML /tmp/bad_Data.xml: "), "got: {err}");
    let err = parse_publish_meta_xml("/tmp/bad_Meta.xml", "".to_string()).unwrap_err();
    assert!(err.starts_with("failed to parse publish meta XML /tmp/bad_Meta.xml: "), "got: {err}");
}

#[test]
fn published_meta_reads_back_version_and_file() {
    let model = bran_publish_model_from_attributes(&StringMap::new()).unwrap();
    let xml = publish_meta_xml_with(&model, "plant.pid", "/data/out");
    let meta = parse_publish_meta_xml("/tmp/plant_Meta.xml", xml.clone()).unwrap();
    assert_eq!(meta.doc_version.as_deref(), Some("1"));
    assert_eq!(meta.doc_revision.as_deref(), Some("0"));
    assert_eq!(meta.file_path.as_deref(), Some("/data/out"));
    assert_eq!(meta.tags.len(), 4);
    assert_eq!(meta.tags.get("DocName").map(String::as_str), Some("DWG-0202GP06-01"));
    assert_eq!(meta.tags.get("DocVersion").map(String::as_str), Some("1"));
    assert_eq!(meta.raw_xml, xml);
}

#[test]
fn parsed_data_indexes_last_position_and_counts_types() {
    let xml = "<Container DocName=\"D\">\
        <PIDA><IObject UID=\"a\"/></PIDA>\
        <PIDB><IObject UID=\"b\"/></PIDB>\
        <PIDA><IObject UID=\"a\"/></PIDA>\
        </Container>";
    let parsed = parse_publish_data_xml("p", xml.to_string()).unwrap();
    assert_eq!(parsed.objects.len(), 3);
    let mut idx = parsed.by_drawing_id.clone();
    idx.sort();
    assert_eq!(idx, vec![("a".to_string(), 2), ("b".to_string(), 1)]);
    let counts: Vec<(String, usize)> = parsed.counts_by_type.clone();
    let total: usize = counts.iter().map(|e| e.1).sum();
    assert_eq!(total, 3);
    assert_eq!(counts.len(), 2);
}
