use h7cad::pid_report::PidNodeKey;
use h7cad::preview_index::{node_key_eq, PidPreviewIndex};

fn object(id: &str) -> PidNodeKey {
    PidNodeKey::Object { drawing_id: id.to_string() }
}

#[test]
fn handles_accumulate_per_key_in_order() {
    let mut idx = PidPreviewIndex::new();
    idx.record_existing_handle(object("PIPE-001"), 10);
    idx.record_existing_handle(PidNodeKey::Overview, 11);
    idx.record_existing_handle(object("PIPE-001"), 12);
    assert_eq!(idx.handles_for(&object("PIPE-001")), vec![10, 12]);
    assert_eq!(idx.handles_for(&PidNodeKey::Overview), vec![11]);
    assert!(idx.handles_for(&object("OTHER")).is_empty());
    assert_eq!(idx.handles_for_drawing_id("PIPE-001"), vec![10, 12]);
}

#[test]
fn first_key_of_a_handle_is_kept() {
    let mut idx = PidPreviewIndex::new();
    idx.record_existing_handle(PidNodeKey::Sheet { name: "S1".to_string() }, 7);
    idx.record_existing_handle(PidNodeKey::Stream { name: "/A".to_string() }, 7);
    assert_eq!(idx.key_for_handle(7), Some(&PidNodeKey::Sheet { name: "S1".to_string() }));
    assert_eq!(idx.key_for_handle(8), None);
    assert_eq!(idx.handles_for(&PidNodeKey::Stream { name: "/A".to_string() }), vec![7]);
}

#[test]
fn pid_preview_index_tracks_graphic_oid_for_layout_items() {
    let mut idx = PidPreviewIndex::new();
    idx.record_layout_refs(40, Some("PIPE-001"), Some(582));
    idx.record_layout_refs(41, None, Some(582));
    assert_eq!(idx.handles_for_graphic_oid(582), vec![40, 41]);
    assert_eq!(idx.handles_for_drawing_id("PIPE-001"), vec![40]);
    assert!(idx.handles_for_graphic_oid(1).is_empty());
    assert!(idx.key_for_handle(40).is_none());
}

#[test]
fn node_key_equality_compares_variant_and_text() {
    assert!(node_key_eq(&object("a"), &object("a")));
    assert!(!node_key_eq(&object("a"), &PidNodeKey::Sheet { name: "a".to_string() }));
    assert!(!node_key_eq(&object("a"), &object("b")));
    assert!(node_key_eq(&PidNodeKey::ClusterCoverage, &PidNodeKey::ClusterCoverage));
}

#[test]
fn default_index_is_empty() {
    let idx = PidPreviewIndex::default();
    assert!(idx.handles_for(&PidNodeKey::Overview).is_empty());
    assert_eq!(idx.key_for_handle(1), None);
    assert!(idx.handles_for_drawing_id("X").is_empty());
    assert!(idx.handles_for_graphic_oid(3).is_empty());
}
