use h7cad::pid_publish::{DRAWING_STREAM_PATH, GENERAL_STREAM_PATH};
use h7cad::pid_report::{
    apply_stream_edit, build_pid_health_report, cached_stream_text, cached_stream_xml,
    edit_pid_drawing_attribute, edit_pid_drawing_number, edit_pid_general_element,
    no_graph_error, no_path_error, pid_path_endpoints, project_neighbor, resolve_drawing_id,
    sanitize_layer_name, short_id, short_text, DrawingAttributeEdit, PidGraphStats,
    PidNeighborInfo, PidObjectRecord, PidPropsListing, PidVersionLog,
};
use h7cad::pid_store::{cache_package, get_package, PidPackageData, PidPackageStore, PidRawStream};
use h7cad::pid_verify::compare_streams;
use h7cad::string_map::StringMap;
use h7cad::pid_report::{check_pid_diff_inputs, check_sidecar_pair, package_for_save, pid_extension_error};

fn ids(v: &[&str]) -> Vec<String> {
    v.iter().map(|s| s.to_string()).collect()
}

#[test]
fn exact_drawing_id_resolves_to_itself() {
    assert_eq!(resolve_drawing_id("AAAA", true, &ids(&[])), Ok("AAAA".to_string()));
}

#[test]
fn unique_prefix_resolves_to_its_match() {
    assert_eq!(resolve_drawing_id("AA", false, &ids(&["AAAA"])), Ok("AAAA".to_string()));
}

#[test]
fn list_pid_neighbors_returns_no_match_error_for_unknown_prefix() {
    let err = resolve_drawing_id("ZZZZ", false, &ids(&[])).unwrap_err();
    assert!(err.contains("no drawing_id matches") && err.contains("ZZZZ"), "got: {err}");
    assert_eq!(err, "no drawing_id matches 'ZZZZ' (exact or prefix)");
}

#[test]
fn list_pid_neighbors_returns_ambiguous_prefix_error() {
    let err = resolve_drawing_id("DD", false, &ids(&["DD1111", "DD2222", "DD3333", "DD4444"]))
        .unwrap_err();
    assert!(err.contains("ambiguous") && err.contains("4"), "got: {err}");
    assert!(err.contains("DD1111"), "got: {err}");
    assert_eq!(
        err,
        "prefix 'DD' is ambiguous (matches 4): DD1111, DD2222, DD3333, ... (1 more)"
    );
}

#[test]
fn ambiguous_prefix_with_two_matches_has_no_suffix() {
    let err = resolve_drawing_id("X", false, &ids(&["X1", "X2"])).unwrap_err();
    assert_eq!(err, "prefix 'X' is ambiguous (matches 2): X1, X2");
}

fn object(extra: &[(&str, &str)]) -> PidObjectRecord {
    let mut m = StringMap::new();
    for (k, v) in extra {
        m.insert(k.to_string(), v.to_string());
    }
    PidObjectRecord {
        drawing_id: "D1".to_string(),
        item_type: "PipeRun".to_string(),
        model_id: Some("M1".to_string()),
        extra: m,
    }
}

#[test]
fn neighbor_label_prefers_tag_then_item_tag_then_smallest_key() {
    let p = project_neighbor(&object(&[("Zeta", "z"), ("ItemTag", "it"), ("Tag", "t")]));
    assert_eq!(p.tag_label.as_deref(), Some("t"));
    assert_eq!(p.drawing_id, "D1");
    assert_eq!(p.item_type, "PipeRun");
    assert_eq!(p.model_id.as_deref(), Some("M1"));
    let p = project_neighbor(&object(&[("Zeta", "z"), ("ItemTag", "it")]));
    assert_eq!(p.tag_label.as_deref(), Some("it"));
    let p = project_neighbor(&object(&[("Zeta", "z"), ("Alpha", "a"), ("Mid", "m")]));
    assert_eq!(p.tag_label.as_deref(), Some("a"));
    let p = project_neighbor(&object(&[]));
    assert_eq!(p.tag_label, None);
}

fn info(id: &str) -> PidNeighborInfo {
    PidNeighborInfo { drawing_id: id.to_string(), item_type: "T".to_string(), model_id: None, tag_label: None }
}

#[test]
fn path_endpoints_are_first_and_last() {
    let (a, b) = pid_path_endpoints("A", &vec![info("A"), info("B"), info("C")]);
    assert_eq!(a, info("A"));
    assert_eq!(b, info("C"));
    let (a, b) = pid_path_endpoints("Q", &vec![]);
    assert_eq!(a.drawing_id, "Q");
    assert_eq!(a.item_type, "");
    assert_eq!(b, a);
}

#[test]
fn graph_and_path_messages() {
    assert_eq!(no_graph_error(), "source PID has no object_graph (P&IDAttributes not parsed)");
    assert_eq!(
        no_path_error("A", "B"),
        "no path from A to B (graph disconnected within these endpoints)"
    );
}

#[test]
fn short_labels() {
    assert_eq!(short_text("abcdef", 3), "abc…");
    assert_eq!(short_text("abc", 3), "abc");
    assert_eq!(short_text("中文字", 2), "中文…");
    assert_eq!(short_id("0123456789ABCDEF"), "01234567");
    assert_eq!(short_id("short"), "short");
    assert_eq!(short_id("abcdefg中"), "abcdefg中");
    assert_eq!(short_id("ab中def"), "ab中def");
    assert_eq!(short_id("abcde中xyz"), "abcde中");
    assert_eq!(sanitize_layer_name("Pipe Run/2-a"), "Pipe_Run_2_a");
}

fn fixture_package() -> PidPackageData {
    PidPackageData {
        streams: vec![
            PidRawStream { path: "/Blob".to_string(), data: vec![0xff, 0xfe] },
            PidRawStream { path: DRAWING_STREAM_PATH.to_string(), data: b"<Drawing/>".to_vec() },
            PidRawStream { path: GENERAL_STREAM_PATH.to_string(), data: b"<General/>".to_vec() },
        ],
        root_clsid: Some("12345678-1234-1234-1234-123456789abc".to_string()),
        storage_clsids: vec![("/JSite0".to_string(), "x".to_string())],
    }
}

fn store_with_fixture(src: &str) -> PidPackageStore {
    let mut store = PidPackageStore::new();
    cache_package(&mut store, src.to_string(), fixture_package());
    store
}

#[test]
fn build_pid_health_report_aggregates_from_cached_package() {
    let store = store_with_fixture("/tmp/report.pid");
    let listing = PidPropsListing {
        drawing_attributes: vec![("SP_DRAWINGNUMBER".to_string(), "D-1".to_string())],
        general_elements: vec![],
    };
    let pkg = get_package(&store, "/tmp/report.pid").unwrap();
    let verify = compare_streams(pkg, pkg);
    let r = build_pid_health_report(&store, "/tmp/report.pid", None, Some(listing), Some(verify), None, None)
        .expect("report");
    assert_eq!(r.stream_count, 3);
    assert!(r.graph_stats.is_none());
    assert!(r.drawing_attributes.iter().any(|(k, _)| k == "SP_DRAWINGNUMBER"));
    assert!(r.unidentified.is_empty());
    assert!(r.verify.as_ref().expect("verify present").ok());
    assert_eq!(r.root_clsid.as_deref(), Some("{12345678-1234-1234-1234-123456789abc}"));
    assert_eq!(r.non_root_clsid_count, 1);
    assert_eq!(r.version_log, None);
}

#[test]
fn health_report_keeps_sub_reports_and_errors_without_cache() {
    let store = store_with_fixture("/tmp/report.pid");
    let stats = PidGraphStats { object_count: 3, relationship_count: 2, fully_resolved: 1, partially_resolved: 1, unresolved: 0 };
    let log = PidVersionLog { magic_u32_le: 7, reserved_all_zero: true, records: vec![] };
    let r = build_pid_health_report(&store, "/tmp/report.pid", Some(stats), None, None, Some(vec![]), Some(Some(log.clone())))
        .unwrap();
    assert_eq!(r.graph_stats, Some(stats));
    assert_eq!(r.version_log, Some(log));
    assert!(r.drawing_attributes.is_empty());
    let err = build_pid_health_report(&store, "/tmp/other.pid", None, None, None, None, None).unwrap_err();
    assert_eq!(err, "no cached PidPackage for /tmp/other.pid (open the file in H7CAD first)");
}

#[test]
fn metadata_stream_access_errors() {
    let store = store_with_fixture("/tmp/meta.pid");
    assert_eq!(cached_stream_xml(&store, "/tmp/meta.pid", DRAWING_STREAM_PATH, "Drawing").unwrap(), "<Drawing/>");
    assert_eq!(
        cached_stream_xml(&store, "/tmp/meta.pid", "/TaggedTxtData/Missing", "Drawing").unwrap_err(),
        "source PID is missing /TaggedTxtData/Missing stream"
    );
    let e = cached_stream_xml(&store, "/tmp/meta.pid", "/Blob", "General").unwrap_err();
    assert!(e.starts_with("General XML is not UTF-8 (BOM/UTF-16 not yet supported): "), "got: {e}");
    assert!(cached_stream_xml(&store, "/tmp/none.pid", DRAWING_STREAM_PATH, "Drawing")
        .unwrap_err()
        .starts_with("no cached PidPackage for /tmp/none.pid"));
    assert_eq!(cached_stream_text(&store, "/tmp/meta.pid", "/Blob"), None);
    assert_eq!(cached_stream_text(&store, "/tmp/meta.pid", GENERAL_STREAM_PATH).as_deref(), Some("<General/>"));
}

#[test]
fn edit_pid_drawing_number_swaps_attribute_in_cached_package() {
    let mut store = store_with_fixture("/tmp/edit.pid");
    let new_xml = "<Drawing><Tag SP_DRAWINGNUMBER=\"NEW-42\"/></Drawing>".to_string();
    let edit = edit_pid_drawing_attribute(
        &mut store,
        "/tmp/edit.pid",
        "SP_DRAWINGNUMBER",
        "NEW-42",
        Some("OLD".to_string()),
        Ok(new_xml.clone()),
    );
    let e = edit.unwrap();
    assert_eq!(e.previous.as_deref(), Some("OLD"));
    let mut store2 = store_with_fixture("/tmp/edit.pid");
    let seen = std::cell::RefCell::new(String::new());
    let number = edit_pid_drawing_number(&mut store2, "/tmp/edit.pid", "NEW-42", |xml: String| {
        *seen.borrow_mut() = xml;
        (Some("OLD".to_string()), Ok(new_xml.clone()))
    })
    .expect("edit ok");
    assert_eq!(*seen.borrow(), "<Drawing/>");
    assert_eq!(number.previous.as_deref(), Some("OLD"));
    assert_eq!(number.next, "NEW-42");
    assert_eq!(number.new_xml_len, new_xml.len());
    assert_eq!(
        cached_stream_xml(&store2, "/tmp/edit.pid", DRAWING_STREAM_PATH, "Drawing").unwrap(),
        new_xml
    );
    assert_eq!(e.attr, "SP_DRAWINGNUMBER");
    assert_eq!(
        cached_stream_xml(&store, "/tmp/edit.pid", DRAWING_STREAM_PATH, "Drawing").unwrap(),
        new_xml
    );
    assert_eq!(cached_stream_text(&store, "/tmp/edit.pid", GENERAL_STREAM_PATH).as_deref(), Some("<General/>"));
}

#[test]
fn edit_pid_drawing_number_without_cached_package_errors() {
    let mut store = PidPackageStore::new();
    let err = edit_pid_drawing_number(&mut store, "/tmp/none.pid", "X", |_x: String| (None, Ok("<x/>".to_string())))
        .unwrap_err();
    assert!(err.contains("no cached PidPackage"), "got: {err}");
    assert!(err.contains("/tmp/none.pid"), "got: {err}");
}

#[test]
fn failed_editor_leaves_cache_untouched() {
    let mut store = store_with_fixture("/tmp/fail.pid");
    let r = edit_pid_general_element(&mut store, "/tmp/fail.pid", "FilePath", "x", None, Err("boom".to_string()));
    assert_eq!(r.unwrap_err(), "metadata edit failed: boom");
    assert_eq!(cached_stream_text(&store, "/tmp/fail.pid", GENERAL_STREAM_PATH).as_deref(), Some("<General/>"));
}

#[test]
fn general_edit_reports_utf8_byte_length() {
    let mut store = store_with_fixture("/tmp/gen.pid");
    let r = edit_pid_general_element(&mut store, "/tmp/gen.pid", "FilePath", "路径", Some("a".to_string()), Ok("<General>路径</General>".to_string()))
        .unwrap();
    assert_eq!(r.new_xml_len, "<General>路径</General>".len());
    assert_eq!(r.element, "FilePath");
    assert_eq!(apply_stream_edit(&mut store, "/tmp/gen.pid", "/Blob", Ok("ok".to_string())), Ok(2));
    assert_eq!(cached_stream_text(&store, "/tmp/gen.pid", "/Blob").as_deref(), Some("ok"));
}

#[test]
fn drawing_number_editor_failure_is_reported_and_cache_kept() {
    let mut store = store_with_fixture("/tmp/dn.pid");
    let err = edit_pid_drawing_number(&mut store, "/tmp/dn.pid", "X", |_x: String| (None, Err("x".to_string())))
        .unwrap_err();
    assert_eq!(err, "metadata edit failed: x");
    assert_eq!(
        cached_stream_xml(&store, "/tmp/dn.pid", DRAWING_STREAM_PATH, "Drawing").unwrap(),
        "<Drawing/>"
    );
}

#[test]
fn edit_pid_drawing_number_rejects_non_utf8_drawing_xml() {
    let mut store = PidPackageStore::new();
    let pkg = PidPackageData {
        streams: vec![PidRawStream {
            path: DRAWING_STREAM_PATH.to_string(),
            data: vec![0xFF, 0xFE, 0x44, 0x00, 0x72, 0x00],
        }],
        root_clsid: None,
        storage_clsids: vec![],
    };
    cache_package(&mut store, "/tmp/bom.pid".to_string(), pkg);
    let err = edit_pid_drawing_number(&mut store, "/tmp/bom.pid", "X", |_x: String| (None, Ok("<x/>".to_string())))
        .unwrap_err();
    assert!(err.contains("not UTF-8"), "got: {err}");
    assert_eq!(get_package(&store, "/tmp/bom.pid").unwrap().streams[0].data, vec![0xFF, 0xFE, 0x44, 0x00, 0x72, 0x00]);
}

#[test]
fn cache_keys_are_paths_in_component_order() {
    let mut store = PidPackageStore::new();
    let empty = || PidPackageData { streams: vec![], root_clsid: None, storage_clsids: vec![] };
    cache_package(&mut store, "a-b".to_string(), empty());
    cache_package(&mut store, "a/b".to_string(), empty());
    cache_package(&mut store, "a/b/".to_string(), empty());
    cache_package(&mut store, "/z".to_string(), empty());
    cache_package(&mut store, "./a".to_string(), empty());
    assert_eq!(
        h7cad::pid_store::cached_paths(&store),
        vec!["/z".to_string(), "./a".to_string(), "a/b".to_string(), "a-b".to_string()]
    );
    assert!(get_package(&store, "a//b/.").is_some());
    assert!(get_package(&store, "a/b/c").is_none());
}

#[test]
fn sidecar_pair_is_both_or_nothing() {
    assert_eq!(check_sidecar_pair(false, false, "p.pid", "p_Data.xml", "p_Meta.xml"), Ok(false));
    assert_eq!(check_sidecar_pair(true, true, "p.pid", "p_Data.xml", "p_Meta.xml"), Ok(true));
    assert_eq!(
        check_sidecar_pair(true, false, "p.pid", "p_Data.xml", "p_Meta.xml").unwrap_err(),
        "incomplete publish bundle beside p.pid (expected both p_Data.xml and p_Meta.xml)"
    );
}

#[test]
fn save_requires_cached_package() {
    let store = store_with_fixture("/tmp/save.pid");
    assert_eq!(package_for_save(&store, "/tmp/save.pid").unwrap().streams.len(), 3);
    assert_eq!(
        package_for_save(&store, "/tmp/other.pid").unwrap_err(),
        "PID save requires the original .pid file to be opened first (no cached package for /tmp/other.pid)"
    );
}

#[test]
fn diff_pid_files_errors_on_non_pid_extension() {
    assert_eq!(check_pid_diff_inputs("a.pid", "b.PID"), Ok(()));
    assert_eq!(check_pid_diff_inputs("a.txt", "b.pid").unwrap_err(), "a: 'a.txt' is not a .pid file");
    assert_eq!(check_pid_diff_inputs("a.pid", "b").unwrap_err(), "b: 'b' is not a .pid file");
    assert_eq!(pid_extension_error("a", "x.Pid", Some("Pid")), None);
}

#[test]
fn diff_inputs_are_checked_by_final_segment_extension() {
    assert_eq!(check_pid_diff_inputs("/data/a.Pid", "rel/b.pid"), Ok(()));
    assert_eq!(
        check_pid_diff_inputs("/data.pid/a", "b.pid").unwrap_err(),
        "a: '/data.pid/a' is not a .pid file"
    );
    assert_eq!(check_pid_diff_inputs(".pid", "b.pid").unwrap_err(), "a: '.pid' is not a .pid file");
}
