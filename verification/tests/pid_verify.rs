use h7cad::pid_store::{cache_package, PidPackageData, PidPackageStore, PidRawStream};
use h7cad::pid_verify::{compare_streams, no_cache_error, read_pid_clsid};

fn stream(path: &str, data: &[u8]) -> PidRawStream {
    PidRawStream { path: path.to_string(), data: data.to_vec() }
}

fn pkg(streams: Vec<PidRawStream>) -> PidPackageData {
    PidPackageData { streams, root_clsid: None, storage_clsids: vec![] }
}

#[test]
fn read_pid_clsid_returns_none_for_default_package() {
    let mut store = PidPackageStore::new();
    cache_package(&mut store, "/tmp/clsid-default.pid".to_string(), pkg(vec![]));
    let info = read_pid_clsid(&store, "/tmp/clsid-default.pid").expect("clsid read");
    assert_eq!(info.root_clsid, None);
    assert!(info.non_root.is_empty());
}

#[test]
fn read_pid_clsid_returns_populated_fields() {
    let mut store = PidPackageStore::new();
    let sub = "abcdef01-2345-6789-abcd-ef0123456789".to_string();
    let package = PidPackageData {
        streams: vec![],
        root_clsid: Some("12345678-1234-1234-1234-123456789abc".to_string()),
        storage_clsids: vec![("/JSite0".to_string(), sub.clone()), ("/JSite1".to_string(), sub)],
    };
    cache_package(&mut store, "/tmp/clsid-populated.pid".to_string(), package);
    let info = read_pid_clsid(&store, "/tmp/clsid-populated.pid").expect("clsid read");
    assert_eq!(info.root_clsid.as_deref(), Some("{12345678-1234-1234-1234-123456789abc}"));
    assert_eq!(info.non_root.len(), 2);
    assert_eq!(info.non_root[0].0, "/JSite0");
    assert_eq!(info.non_root[0].1, "{abcdef01-2345-6789-abcd-ef0123456789}");
    assert_eq!(info.non_root[1].0, "/JSite1");
}

#[test]
fn read_pid_clsid_without_cache_errors() {
    let store = PidPackageStore::new();
    let err = read_pid_clsid(&store, "/tmp/none.pid").unwrap_err();
    assert_eq!(err, "no cached PidPackage for /tmp/none.pid (open the file in H7CAD first)");
    assert_eq!(no_cache_error("x"), "no cached PidPackage for x (open the file in H7CAD first)");
}

#[test]
fn identical_packages_compare_clean() {
    let a = pkg(vec![stream("/A", b"one"), stream("/B", b"two"), stream("/C", b"")]);
    let b = pkg(vec![stream("/A", b"one"), stream("/B", b"two"), stream("/C", b"")]);
    let r = compare_streams(&a, &b);
    assert!(r.ok());
    assert_eq!(r.stream_count, 3);
    assert_eq!(r.matched, 3);
    assert!(r.mismatches.is_empty());
}

#[test]
fn compare_reports_first_difference_and_missing_streams() {
    let a = pkg(vec![stream("/A", b"abcdef"), stream("/B", b"xyz"), stream("/Only", b"1")]);
    let b = pkg(vec![stream("/A", b"abXdef"), stream("/B", b"xy"), stream("/New", b"2")]);
    let r = compare_streams(&a, &b);
    assert!(!r.ok());
    assert_eq!(r.stream_count, 3);
    assert_eq!(r.matched, 0);
    assert_eq!(r.mismatches.len(), 2);
    assert_eq!(r.mismatches[0].path, "/A");
    assert_eq!(r.mismatches[0].first_diff_offset, 2);
    assert_eq!(r.mismatches[0].source_len, 6);
    assert_eq!(r.mismatches[0].roundtrip_len, 6);
    assert_eq!(r.mismatches[1].path, "/B");
    assert_eq!(r.mismatches[1].first_diff_offset, 2);
    assert_eq!(r.only_in_source, vec!["/Only".to_string()]);
    assert_eq!(r.only_in_roundtrip, vec!["/New".to_string()]);
}

#[test]
fn read_pid_clsid_lists_storages_in_path_order() {
    let mut store = PidPackageStore::new();
    let package = PidPackageData {
        streams: vec![],
        root_clsid: None,
        storage_clsids: vec![
            ("/A".to_string(), "11111111-2222-3333-4444-555555555555".to_string()),
            ("/B".to_string(), "66666666-7777-8888-9999-000000000000".to_string()),
        ],
    };
    cache_package(&mut store, "/tmp/clsid-order.pid".to_string(), package);
    let info = read_pid_clsid(&store, "/tmp/clsid-order.pid").expect("clsid read");
    assert_eq!(info.root_clsid, None);
    let paths: Vec<&str> = info.non_root.iter().map(|p| p.0.as_str()).collect();
    assert_eq!(paths, vec!["/A", "/B"]);
    assert!(info.non_root.iter().all(|p| p.1 != "{00000000-0000-0000-0000-000000000000}"));
    assert_eq!(info.non_root[1].1, "{66666666-7777-8888-9999-000000000000}");
}
