use h7cad::pid_store::{
    cache_package, cache_stats, cached_entry_summaries, cached_paths, clear_package, get_package,
    PidPackageData, PidPackageStore, PidRawStream,
};

fn fixture_pkg(tag: &str) -> PidPackageData {
    PidPackageData {
        streams: vec![PidRawStream { path: "/Marker".to_string(), data: tag.as_bytes().to_vec() }],
        root_clsid: None,
        storage_clsids: vec![],
    }
}

fn marker(store: &PidPackageStore, path: &str) -> Vec<u8> {
    let pkg = get_package(store, path).expect("cached");
    pkg.streams.iter().find(|s| s.path == "/Marker").unwrap().data.clone()
}

#[test]
fn cache_then_get_returns_same_bytes() {
    let mut store = PidPackageStore::new();
    cache_package(&mut store, "/tmp/cache-then-get.pid".to_string(), fixture_pkg("hello"));
    assert_eq!(marker(&store, "/tmp/cache-then-get.pid"), b"hello");
    clear_package(&mut store, "/tmp/cache-then-get.pid");
}

#[test]
fn clear_package_removes_entry() {
    let mut store = PidPackageStore::new();
    let path = "/tmp/clear-entry.pid";
    cache_package(&mut store, path.to_string(), fixture_pkg("payload"));
    assert!(clear_package(&mut store, path));
    assert!(get_package(&store, path).is_none());
    assert!(!clear_package(&mut store, path), "second clear should report no-op");
}

#[test]
fn distinct_paths_dont_alias() {
    let mut store = PidPackageStore::new();
    cache_package(&mut store, "/tmp/distinct-a.pid".to_string(), fixture_pkg("AAA"));
    cache_package(&mut store, "/tmp/distinct-b.pid".to_string(), fixture_pkg("BBB"));
    assert_eq!(marker(&store, "/tmp/distinct-a.pid"), b"AAA");
    assert_eq!(marker(&store, "/tmp/distinct-b.pid"), b"BBB");
}

#[test]
fn cache_overwrites_existing_entry() {
    let mut store = PidPackageStore::new();
    let path = "/tmp/overwrite.pid";
    cache_package(&mut store, path.to_string(), fixture_pkg("first"));
    cache_package(&mut store, path.to_string(), fixture_pkg("second"));
    assert_eq!(marker(&store, path), b"second");
    assert_eq!(cache_stats(&store).entry_count, 1);
}

#[test]
fn cache_stats_reflects_insert_and_clear_via_tagged_filter() {
    let mut store = PidPackageStore::new();
    let tag = "stats-filter-";
    let a = format!("/tmp/{tag}a.pid");
    let b = format!("/tmp/{tag}b.pid");
    cache_package(&mut store, a.clone(), fixture_pkg("hello"));
    cache_package(&mut store, b.clone(), fixture_pkg("world!!"));
    let ours: Vec<_> = cached_entry_summaries(&store)
        .into_iter()
        .filter(|e| e.path.contains(tag))
        .collect();
    assert_eq!(ours.len(), 2);
    let bytes: u64 = ours.iter().map(|e| e.stream_bytes).sum();
    assert_eq!(bytes, 12);
    let stats = cache_stats(&store);
    assert_eq!(stats.entry_count, 2);
    assert_eq!(stats.total_stream_bytes, 12);
    clear_package(&mut store, &a);
    clear_package(&mut store, &b);
    assert!(cached_entry_summaries(&store).is_empty());
    assert_eq!(cache_stats(&store).entry_count, 0);
    assert_eq!(cache_stats(&store).total_stream_bytes, 0);
}

#[test]
fn cached_paths_returns_lexicographic_order() {
    let mut store = PidPackageStore::new();
    cache_package(&mut store, "/tmp/ordz-zzz.pid".to_string(), fixture_pkg("z"));
    cache_package(&mut store, "/tmp/ordz-aaa.pid".to_string(), fixture_pkg("a"));
    cache_package(&mut store, "/tmp/ordz-mmm.pid".to_string(), fixture_pkg("m"));
    let ours = cached_paths(&store);
    assert_eq!(ours.len(), 3);
    assert!(ours[0] < ours[1] && ours[1] < ours[2], "expected ascending lex order; got: {ours:?}");
}

#[test]
fn cached_entry_summaries_counts_streams_and_bytes() {
    let mut store = PidPackageStore::new();
    let mut streams = Vec::new();
    for i in 0..5usize {
        streams.push(PidRawStream { path: format!("/S{i}"), data: vec![0u8; 100] });
    }
    let pkg = PidPackageData { streams, root_clsid: None, storage_clsids: vec![] };
    cache_package(&mut store, "/tmp/entry-sum.pid".to_string(), pkg);
    let entry = cached_entry_summaries(&store)
        .into_iter()
        .find(|e| e.path == "/tmp/entry-sum.pid")
        .expect("our entry should appear in summaries");
    assert_eq!(entry.stream_count, 5);
    assert_eq!(entry.stream_bytes, 500);
}

#[test]
fn store_methods_match_free_functions() {
    let mut store = PidPackageStore::new();
    store.cache_package("/b".to_string(), fixture_pkg("x"));
    store.cache_package("/a".to_string(), fixture_pkg("yy"));
    assert_eq!(store.cached_paths(), vec!["/a".to_string(), "/b".to_string()]);
    assert_eq!(store.cache_stats().total_stream_bytes, 3);
    assert!(store.get_package("/c").is_none());
    assert!(store.clear_package("/a"));
    assert_eq!(store.cached_paths(), vec!["/b".to_string()]);
}

#[test]
fn cached_paths_keep_the_first_spelling_until_cleared() {
    let mut store = PidPackageStore::new();
    cache_package(&mut store, "proj/./unit.pid".to_string(), fixture_pkg("one"));
    cache_package(&mut store, "proj//unit.pid".to_string(), fixture_pkg("two"));
    assert_eq!(cached_paths(&store), vec!["proj/./unit.pid".to_string()]);
    assert_eq!(marker(&store, "proj/unit.pid"), b"two");
    assert_eq!(cached_entry_summaries(&store)[0].path, "proj/./unit.pid");
    assert!(clear_package(&mut store, "proj/unit.pid"));
    cache_package(&mut store, "proj//unit.pid".to_string(), fixture_pkg("three"));
    assert_eq!(cached_paths(&store), vec!["proj//unit.pid".to_string()]);
}

#[test]
fn cache_stats_total_is_saturating_sum_of_entry_bytes() {
    let mut store = PidPackageStore::new();
    cache_package(&mut store, "/s/a.pid".to_string(), fixture_pkg("12345"));
    cache_package(&mut store, "/s/b.pid".to_string(), fixture_pkg("123"));
    cache_package(&mut store, "/s/c.pid".to_string(), fixture_pkg(""));
    let stats = cache_stats(&store);
    let summaries = cached_entry_summaries(&store);
    assert_eq!(stats.entry_count, summaries.len());
    let total = summaries.iter().fold(0u64, |acc, e| acc.saturating_add(e.stream_bytes));
    assert_eq!(stats.total_stream_bytes, total);
    assert_eq!(total, 8);
}
