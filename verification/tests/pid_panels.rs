use h7cad::pid_panels::{
    cluster_panel_lines, cross_reference_panel_lines, overview_panel_text, stream_panel_lines,
    symbol_panel_lines, unresolved_panel_lines, PanelLine, PidAttributeClassEntry,
    PidClusterEntry, PidCrossReferenceSummary, PidRootEntry, PidSheetEntry, PidSymbolEntry,
    PID_SOURCE_NOTE,
};
use h7cad::pid_report::PidNodeKey;

fn texts(lines: &[PanelLine]) -> Vec<String> {
    lines.iter().map(|l| l.text.clone()).collect()
}

fn symbol(name: Option<&str>, path: &str, uses: u64) -> PidSymbolEntry {
    PidSymbolEntry {
        symbol_name: name.map(|n| n.to_string()),
        symbol_path: path.to_string(),
        usage_count: uses,
    }
}

#[test]
fn symbol_panel_lists_name_or_short_path_with_usage() {
    assert!(symbol_panel_lines(&Vec::new()).is_empty());
    let lines = symbol_panel_lines(&vec![
        symbol(Some("Gate Valve"), "\\Valves\\gate.sym", 3),
        symbol(None, "\\Very\\Long\\Library\\Path\\to\\symbol.sym", 1),
    ]);
    assert_eq!(
        texts(&lines),
        vec![
            "Symbols".to_string(),
            "Gate Valve [3]".to_string(),
            "\\Very\\Long\\Library\\Path\\… [1]".to_string(),
        ]
    );
    assert!(lines[0].key.is_none());
    assert_eq!(
        lines[1].key,
        Some(PidNodeKey::Symbol { symbol_path: "\\Valves\\gate.sym".to_string() })
    );
}

#[test]
fn symbol_panel_is_capped_at_ten_rows() {
    let many: Vec<PidSymbolEntry> = (0..15).map(|i| symbol(Some("S"), &format!("p{i}"), i)).collect();
    let lines = symbol_panel_lines(&many);
    assert_eq!(lines.len(), 11);
    assert_eq!(lines[10].text, "S [9]");
}

#[test]
fn cluster_panel_keys_sheets_coverage_and_clusters() {
    let clusters = vec![
        PidClusterEntry {
            name: "Sheet1".to_string(),
            kind: "Sheet".to_string(),
            record_count: 4,
            note: "main".to_string(),
        },
        PidClusterEntry {
            name: "Coverage".to_string(),
            kind: "Coverage".to_string(),
            record_count: 0,
            note: String::new(),
        },
        PidClusterEntry {
            name: "Group".to_string(),
            kind: "Other".to_string(),
            record_count: 12,
            note: "n".to_string(),
        },
    ];
    let lines = cluster_panel_lines(&clusters);
    assert_eq!(
        texts(&lines),
        vec!["Clusters / Sheets", "Sheet1 [4] main", "Coverage [0] ", "Group [12] n"]
    );
    assert_eq!(lines[1].key, Some(PidNodeKey::Sheet { name: "Sheet1".to_string() }));
    assert_eq!(lines[1].also, Some(PidNodeKey::Stream { name: "Sheet1".to_string() }));
    assert_eq!(lines[2].key, Some(PidNodeKey::ClusterCoverage));
    assert_eq!(lines[2].also, None);
    assert_eq!(lines[3].key, Some(PidNodeKey::Cluster { name: "Group".to_string() }));
    assert!(cluster_panel_lines(&Vec::new()).is_empty());
}

fn cross(classes: usize, roots: usize, missing: usize, extra: usize) -> PidCrossReferenceSummary {
    PidCrossReferenceSummary {
        attribute_classes: (0..classes)
            .map(|i| PidAttributeClassEntry { class_name: format!("C{i}"), record_count: i as u64 })
            .collect(),
        root_presence: (0..roots)
            .map(|i| PidRootEntry {
                name: format!("R{i}"),
                found_as_storage: i % 2 == 0,
                found_as_stream: false,
            })
            .collect(),
        declared_missing: missing,
        found_extra: extra,
    }
}

#[test]
fn cross_reference_panel_lists_classes_roots_and_coverage() {
    assert!(cross_reference_panel_lines(&None).is_empty());
    assert!(cross_reference_panel_lines(&Some(cross(0, 0, 0, 0))).is_empty());
    let lines = cross_reference_panel_lines(&Some(cross(2, 2, 1, 0)));
    assert_eq!(
        texts(&lines),
        vec![
            "Cross Reference",
            "C0 [0 records]",
            "C1 [1 records]",
            "root R0 [ok]",
            "root R1 [missing]",
            "coverage missing=1 extra=0",
        ]
    );
    assert_eq!(lines[3].key, Some(PidNodeKey::Root { name: "R0".to_string() }));
    assert_eq!(lines[5].key, Some(PidNodeKey::ClusterCoverage));
    let capped = cross_reference_panel_lines(&Some(cross(20, 20, 0, 0)));
    assert_eq!(capped.len(), 1 + 8 + 6);
}

#[test]
fn stream_panel_lists_dynamic_sheets_tagged_and_coverage() {
    assert!(stream_panel_lines(None, &Vec::new(), &Some(Vec::new()), &None).is_empty());
    let sheets = vec![PidSheetEntry { name: "/Sheet1".to_string(), endpoint_count: 5 }];
    let tagged = Some(vec!["Drawing".to_string()]);
    let lines = stream_panel_lines(Some(7), &sheets, &tagged, &Some(cross(0, 0, 0, 2)));
    assert_eq!(
        texts(&lines),
        vec![
            "Streams",
            "DynamicAttrs [7 records]",
            "/Sheet1 [5 endpoints]",
            "TaggedText Drawing",
            "ClusterCoverage missing=0 extra=2",
        ]
    );
    assert_eq!(lines[1].key, Some(PidNodeKey::DynamicAttributes));
    assert_eq!(lines[2].key, Some(PidNodeKey::Stream { name: "/Sheet1".to_string() }));
    assert_eq!(lines[2].also, Some(PidNodeKey::Sheet { name: "/Sheet1".to_string() }));
    assert_eq!(
        lines[3].key,
        Some(PidNodeKey::TaggedStorage { storage_name: "Drawing".to_string() })
    );
    let only_cross = stream_panel_lines(None, &Vec::new(), &None, &Some(cross(1, 0, 0, 0)));
    assert_eq!(texts(&only_cross), vec!["Streams"]);
}

#[test]
fn unresolved_panel_reports_edges_and_notes() {
    assert!(unresolved_panel_lines(&Vec::new(), 0).is_empty());
    let lines = unresolved_panel_lines(&vec!["dangling connector".to_string()], 3);
    assert_eq!(
        texts(&lines),
        vec!["Unresolved", "3 unresolved relationship edge(s)", "dangling connector"]
    );
    assert_eq!(
        lines[1].key,
        Some(PidNodeKey::Unresolved { label: "3 unresolved relationship edge(s)".to_string() })
    );
    let notes_only = unresolved_panel_lines(&vec!["x".to_string(); 10], 0);
    assert_eq!(notes_only.len(), 9);
}

#[test]
fn overview_text_joins_lines_with_paragraph_breaks() {
    assert_eq!(
        overview_panel_text("Plant A", &Some("P-42".to_string()), 5, 4, 3, 2, 1),
        "Plant A\\Pproject=P-42\\Pobjects=5 relationships=4 symbols=3 clusters=2 unresolved=1"
    );
    assert_eq!(
        overview_panel_text("T", &None, 0, 0, 0, 0, 0),
        "T\\Pobjects=0 relationships=0 symbols=0 clusters=0 unresolved=0"
    );
    assert_eq!(PID_SOURCE_NOTE, "Imported from Smart P&ID via pid-parse");
}
