use steering::DirEntry;
use steering::DirListing;
use steering::DirState;
use steering::EntryKind;
use steering::FileRead;
use steering::OmissionReason;
use steering::SteeringFileStatus;
use steering::SteeringScope;
use steering::discover_steering_files;
use steering::load_steering_docs;

fn file_entry(name: &str) -> DirEntry {
    DirEntry { name: name.to_string(), kind: EntryKind::RegularFile }
}

fn listed(names: &[&str]) -> DirListing {
    DirListing::Listed(names.iter().map(|n| file_entry(n)).collect())
}

#[test]
fn discovers_files_in_stable_order() {
    let discovery = discover_steering_files(
        "/codex home".to_string(),
        "/repo".to_string(),
        listed(&["b.md", "a.md"]),
        listed(&["02.md", "01.md"]),
    );
    let display: Vec<String> = discovery.files.iter().map(|f| f.display_path.clone()).collect();
    assert_eq!(
        display,
        vec![
            "$CODEX_HOME/steering/a.md".to_string(),
            "$CODEX_HOME/steering/b.md".to_string(),
            ".codex/steering/01.md".to_string(),
            ".codex/steering/02.md".to_string(),
        ]
    );
}

#[test]
fn project_files_override_global_by_later_placement() {
    let discovery = discover_steering_files(
        "/codex home".to_string(),
        "/repo".to_string(),
        listed(&["00.md"]),
        listed(&["00.md"]),
    );
    let reads = vec![
        FileRead::Content(b"rule: global".to_vec()),
        FileRead::Content(b"rule: project".to_vec()),
    ];
    let loaded = load_steering_docs(true, 4096, discovery, &reads);
    let combined = loaded.combined.expect("combined");
    let global_idx = combined.find("rule: global").expect("global present");
    let project_idx = combined.find("rule: project").expect("project present");
    assert!(
        global_idx < project_idx,
        "project steering should appear after global steering"
    );
}

#[test]
fn enforces_max_bytes_and_reports_omissions() {
    let discovery = discover_steering_files(
        "/codex home".to_string(),
        "/repo".to_string(),
        DirListing::Missing,
        listed(&["01.md", "02.md", "03.md"]),
    );
    let reads = vec![
        FileRead::Content("A".repeat(10).into_bytes()),
        FileRead::Content("B".repeat(10).into_bytes()),
        FileRead::Content("C".repeat(10).into_bytes()),
    ];
    let loaded = load_steering_docs(true, 15, discovery, &reads);
    let combined = loaded.combined.expect("combined");
    assert!(combined.contains("[Steering: note]"));
    assert!(combined.contains(".codex/steering/03.md"));
    assert!(combined.contains("file=.codex/steering/02.md truncated=true"));
    assert_eq!(loaded.files.len(), 3);
    assert!(matches!(
        loaded.files[0].status,
        SteeringFileStatus::Included { .. }
    ));
    assert!(matches!(
        loaded.files[1].status,
        SteeringFileStatus::Included {
            truncated: true,
            ..
        }
    ));
    assert!(matches!(
        loaded.files[2].status,
        SteeringFileStatus::Omitted {
            reason: OmissionReason::OverBudget
        }
    ));
}

#[test]
fn opt_out_disables_loading() {
    let discovery = discover_steering_files(
        "/codex home".to_string(),
        "/repo".to_string(),
        DirListing::Missing,
        listed(&["01.md"]),
    );
    let reads = vec![FileRead::Content(b"hello".to_vec())];
    let loaded = load_steering_docs(false, 4096, discovery, &reads);
    assert!(!loaded.enabled);
    assert!(loaded.combined.is_none());
    assert!(matches!(
        loaded.files[0].status,
        SteeringFileStatus::Omitted {
            reason: OmissionReason::Disabled
        }
    ));
}

#[test]
fn ignores_empty_files() {
    let discovery = discover_steering_files(
        "/codex home".to_string(),
        "/repo".to_string(),
        DirListing::Missing,
        listed(&["01.md"]),
    );
    let reads = vec![FileRead::Content(Vec::new())];
    let loaded = load_steering_docs(true, 4096, discovery, &reads);
    assert!(matches!(
        loaded.files[0].status,
        SteeringFileStatus::Omitted {
            reason: OmissionReason::Empty
        }
    ));
}

#[test]
fn ignores_non_utf8_files() {
    let discovery = discover_steering_files(
        "/codex home".to_string(),
        "/repo".to_string(),
        DirListing::Missing,
        listed(&["01.md"]),
    );
    let reads = vec![FileRead::Content(vec![0xff, 0xfe, 0xfd])];
    let loaded = load_steering_docs(true, 4096, discovery, &reads);
    assert!(matches!(
        loaded.files[0].status,
        SteeringFileStatus::Omitted {
            reason: OmissionReason::NonUtf8
        }
    ));
}

#[test]
fn budget_scenario_counts_and_note() {
    let discovery = discover_steering_files(
        "/codex home".to_string(),
        "/repo".to_string(),
        DirListing::Missing,
        listed(&["01.md", "02.md", "03.md"]),
    );
    let reads = vec![
        FileRead::Content(b"AAAAAAAAAA".to_vec()),
        FileRead::Content(b"BBBBBBBBBB".to_vec()),
        FileRead::Content(b"CCCCCCCCCC".to_vec()),
    ];
    let loaded = load_steering_docs(true, 15, discovery, &reads);
    assert!(matches!(
        loaded.files[0].status,
        SteeringFileStatus::Included { bytes: 10, truncated: false }
    ));
    assert!(matches!(
        loaded.files[1].status,
        SteeringFileStatus::Included { bytes: 5, truncated: true }
    ));
    assert!(matches!(
        loaded.files[2].status,
        SteeringFileStatus::Omitted { reason: OmissionReason::OverBudget }
    ));
    let combined = loaded.combined.expect("combined");
    assert!(combined.contains("AAAAAAAAAA"));
    assert!(combined.contains("BBBBB"));
    assert!(!combined.contains("BBBBBB"));
    assert!(combined.contains("- scope=project file=.codex/steering/03.md reason=over-budget"));
}

#[test]
fn non_md_entries_are_never_candidates() {
    let discovery = discover_steering_files(
        "/codex home".to_string(),
        "/repo".to_string(),
        listed(&["notes.txt", "README", "md", ".md", "ok.md", "upper.MD"]),
        DirListing::Missing,
    );
    assert_eq!(discovery.files.len(), 1);
    assert_eq!(discovery.files[0].display_path, "$CODEX_HOME/steering/ok.md");
}

#[test]
fn non_regular_entries_are_never_candidates() {
    let entries = vec![
        DirEntry { name: "link.md".to_string(), kind: EntryKind::NotFile },
        DirEntry { name: "dir.md".to_string(), kind: EntryKind::StatFailed },
        DirEntry { name: "real.md".to_string(), kind: EntryKind::RegularFile },
    ];
    let discovery = discover_steering_files(
        "/codex home".to_string(),
        "/repo".to_string(),
        DirListing::Listed(entries),
        DirListing::Missing,
    );
    assert_eq!(discovery.files.len(), 1);
    assert_eq!(discovery.files[0].display_path, "$CODEX_HOME/steering/real.md");
}

#[test]
fn directory_health_is_recorded() {
    let discovery = discover_steering_files(
        "/codex home".to_string(),
        "/repo".to_string(),
        DirListing::Missing,
        DirListing::Unreadable("permission denied".to_string()),
    );
    assert_eq!(discovery.global_dir_state, DirState::Missing);
    assert_eq!(
        discovery.project_dir_state,
        DirState::Error("permission denied".to_string())
    );
    assert_eq!(discovery.global_dir, "/codex home/steering");
    assert_eq!(discovery.project_dir, "/repo/.codex/steering");
    assert!(discovery.files.is_empty());
}

#[test]
fn open_failure_is_reported_per_file() {
    let discovery = discover_steering_files(
        "/codex home".to_string(),
        "/repo".to_string(),
        DirListing::Missing,
        listed(&["01.md", "02.md"]),
    );
    let reads = vec![
        FileRead::OpenFailed("permission denied".to_string()),
        FileRead::Content(b"kept".to_vec()),
    ];
    let loaded = load_steering_docs(true, 4096, discovery, &reads);
    assert!(matches!(
        &loaded.files[0].status,
        SteeringFileStatus::Omitted { reason: OmissionReason::Io(m) } if m == "permission denied"
    ));
    assert!(matches!(
        loaded.files[1].status,
        SteeringFileStatus::Included { bytes: 4, truncated: false }
    ));
    let combined = loaded.combined.expect("combined");
    assert!(combined.contains("kept"));
}

#[test]
fn whitespace_only_files_are_empty() {
    let discovery = discover_steering_files(
        "/codex home".to_string(),
        "/repo".to_string(),
        DirListing::Missing,
        listed(&["01.md"]),
    );
    let reads = vec![FileRead::Content(" \t\r\n \u{00a0}\u{2003}".to_string().into_bytes())];
    let loaded = load_steering_docs(true, 4096, discovery, &reads);
    assert!(matches!(
        loaded.files[0].status,
        SteeringFileStatus::Omitted { reason: OmissionReason::Empty }
    ));
    assert!(loaded.combined.is_none());
}

#[test]
fn zero_budget_disables_loading() {
    let discovery = discover_steering_files(
        "/codex home".to_string(),
        "/repo".to_string(),
        DirListing::Missing,
        listed(&["01.md"]),
    );
    let reads = vec![FileRead::Content(b"hello".to_vec())];
    let loaded = load_steering_docs(true, 0, discovery, &reads);
    assert!(!loaded.enabled);
    assert!(loaded.combined.is_none());
    assert!(matches!(
        loaded.files[0].status,
        SteeringFileStatus::Omitted { reason: OmissionReason::Disabled }
    ));
}

#[test]
fn scope_and_reason_names() {
    assert_eq!(SteeringScope::Global.as_str(), "global");
    assert_eq!(SteeringScope::Project.as_str(), "project");
    assert_eq!(OmissionReason::Disabled.as_str(), "disabled");
    assert_eq!(OmissionReason::Empty.as_str(), "empty");
    assert_eq!(OmissionReason::NonUtf8.as_str(), "non-utf8");
    assert_eq!(OmissionReason::OverBudget.as_str(), "over-budget");
    assert_eq!(OmissionReason::Io("boom".to_string()).as_str(), "io-error");
}
