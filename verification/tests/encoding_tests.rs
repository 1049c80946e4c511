use steering::DirListing;
use steering::DirEntry;
use steering::EntryKind;
use steering::FileRead;
use steering::OmissionReason;
use steering::SteeringFileStatus;
use steering::SteeringScope;
use steering::Utf8Check;
use steering::check_utf8;
use steering::discover_steering_files;
use steering::format_omission_note;
use steering::load_steering_docs;
use steering::resolve_repo_root;

#[test]
fn check_utf8_accepts_valid_text() {
    assert_eq!(check_utf8(&b"hello".to_vec()), Utf8Check::Valid);
    assert_eq!(check_utf8(&Vec::new()), Utf8Check::Valid);
    assert_eq!(check_utf8(&"héllo €100 𝄞".to_string().into_bytes()), Utf8Check::Valid);
}

#[test]
fn check_utf8_flags_incomplete_trailing_sequences() {
    // a three-byte scalar cut after two bytes
    assert_eq!(
        check_utf8(&vec![0x61, 0xe2, 0x82]),
        Utf8Check::Invalid { valid_up_to: 1, incomplete: true }
    );
    // a two-byte scalar cut after its lead
    assert_eq!(
        check_utf8(&vec![0x61, 0xc3]),
        Utf8Check::Invalid { valid_up_to: 1, incomplete: true }
    );
    // a four-byte scalar cut after three bytes
    assert_eq!(
        check_utf8(&vec![0xf0, 0x9d, 0x84]),
        Utf8Check::Invalid { valid_up_to: 0, incomplete: true }
    );
}

#[test]
fn check_utf8_rejects_plain_invalidity() {
    assert_eq!(
        check_utf8(&vec![0xff, 0xfe, 0xfd]),
        Utf8Check::Invalid { valid_up_to: 0, incomplete: false }
    );
    // an overlong two-byte encoding of an ASCII value
    assert_eq!(
        check_utf8(&vec![0xc0, 0xaf]),
        Utf8Check::Invalid { valid_up_to: 0, incomplete: false }
    );
    // an overlong three-byte lead pair can never complete
    assert_eq!(
        check_utf8(&vec![0xe0, 0x80]),
        Utf8Check::Invalid { valid_up_to: 0, incomplete: false }
    );
    // a surrogate encoding
    assert_eq!(
        check_utf8(&vec![0xed, 0xa0, 0x80]),
        Utf8Check::Invalid { valid_up_to: 0, incomplete: false }
    );
    // beyond the scalar range
    assert_eq!(
        check_utf8(&vec![0xf4, 0x90, 0x80, 0x80]),
        Utf8Check::Invalid { valid_up_to: 0, incomplete: false }
    );
    // an invalid byte in the middle, after valid text
    assert_eq!(
        check_utf8(&vec![0x61, 0x62, 0x80, 0x63]),
        Utf8Check::Invalid { valid_up_to: 2, incomplete: false }
    );
}

fn one_project_file(name: &str) -> steering::SteeringDiscovery {
    discover_steering_files(
        "/codex home".to_string(),
        "/repo".to_string(),
        DirListing::Missing,
        DirListing::Listed(vec![DirEntry {
            name: name.to_string(),
            kind: EntryKind::RegularFile,
        }]),
    )
}

#[test]
fn budget_cut_mid_scalar_salvages_valid_prefix() {
    // "aé" is three bytes; a budget of two cuts the two-byte scalar in half
    let discovery = one_project_file("01.md");
    let reads = vec![FileRead::Content("aé".to_string().into_bytes())];
    let loaded = load_steering_docs(true, 2, discovery, &reads);
    assert!(matches!(
        loaded.files[0].status,
        SteeringFileStatus::Included { bytes: 1, truncated: true }
    ));
    let combined = loaded.combined.expect("combined");
    assert!(combined.contains("truncated=true"));
    assert!(combined.ends_with("\na"));
}

#[test]
fn budget_cut_before_plain_invalidity_is_not_salvaged() {
    // the cut data ends in a stray invalid byte, not an incomplete scalar
    let discovery = one_project_file("01.md");
    let reads = vec![FileRead::Content(vec![0x61, 0xff, 0x62])];
    let loaded = load_steering_docs(true, 2, discovery, &reads);
    assert!(matches!(
        loaded.files[0].status,
        SteeringFileStatus::Omitted { reason: OmissionReason::NonUtf8 }
    ));
}

#[test]
fn salvage_of_whitespace_prefix_is_empty() {
    // a space followed by a cut multi-byte scalar salvages to " ", which is
    // whitespace-only
    let discovery = one_project_file("01.md");
    let reads = vec![FileRead::Content(" é".to_string().into_bytes())];
    let loaded = load_steering_docs(true, 2, discovery, &reads);
    assert!(matches!(
        loaded.files[0].status,
        SteeringFileStatus::Omitted { reason: OmissionReason::Empty }
    ));
}

#[test]
fn omission_note_renders_exactly() {
    let omitted = vec![
        (SteeringScope::Global, "$CODEX_HOME/steering/z.md".to_string()),
        (SteeringScope::Project, ".codex/steering/03.md".to_string()),
    ];
    let note = format_omission_note(15, &omitted);
    assert_eq!(
        note,
        "[Steering: note]\nOmitted 2 file(s) due to steering.doc_max_bytes=15.\n\
         - scope=global file=$CODEX_HOME/steering/z.md reason=over-budget\n\
         - scope=project file=.codex/steering/03.md reason=over-budget"
    );
}

#[test]
fn resolve_repo_root_picks_nearest_marked_ancestor() {
    let cwd = "/a/b/c".to_string();
    let ancestors = vec!["/a/b/c".to_string(), "/a/b".to_string(), "/a".to_string()];
    let root = resolve_repo_root(&cwd, &ancestors, &vec![false, true, true]);
    assert_eq!(root, "/a/b");
    let root = resolve_repo_root(&cwd, &ancestors, &vec![true, false, false]);
    assert_eq!(root, "/a/b/c");
}

#[test]
fn resolve_repo_root_falls_back_to_cwd() {
    let cwd = "/somewhere/else".to_string();
    let ancestors = vec!["/x/y".to_string(), "/x".to_string()];
    let root = resolve_repo_root(&cwd, &ancestors, &vec![false, false]);
    assert_eq!(root, "/somewhere/else");
    let root = resolve_repo_root(&cwd, &Vec::new(), &Vec::new());
    assert_eq!(root, "/somewhere/else");
}

#[test]
fn combined_is_only_a_note_when_everything_is_over_budget() {
    let discovery = discover_steering_files(
        "/codex home".to_string(),
        "/repo".to_string(),
        DirListing::Missing,
        DirListing::Listed(vec![
            DirEntry { name: "01.md".to_string(), kind: EntryKind::RegularFile },
            DirEntry { name: "02.md".to_string(), kind: EntryKind::RegularFile },
        ]),
    );
    let reads = vec![
        FileRead::Content(b"abcdef".to_vec()),
        FileRead::Content(b"ghijkl".to_vec()),
    ];
    // the first file consumes the whole budget; the second is never opened
    let loaded = load_steering_docs(true, 6, discovery, &reads);
    assert!(matches!(
        loaded.files[0].status,
        SteeringFileStatus::Included { bytes: 6, truncated: false }
    ));
    assert!(matches!(
        loaded.files[1].status,
        SteeringFileStatus::Omitted { reason: OmissionReason::OverBudget }
    ));
    let combined = loaded.combined.expect("combined");
    assert!(combined.contains("[Steering: scope=project file=.codex/steering/01.md]\nabcdef"));
    assert!(combined.contains("\n\n[Steering: note]\n"));
}
