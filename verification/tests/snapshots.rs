use repo_memory::ifds::model::{
    AnalysisLimits, BindingSelector, CapabilitySet, EntryPoint, FileChange, FileChangeKind,
    InputError, ModelVersion, RepositoryDiff, SnapshotHandle, SnapshotId, SnapshotSide,
    SourceSpan, VariableFlowQuery,
};
use repo_memory::ifds::snapshots::{
    content_digest, resolved_commit, resolved_tree, tree_blobs, validate_path, validate_query,
    verify_revision, AnalysisEnvironment, InMemorySnapshot, InMemorySnapshotProvider,
    SnapshotProvider,
};
use std::sync::{Arc, Mutex};

fn snapshot(side: SnapshotSide, revision: &str, content_id: &str) -> SnapshotHandle {
    SnapshotHandle {
        id: SnapshotId {
            side,
            revision: revision.into(),
            content_id: content_id.into(),
        },
        repository_id: "repo".into(),
    }
}

fn selector(handle: &SnapshotHandle, path: &str, start: u64, end: u64) -> BindingSelector {
    BindingSelector {
        snapshot: handle.id.clone(),
        declaration: SourceSpan {
            path: path.into(),
            byte_start: start,
            byte_end: end,
            start_line: 1,
            end_line: 1,
        },
        expected_name: Some("é".into()),
        expected_enclosing_symbol: Some("f".into()),
    }
}

fn environment(version: &str) -> AnalysisEnvironment {
    AnalysisEnvironment {
        capabilities: CapabilitySet {
            stage: 0,
            capabilities: vec!["snapshots".into()],
            version: version.into(),
        },
        summaries: vec![ModelVersion {
            name: "standard".into(),
            version: version.into(),
            digest: format!("model-{version}"),
        }],
    }
}

fn fixture() -> (VariableFlowQuery, InMemorySnapshotProvider, AnalysisEnvironment) {
    let before = snapshot(SnapshotSide::Before, "before-revision", "before-tree");
    let after = snapshot(SnapshotSide::After, "after-revision", "after-tree");
    let before_files = vec![
        (
            "old.ts".to_string(),
            ("rename-old".to_string(), b"export {};\n".to_vec()),
        ),
        (
            "src/name.ts".to_string(),
            ("old-name".to_string(), "let é = 1;\n".as_bytes().to_vec()),
        ),
    ];
    let after_files = vec![
        (
            "new.ts".to_string(),
            ("rename-old".to_string(), b"export {};\n".to_vec()),
        ),
        (
            "src/name.ts".to_string(),
            ("new-name".to_string(), "let é = 2;\n".as_bytes().to_vec()),
        ),
    ];
    let provider = InMemorySnapshotProvider::new(vec![
        InMemorySnapshot {
            handle: before.clone(),
            files: before_files,
        },
        InMemorySnapshot {
            handle: after.clone(),
            files: after_files,
        },
    ]);
    let env = environment("1");
    let query = VariableFlowQuery {
        before: before.clone(),
        after: after.clone(),
        diff: RepositoryDiff {
            before_content_id: before.id.content_id.clone(),
            after_content_id: after.id.content_id.clone(),
            changes: vec![
                FileChange {
                    kind: FileChangeKind::Modified,
                    before_path: Some("src/name.ts".into()),
                    after_path: Some("src/name.ts".into()),
                    before_content_id: Some("old-name".into()),
                    after_content_id: Some("new-name".into()),
                },
                FileChange {
                    kind: FileChangeKind::Renamed,
                    before_path: Some("old.ts".into()),
                    after_path: Some("new.ts".into()),
                    before_content_id: Some("rename-old".into()),
                    after_content_id: Some("rename-old".into()),
                },
            ],
        },
        selected_binding: selector(&before, "src/name.ts", 4, 6),
        counterpart: None,
        entry: EntryPoint::ContainingFunction,
        capabilities: env.capabilities.clone(),
        summaries: env.summaries.clone(),
        limits: AnalysisLimits {
            time_ms: 1_000,
            memory_bytes: 1_000_000,
            processed_path_edges: 10_000,
            witnesses_per_relation: 2,
            output_nodes: 1_000,
        },
    };
    (query, provider, env)
}

fn change_index(query: &VariableFlowQuery, kind: FileChangeKind) -> usize {
    query
        .diff
        .changes
        .iter()
        .position(|change| change.kind == kind)
        .unwrap()
}

#[test]
fn ifds_k002_matching_diff() {
    let (query, provider, env) = fixture();
    assert_eq!(validate_query(&query, &provider, &env, &env), Ok(()));

    let mut bad_content = query.clone();
    let index = change_index(&bad_content, FileChangeKind::Modified);
    bad_content.diff.changes[index].after_content_id = Some("wrong".into());
    assert!(matches!(
        validate_query(&bad_content, &provider, &env, &env),
        Err(InputError::InvalidDiff(_))
    ));

    let mut bad_rename = query.clone();
    let index = change_index(&bad_rename, FileChangeKind::Renamed);
    bad_rename.diff.changes[index].after_path = Some("src/name.ts".into());
    bad_rename.diff.changes[index].after_content_id = Some("new-name".into());
    assert!(matches!(
        validate_query(&bad_rename, &provider, &env, &env),
        Err(InputError::InvalidDiff(_))
    ));
}

#[test]
fn ifds_k002_stale_revision() {
    let (mut query, provider, env) = fixture();
    query.selected_binding.snapshot.revision = "some-other-revision".into();
    assert!(matches!(
        validate_query(&query, &provider, &env, &env),
        Err(InputError::SnapshotMismatch(_))
    ));
}

#[test]
fn ifds_k002_utf8_coordinates() {
    let (mut query, provider, env) = fixture();
    validate_query(&query, &provider, &env, &env).unwrap();
    assert_eq!(query.selected_binding.declaration.byte_start, 4);
    assert_eq!(query.selected_binding.declaration.byte_end, 6);

    query.selected_binding.declaration.byte_start = 5;
    assert!(matches!(
        validate_query(&query, &provider, &env, &env),
        Err(InputError::InvalidSelector(_))
    ));
    query.selected_binding.declaration.byte_start = 4;
    query.selected_binding.declaration.byte_end = 100;
    assert!(matches!(
        validate_query(&query, &provider, &env, &env),
        Err(InputError::InvalidSelector(_))
    ));
}

#[test]
fn ifds_k002_versions_match() {
    let (query, provider, env) = fixture();
    assert!(matches!(
        validate_query(&query, &provider, &env, &environment("2")),
        Err(InputError::CapabilityMismatch(_))
    ));

    let mut model_mismatch = env.clone();
    model_mismatch.summaries.clear();
    assert!(matches!(
        validate_query(&query, &provider, &env, &model_mismatch),
        Err(InputError::CapabilityMismatch(_))
    ));
}

#[test]
fn ifds_k002_no_workspace_mutation() {
    let (query, provider, env) = fixture();
    #[derive(Clone)]
    struct RecordingProvider {
        inner: InMemorySnapshotProvider,
        reads: Arc<Mutex<Vec<&'static str>>>,
    }
    impl SnapshotProvider for RecordingProvider {
        fn resolve(&self, handle: &SnapshotHandle) -> Result<SnapshotId, InputError> {
            self.reads.lock().unwrap().push("resolve");
            self.inner.resolve(handle)
        }

        fn files(&self, handle: &SnapshotHandle) -> Result<Vec<(String, String)>, InputError> {
            self.reads.lock().unwrap().push("files");
            self.inner.files(handle)
        }

        fn read_file(&self, handle: &SnapshotHandle, path: &str) -> Result<Vec<u8>, InputError> {
            self.reads.lock().unwrap().push("read_file");
            self.inner.read_file(handle, path)
        }
    }
    let reads = Arc::new(Mutex::new(Vec::new()));
    let recording = RecordingProvider {
        inner: provider.clone(),
        reads: reads.clone(),
    };
    validate_query(&query, &recording, &env, &env).unwrap();
    assert_eq!(recording.inner.snapshots, provider.snapshots);
    assert_eq!(
        reads.lock().unwrap().as_slice(),
        ["resolve", "resolve", "files", "files", "read_file"]
    );
}

#[test]
fn counterpart_must_be_on_the_other_side() {
    let (mut query, provider, env) = fixture();
    query.counterpart = Some(query.selected_binding.clone());
    assert!(matches!(
        validate_query(&query, &provider, &env, &env),
        Err(InputError::InvalidSelector(_))
    ));
}

#[test]
fn missing_change_and_wrong_sides_are_refused() {
    let (mut query, provider, env) = fixture();
    let index = change_index(&query, FileChangeKind::Renamed);
    query.diff.changes.remove(index);
    assert!(matches!(
        validate_query(&query, &provider, &env, &env),
        Err(InputError::InvalidDiff(_))
    ));
    let (mut swapped, provider, env) = fixture();
    std::mem::swap(&mut swapped.before, &mut swapped.after);
    assert!(matches!(
        validate_query(&swapped, &provider, &env, &env),
        Err(InputError::SnapshotMismatch(_))
    ));
}

#[test]
fn repository_paths_must_be_normalized() {
    assert!(validate_path("src/a.ts").is_ok());
    assert!(validate_path("a/./b.ts").is_ok());
    assert!(validate_path("a..b/c").is_ok());
    for bad in ["", "/abs.ts", "./a.ts", ".", "a/../b.ts", "..", "a/.."] {
        assert!(
            matches!(validate_path(bad), Err(InputError::InvalidSelector(_))),
            "{bad:?} was accepted"
        );
    }
}

#[test]
fn content_digest_is_fnv1a_in_hexadecimal() {
    assert_eq!(content_digest(b""), "fnv1a64-cbf29ce484222325");
    assert_eq!(content_digest(b"a"), "fnv1a64-af63dc4c8601ec8c");
    assert_ne!(content_digest(b"a"), content_digest(b"b"));
}

#[test]
fn git_revisions_are_full_object_ids() {
    assert!(verify_revision(&"a".repeat(40)).is_ok());
    assert!(verify_revision("0123456789abcdefABCDEF0123456789abcdef01").is_ok());
    assert!(verify_revision(&"f".repeat(64)).is_ok());
    assert!(matches!(verify_revision("HEAD"), Err(InputError::SnapshotMismatch(_))));
    assert!(verify_revision(&"g".repeat(40)).is_err());
    assert!(verify_revision(&"a".repeat(41)).is_err());
}

#[test]
fn git_resolution_compares_trimmed_output() {
    let revision = "a".repeat(40);
    let handle = snapshot(SnapshotSide::Before, &revision, "tree-1");
    assert!(resolved_commit(&handle, &format!("{revision}\n")).is_ok());
    assert!(matches!(
        resolved_commit(&handle, &format!("{}\n", "b".repeat(40))),
        Err(InputError::SnapshotMismatch(_))
    ));
    assert_eq!(resolved_tree(&handle, " tree-1\n").unwrap(), handle.id);
    assert!(resolved_tree(&handle, "tree-2\n").is_err());
}

#[test]
fn git_tree_listing_gives_blobs() {
    let listing = b"100644 blob 0123abc\tsrc/a.ts\0040000 tree 456def\tsrc\0100644 blob 789\tb c.ts\0";
    let files = tree_blobs(&listing.to_vec()).unwrap();
    assert_eq!(
        files,
        vec![("src/a.ts".to_string(), "0123abc".to_string()), ("b c.ts".to_string(), "789".to_string())]
    );
    assert!(tree_blobs(&b"100644 blob 0123abc src/a.ts\0".to_vec()).is_err());
    assert!(tree_blobs(&b"100644 blob\tx.ts\0".to_vec()).is_err());
    assert_eq!(tree_blobs(&Vec::new()).unwrap(), Vec::new());
}
