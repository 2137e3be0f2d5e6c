use research_artifact_uploader::archive::{
    archive_members, compute_sha256, make_timestamp, run_id_for_run, MatchedProbe, WalkEntry,
};
use research_artifact_uploader::collect::{
    collect_artifacts, ArtifactProbe, ArtifactStatus, GlobCandidate, PathProbe,
};
use research_artifact_uploader::manifest::{
    validate_manifest, ArchiveConfig, ArtifactConfig, Manifest, OssConfig, RecordsConfig,
    RunConfig,
};
use sha2::Digest;

fn base_manifest(artifacts: Vec<ArtifactConfig>) -> Manifest {
    let mut oss = OssConfig::default();
    oss.remote_dir = "artifacts/test/demo".to_string();
    Manifest {
        run: RunConfig { name: "demo".to_string(), project: "proj".to_string(), tags: vec![] },
        artifacts,
        archive: ArchiveConfig::default(),
        oss,
        records: RecordsConfig::default(),
    }
}

fn artifact(name: &str, path: &str, kind: &str, required: bool) -> ArtifactConfig {
    ArtifactConfig {
        name: name.to_string(),
        path: path.to_string(),
        artifact_type: kind.to_string(),
        required,
    }
}

fn missing() -> ArtifactProbe {
    ArtifactProbe {
        source: PathProbe { exists: false, is_file: false, is_dir: false },
        glob: Ok(vec![]),
    }
}

fn file_probe() -> ArtifactProbe {
    ArtifactProbe {
        source: PathProbe { exists: true, is_file: true, is_dir: false },
        glob: Ok(vec![]),
    }
}

fn dir_probe() -> ArtifactProbe {
    ArtifactProbe {
        source: PathProbe { exists: true, is_file: false, is_dir: true },
        glob: Ok(vec![]),
    }
}

// The library reads no files: manifests are built as values and validated,
// and what the file system holds is handed to it as probes and listings.

#[test]
fn test_parse_manifest_defaults_and_required() {
    let manifest = validate_manifest(base_manifest(vec![])).unwrap();
    assert_eq!(manifest.run.name, "demo");
    assert_eq!(manifest.archive.output_dir, ".rau/archives");
}

#[test]
fn test_required_file_missing_fails() {
    let manifest = validate_manifest(base_manifest(vec![artifact(
        "missing",
        "absent.bin",
        "file",
        true,
    )]))
    .unwrap();
    let err = collect_artifacts(&manifest, "/work/proj", false, &vec![missing()]).unwrap_err();
    assert!(err.contains("required file artifact missing"));
}

#[test]
fn test_optional_glob_missing_warns() {
    let manifest = validate_manifest(base_manifest(vec![artifact(
        "vids",
        "videos/*.mp4",
        "glob",
        false,
    )]))
    .unwrap();
    let (items, warnings) =
        collect_artifacts(&manifest, "/work/proj", false, &vec![missing()]).unwrap();
    assert_eq!(items[0].matched_count(), 0);
    assert!(!warnings.is_empty());
}

#[test]
fn test_metadata_does_not_contain_secret_like_keys() {
    let manifest = validate_manifest(base_manifest(vec![])).unwrap();
    // The library's types carry no serde derives; their Debug text shows
    // every field name and value.
    let dumped = format!("{:?}", manifest);
    let lowered = dumped.to_lowercase();
    assert!(!lowered.contains("accesskey"));
    assert!(!lowered.contains("secret"));
}

#[test]
fn test_archive_has_expected_internal_paths() {
    let root = "/work/proj";
    let manifest = validate_manifest(base_manifest(vec![
        artifact("ckpt", "run/ckpt", "directory", true),
        artifact("metrics", "run/metrics.jsonl", "file", true),
    ]))
    .unwrap();
    let (items, _) =
        collect_artifacts(&manifest, root, false, &vec![dir_probe(), file_probe()]).unwrap();
    let listings = vec![
        vec![MatchedProbe {
            is_file: false,
            is_dir: true,
            walk: vec![
                WalkEntry { path: "/work/proj/run/ckpt".to_string(), is_dir: true },
                WalkEntry { path: "/work/proj/run/ckpt/model.bin".to_string(), is_dir: false },
            ],
        }],
        vec![MatchedProbe { is_file: true, is_dir: false, walk: vec![] }],
    ];
    let run_id = run_id_for_run("demo", Some(&make_timestamp()));
    assert!(run_id.starts_with("demo_"));
    assert_eq!(run_id.len(), "demo_".len() + 15);
    // The member names are checked as laid out for the tar writer.
    let members = archive_members(&items, "demo", root, &listings);
    let names: Vec<String> = members.iter().map(|m| m.1.clone()).collect();
    assert!(names.contains(&"demo/artifacts/ckpt/model.bin".to_string()));
    assert!(names.contains(&"demo/artifacts/metrics/metrics.jsonl".to_string()));
}

#[test]
fn test_sha256_calculation() {
    let (sha, size) = compute_sha256(b"abc");
    assert_eq!(size, 3);
    assert_eq!(sha, format!("{:x}", sha2::Sha256::digest(b"abc")));
}

#[test]
fn collected_paths_are_sources() {
    let manifest = validate_manifest(base_manifest(vec![
        artifact("ckpt", "run/ckpt", "directory", true),
        artifact("abs", "/work/proj/m.txt", "file", true),
    ]))
    .unwrap();
    let (items, warnings) =
        collect_artifacts(&manifest, "/work/proj", false, &vec![dir_probe(), file_probe()])
            .unwrap();
    assert!(warnings.is_empty());
    assert_eq!(items[0].matched_paths, vec!["/work/proj/run/ckpt".to_string()]);
    assert_eq!(items[0].status, ArtifactStatus::Included);
    assert_eq!(items[1].matched_paths, vec!["/work/proj/m.txt".to_string()]);
}
