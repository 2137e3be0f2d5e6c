use research_artifact_uploader::archive::{
    archive_extras, archive_members, archive_path_for, checksum_path_for, compute_sha256, make_timestamp,
    run_id_for_run, sha256_line, should_skip_file, to_hex_lower, unique_name, ExtraFile,
    MatchedProbe, WalkEntry,
};
use research_artifact_uploader::cli::{
    artifact_table, build_run_paths, check_oss_settings, remote_dir_for_run, run_steps,
    metadata_archive_fields, step_error, upload_state_str, Cli, Command, MetadataStage, RunKind, RunStep, UploadState,
    DEFAULT_RECORDS_LAST,
};
use research_artifact_uploader::collect::{
    artifact_source, collect_artifacts, glob_pattern, ArtifactProbe, ArtifactStatus,
    CollectedArtifact, GlobCandidate, PathProbe,
};
use research_artifact_uploader::gitinfo::git_info_from_outputs;
use research_artifact_uploader::manifest::{
    validate_manifest, ArchiveConfig, ArtifactConfig, Manifest, OssConfig, RecordsConfig,
    RunConfig, DEFAULT_RECORDS_JSONL, DEFAULT_RECORDS_MARKDOWN,
};
use research_artifact_uploader::metadata::{build_metadata, build_metadata_at, now_iso};
use research_artifact_uploader::oss::{
    avg_speed_text, check_access_command, check_access_outcome, oss_uri, upload_command,
    upload_failure_message, upload_outcome,
};
use research_artifact_uploader::paths::{
    first_component, is_within_root, join_path, path_components, should_skip_default_excluded,
    validate_artifact_name,
};
use research_artifact_uploader::records::{
    lines_of, markdown_row, read_record_rows, recent_record_lines, record_row, RecordJson,
};
use research_artifact_uploader::sorting::{compare_paths, sort_candidates};
use research_artifact_uploader::subprocess_utils::CommandResult;
use research_artifact_uploader::text::{chars_of, trim_str};

fn manifest_with(artifacts: Vec<ArtifactConfig>) -> Manifest {
    let mut oss = OssConfig::default();
    oss.remote_dir = "artifacts/test/demo".to_string();
    Manifest {
        run: RunConfig { name: "demo".to_string(), project: "proj".to_string(), tags: vec!["t1".to_string()] },
        artifacts,
        archive: ArchiveConfig::default(),
        oss,
        records: RecordsConfig::default(),
    }
}

fn art(name: &str, path: &str, kind: &str, required: bool) -> ArtifactConfig {
    ArtifactConfig { name: name.to_string(), path: path.to_string(), artifact_type: kind.to_string(), required }
}

fn probe(exists: bool, is_file: bool, is_dir: bool) -> ArtifactProbe {
    ArtifactProbe { source: PathProbe { exists, is_file, is_dir }, glob: Ok(vec![]) }
}

fn glob_probe(paths: &[(&str, bool)]) -> ArtifactProbe {
    ArtifactProbe {
        source: PathProbe { exists: false, is_file: false, is_dir: false },
        glob: Ok(paths.iter().map(|(p, e)| GlobCandidate { path: p.to_string(), exists: *e }).collect()),
    }
}

fn comps(s: &str) -> Vec<String> {
    path_components(&chars_of(s)).into_iter().map(|c| c.into_iter().collect()).collect()
}

#[test]
fn path_components_follow_std() {
    assert_eq!(comps("/a//b/./c/"), vec!["/", "a", "b", "c"]);
    assert_eq!(comps("./x"), vec![".", "x"]);
    assert_eq!(comps("a/../b"), vec!["a", "..", "b"]);
    assert_eq!(comps(""), Vec::<String>::new());
    assert_eq!(comps(".hidden/x"), vec![".hidden", "x"]);
    for s in ["/a//b/./c/", "./x", "a/../b", "", ".", "..", "/", "a/./b/.", "./.", ".a/b"] {
        let std_comps: Vec<String> = std::path::Path::new(s)
            .components()
            .map(|c| c.as_os_str().to_string_lossy().to_string())
            .collect();
        assert_eq!(comps(s), std_comps, "components of {s:?}");
    }
}

#[test]
fn join_follows_std() {
    for (a, b) in [("a", "b"), ("a/", "b"), ("a", "/b"), ("", "b"), ("a", ""), ("/x/y", "z/w")] {
        let expected = std::path::Path::new(a).join(b).to_string_lossy().to_string();
        assert_eq!(join_path(a, b), expected, "join of {a:?} and {b:?}");
    }
}

#[test]
fn within_root_compares_components() {
    assert!(is_within_root("/p/a/b", "/p"));
    assert!(is_within_root("/p/a/b", "/p/"));
    assert!(!is_within_root("/pa/b", "/p"));
    assert!(is_within_root("/p", "/p"));
    assert!(!is_within_root("p/a", "/p"));
    assert!(!is_within_root("/p/../x", "/p"));
    assert!(!is_within_root("/p/..", "/p"));
    assert!(is_within_root("/p/a/../b", "/p"));
    assert!(is_within_root("/p/./a", "/p"));
    assert!(is_within_root("/p/a/b", "/p/x/.."));
    assert!(!is_within_root("/p/a/../../p2", "/p"));
    let m = manifest_with(vec![art("up", "../x", "file", true)]);
    assert_eq!(
        collect_artifacts(&m, "/p", false, &vec![probe(true, true, false)]).unwrap_err(),
        "artifact path '../x' is outside current working directory"
    );
    let (items, _) = collect_artifacts(&m, "/p", true, &vec![probe(true, true, false)]).unwrap();
    assert_eq!(items[0].matched_paths, vec!["/p/../x".to_string()]);
}

#[test]
fn default_excluded_dirs_are_skipped_unless_named() {
    assert!(should_skip_default_excluded("data/x", "/p/.git/x", "/p"));
    assert!(should_skip_default_excluded("data/x", "/p/a/__pycache__/m.pyc", "/p"));
    assert!(!should_skip_default_excluded(".git/x", "/p/.git/x", "/p"));
    assert!(!should_skip_default_excluded("data/x", "/q/.git/x", "/p"));
    assert!(!should_skip_default_excluded("data/x", "/p/data/x", "/p"));
    assert_eq!(first_component("/abs/x"), "/");
    assert_eq!(first_component("rel/x"), "rel");
    assert_eq!(first_component(""), "");
}

#[test]
fn artifact_names_are_checked() {
    assert!(validate_artifact_name("ok_name-1.0").is_ok());
    assert_eq!(
        validate_artifact_name("bad name").unwrap_err(),
        "artifact name 'bad name' is invalid; allowed chars are A-Z a-z 0-9 _ . -"
    );
    assert!(validate_artifact_name("").is_err());
    assert!(validate_artifact_name("a/b").is_err());
    assert!(validate_artifact_name("ZZ.._--09az").is_ok());
    assert!(validate_artifact_name("caf\u{e9}").is_err());
    assert!(validate_artifact_name("name\n").is_err());
    assert!(validate_artifact_name("tab\there").is_err());
}

#[test]
fn manifest_errors_name_the_first_broken_rule() {
    let mut m = manifest_with(vec![]);
    m.run.name = "  ".to_string();
    assert_eq!(validate_manifest(m).unwrap_err(), "run.name is required");
    let mut m = manifest_with(vec![]);
    m.run.project = "\u{3000}".to_string();
    assert_eq!(validate_manifest(m).unwrap_err(), "run.project is required");
    let mut m = manifest_with(vec![]);
    m.archive.format = "zip".to_string();
    assert_eq!(validate_manifest(m).unwrap_err(), "only tar.gz archive format is supported");
    let mut m = manifest_with(vec![]);
    m.archive.compression_level = 0;
    assert_eq!(validate_manifest(m).unwrap_err(), "archive.compression_level must be in [1,9]");
    let mut m = manifest_with(vec![]);
    m.archive.compression_level = 10;
    assert!(validate_manifest(m).is_err());
    let mut m = manifest_with(vec![]);
    m.oss.remote_dir = String::new();
    assert_eq!(validate_manifest(m).unwrap_err(), "oss.remote_dir is required");
    let m = manifest_with(vec![art("a", "x", "file", true), art("b", "y", "tarball", true)]);
    assert_eq!(validate_manifest(m).unwrap_err(), "artifacts[1].type must be file, directory, or glob");
    let m = manifest_with(vec![art(" ", "x", "file", true)]);
    assert_eq!(validate_manifest(m).unwrap_err(), "artifacts[0].name must not be empty");
    let m = manifest_with(vec![art("a", "", "glob", true)]);
    assert_eq!(validate_manifest(m).unwrap_err(), "artifacts[0].path must not be empty");
}

#[test]
fn blank_records_paths_get_defaults_and_validation_is_idempotent() {
    let mut m = manifest_with(vec![art("a", "x", "file", true)]);
    m.records.jsonl = " ".to_string();
    m.records.markdown = String::new();
    let v = validate_manifest(m).unwrap();
    assert_eq!(v.records.jsonl, DEFAULT_RECORDS_JSONL);
    assert_eq!(v.records.markdown, DEFAULT_RECORDS_MARKDOWN);
    let again = validate_manifest(v.clone()).unwrap();
    assert_eq!(format!("{:?}", again), format!("{:?}", v));
}

#[test]
fn defaults_match_the_readme() {
    let a = ArchiveConfig::default();
    assert_eq!(a.output_dir, ".rau/archives");
    assert_eq!(a.format, "tar.gz");
    assert_eq!(a.compression_level, 3);
    assert!(a.include_manifest && a.include_git_info && a.include_metadata);
    let o = OssConfig::default();
    assert_eq!(o.bucket, "luyukuan-research");
    assert_eq!(o.region, "cn-shanghai");
    assert_eq!(o.endpoint, "oss-accelerate.aliyuncs.com");
    assert_eq!(o.remote_dir, "");
    let r = RecordsConfig::default();
    assert_eq!(r.jsonl, "docs/upload_records.jsonl");
    assert_eq!(r.markdown, "docs/upload_records.md");
}

#[test]
fn run_ids_join_name_and_timestamp() {
    assert_eq!(run_id_for_run("demo", Some("20240101_000000")), "demo_20240101_000000");
    let id = run_id_for_run("demo", None);
    assert!(id.starts_with("demo_"));
    assert_eq!(id.len(), "demo_".len() + 15);
    let ts = make_timestamp();
    assert_eq!(ts.len(), 15);
    assert_eq!(&ts[8..9], "_");
    assert!(ts.chars().enumerate().all(|(i, c)| i == 8 || c.is_ascii_digit()));
}

#[test]
fn unique_names_number_repeats() {
    let mut used = Vec::new();
    assert_eq!(unique_name("model.bin", &mut used), "model.bin");
    assert_eq!(unique_name("model.bin", &mut used), "model_1.bin");
    assert_eq!(unique_name("model.bin", &mut used), "model_2.bin");
    assert_eq!(unique_name(".bashrc", &mut used), ".bashrc");
    assert_eq!(unique_name(".bashrc", &mut used), ".bashrc_1");
    assert_eq!(unique_name("a.tar.gz", &mut used), "a.tar.gz");
    assert_eq!(unique_name("a.tar.gz", &mut used), "a.tar_1.gz");
    assert_eq!(unique_name("a.", &mut used), "a.");
    assert_eq!(unique_name("a.", &mut used), "a_1");
    assert_eq!(unique_name("dir", &mut used), "dir");
    assert_eq!(unique_name("dir", &mut used), "dir_1");
    used.push("x_1".to_string());
    assert_eq!(unique_name("x", &mut used), "x");
    assert_eq!(unique_name("x", &mut used), "x_2");
    assert_eq!(used.len(), 14);
    let mut many: Vec<String> = vec!["f".to_string()];
    for i in 1..=10 {
        many.push(format!("f_{i}"));
    }
    assert_eq!(unique_name("f", &mut many), "f_11");
}

#[test]
fn checksums_are_lower_hex_sha256() {
    let (sha, size) = compute_sha256(b"");
    assert_eq!(size, 0);
    assert_eq!(sha, "e3b0c44298fc1c149afbf4c8996fb92427ae41e4649b934ca495991b7852b855");
    let (sha, _) = compute_sha256(b"abc");
    assert_eq!(sha, "ba7816bf8f01cfea414140de5dae2223b00361a396177a9cb410ff61f20015ad");
    assert_eq!(to_hex_lower(&vec![0x00, 0xab, 0x0f, 0xff]), "00ab0fff");
    assert!(sha.chars().all(|c| c.is_ascii_digit() || ('a'..='f').contains(&c)));
    assert_eq!(sha256_line("abc", "/x/run.tar.gz"), "abc  run.tar.gz\n");
    assert_eq!(sha256_line("abc", "/"), "abc  archive\n");
}

#[test]
fn addresses_and_commands() {
    assert_eq!(oss_uri("b", "/x/y", "f"), "oss://b/x/y/f");
    assert_eq!(oss_uri("b", "x/y", "f"), "oss://b/x/y/f");
    assert_eq!(oss_uri("b", "x", ""), "oss://b/x/");
    assert_eq!(
        check_access_command("bk", "ep", "rg"),
        vec!["ossutil", "ls", "oss://bk", "-e", "ep", "--region", "rg"]
    );
    let m = manifest_with(vec![]);
    assert_eq!(
        upload_command("/l/a.tar.gz", &m, "r/d", "a.tar.gz"),
        vec![
            "ossutil",
            "cp",
            "/l/a.tar.gz",
            "oss://luyukuan-research/r/d/a.tar.gz",
            "-e",
            "oss-accelerate.aliyuncs.com",
            "--region",
            "cn-shanghai"
        ]
    );
    let ok = CommandResult { returncode: 0, stdout: "x".to_string(), stderr: String::new(), command: vec![] };
    assert_eq!(check_access_outcome(&ok), (true, String::new()));
    let bad = CommandResult { returncode: 1, stdout: "  denied \n".to_string(), stderr: String::new(), command: vec![] };
    assert_eq!(check_access_outcome(&bad), (false, "denied".to_string()));
    let cmd = vec!["ossutil".to_string(), "cp".to_string()];
    assert_eq!(
        upload_failure_message(-1, " out ", "  ", &cmd),
        "ossutil cp failed (exit code -1).\ncommand: ossutil cp\nerror: out\nsuggestion: retry command manually after fixing the root cause."
    );
    assert_eq!(
        upload_failure_message(2, "out", " err\n", &cmd),
        "ossutil cp failed (exit code 2).\ncommand: ossutil cp\nerror: err\nsuggestion: retry command manually after fixing the root cause."
    );
    let done = CommandResult {
        returncode: 0,
        stdout: "copied, avg 4.25 MiB/s".to_string(),
        stderr: String::new(),
        command: cmd.clone(),
    };
    assert_eq!(upload_outcome(&done, &cmd), Ok(Some("4.25".to_string())));
    let quiet = CommandResult { returncode: 0, stdout: String::new(), stderr: String::new(), command: cmd.clone() };
    assert_eq!(upload_outcome(&quiet, &cmd), Ok(None));
    let failed = CommandResult { returncode: 2, stdout: "out".to_string(), stderr: " err\n".to_string(), command: vec![] };
    assert_eq!(
        upload_outcome(&failed, &cmd),
        Err("ossutil cp failed (exit code 2).\ncommand: ossutil cp\nerror: err\nsuggestion: retry command manually after fixing the root cause.".to_string())
    );
}

#[test]
fn average_speed_is_read_from_ossutil_output() {
    assert_eq!(avg_speed_text("done, avg 12.5 MiB/s"), Some("12.5".to_string()));
    assert_eq!(avg_speed_text("AVERAGE 3MiB/s"), Some("3".to_string()));
    assert_eq!(avg_speed_text("12.5 MiB/s"), None);
    assert_eq!(avg_speed_text("avg 12. MiB/s"), None);
    assert_eq!(avg_speed_text("Avg\t1.5 mib/s, avg 9 MiB/s"), Some("1.5".to_string()));
}

#[test]
fn git_outputs_become_git_info() {
    let none = git_info_from_outputs(&None, &Some("c".to_string()), &None, &None);
    assert!(!none.available);
    assert!(none.commit.is_none());
    let info = git_info_from_outputs(
        &Some("/repo\n".to_string()),
        &Some(" abc \n".to_string()),
        &None,
        &Some(" M x\n".to_string()),
    );
    assert!(info.available);
    assert_eq!(info.repo_root.as_deref(), Some("/repo"));
    assert_eq!(info.commit.as_deref(), Some("abc"));
    assert!(info.branch.is_none());
    assert_eq!(info.dirty, Some(true));
    let clean = git_info_from_outputs(&Some("/r".to_string()), &None, &None, &Some("\n".to_string()));
    assert_eq!(clean.dirty, Some(false));
}

#[test]
fn collection_errors_and_warnings() {
    let root = "/p";
    let m = manifest_with(vec![art("bad name", "x", "file", true)]);
    assert!(collect_artifacts(&m, root, false, &vec![probe(true, true, false)]).unwrap_err().contains("is invalid"));
    let m = manifest_with(vec![art("a", "/elsewhere/x", "file", true)]);
    assert_eq!(
        collect_artifacts(&m, root, false, &vec![probe(true, true, false)]).unwrap_err(),
        "artifact path '/elsewhere/x' is outside current working directory"
    );
    let (items, _) = collect_artifacts(&m, root, true, &vec![probe(true, true, false)]).unwrap();
    assert_eq!(items[0].matched_paths, vec!["/elsewhere/x".to_string()]);
    let m = manifest_with(vec![art("a", "data/.git/x", "file", true)]);
    let (items, warnings) = collect_artifacts(&m, root, false, &vec![probe(true, true, false)]).unwrap();
    assert!(items.is_empty());
    assert_eq!(warnings, vec!["artifact 'data/.git/x' is in default-excluded path and will not be packaged".to_string()]);
    let m = manifest_with(vec![art("a", "x", "tarball", true)]);
    assert_eq!(collect_artifacts(&m, root, false, &vec![probe(true, true, false)]).unwrap_err(), "unsupported artifact type 'tarball'");
    let m = manifest_with(vec![art("a", "x", "file", true)]);
    assert_eq!(collect_artifacts(&m, root, false, &vec![probe(true, false, true)]).unwrap_err(), "file artifact must point to a regular file: x");
    let m = manifest_with(vec![art("a", "x", "directory", true)]);
    assert_eq!(collect_artifacts(&m, root, false, &vec![probe(true, true, false)]).unwrap_err(), "directory artifact must point to a directory: x");
    assert_eq!(collect_artifacts(&m, root, false, &vec![probe(false, false, false)]).unwrap_err(), "required directory artifact missing: x");
    let m = manifest_with(vec![art("a", "x", "directory", false), art("b", "y", "file", false)]);
    let (items, warnings) =
        collect_artifacts(&m, root, false, &vec![probe(false, false, false), probe(false, false, false)]).unwrap();
    assert_eq!(items.len(), 2);
    assert_eq!(items[0].status, ArtifactStatus::Missing);
    assert_eq!(
        warnings,
        vec!["optional directory artifact missing: x".to_string(), "optional file artifact missing: y".to_string()]
    );
    // Order and warnings: one skipped, one missing, one included, in manifest order.
    let m = manifest_with(vec![
        art("s", "data/.rau/x", "file", false),
        art("a", "x", "file", false),
        art("b", "y", "file", true),
    ]);
    let (items, warnings) = collect_artifacts(
        &m,
        root,
        false,
        &vec![probe(true, true, false), probe(false, false, false), probe(true, true, false)],
    )
    .unwrap();
    let names: Vec<&str> = items.iter().map(|i| i.name.as_str()).collect();
    assert_eq!(names, vec!["a", "b"]);
    assert_eq!(items[1].status, ArtifactStatus::Included);
    assert_eq!(warnings.len(), 2);
}

#[test]
fn glob_candidates_are_filtered() {
    let root = "/p";
    let m = manifest_with(vec![art("v", "videos/*.mp4", "glob", true)]);
    let p = glob_probe(
        &[("/p/videos/a.mp4", true), ("/p/videos/gone.mp4", false), ("/p/videos/./a.mp4", true), ("/p/videos/.rau/b.mp4", true), ("videos/c.mp4", true)],
    );
    let (items, warnings) = collect_artifacts(&m, root, false, &vec![p]).unwrap();
    assert!(warnings.is_empty());
    assert_eq!(items[0].status, ArtifactStatus::Included);
    assert_eq!(items[0].matched_paths, vec!["/p/videos/a.mp4".to_string(), "/p/videos/c.mp4".to_string()]);
    let p = glob_probe(&[("/q/a.mp4", true)]);
    assert_eq!(
        collect_artifacts(&m, root, false, &vec![p]).unwrap_err(),
        "artifact path 'videos/*.mp4' is outside current working directory"
    );
    // The pattern text itself names no file; its matches are packed all the same.
    let p = glob_probe(&[("/p/videos/z.mp4", true)]);
    let (items, _) = collect_artifacts(&m, root, false, &vec![p]).unwrap();
    assert_eq!(items[0].matched_paths, vec!["/p/videos/z.mp4".to_string()]);
    let p = glob_probe(&[("/p/.git/a.mp4", true)]);
    assert_eq!(collect_artifacts(&m, root, false, &vec![p]).unwrap_err(), "required glob artifact has no matches: videos/*.mp4");
    let mut p = glob_probe(&[]);
    p.glob = Err("Pattern syntax error".to_string());
    assert_eq!(
        collect_artifacts(&m, root, false, &vec![p]).unwrap_err(),
        "invalid glob pattern 'videos/*.mp4': Pattern syntax error"
    );
    let m = manifest_with(vec![art("v", "videos/*.mp4", "glob", false)]);
    let p = glob_probe(&[("/p/.git/a.mp4", true)]);
    let (items, warnings) = collect_artifacts(&m, root, false, &vec![p]).unwrap();
    assert_eq!(items[0].status, ArtifactStatus::Missing);
    assert_eq!(warnings, vec!["optional glob artifact has no matches after filtering: videos/*.mp4".to_string()]);
    assert_eq!(artifact_source("/p", "a/b"), "/p/a/b");
    assert_eq!(artifact_source("/p", "/a/b"), "/a/b");
    assert_eq!(glob_pattern("/p", "/p/v/*.mp4"), "/p/v/*.mp4");
}

#[test]
fn candidates_sort_like_paths() {
    let texts = [
        "/p/videos/b.mp4",
        "/p/videos/a.mp4",
        "videos/c.mp4",
        "./x",
        "../x",
        "/p/videos/.rau/b.mp4",
        "/p/videos",
        "/p/videos/./a.mp4",
        "/p/vidéos/a.mp4",
        "/p/videos/-a.mp4",
        "/p/videos/..",
        "a//b",
        "a/b/",
        "/p/Videos/z",
    ];
    let cands: Vec<GlobCandidate> = texts
        .iter()
        .enumerate()
        .map(|(i, t)| GlobCandidate { path: t.to_string(), exists: i % 2 == 0 })
        .collect();
    let sorted = sort_candidates(&cands);
    let mut expected: Vec<(std::path::PathBuf, bool)> = cands
        .iter()
        .map(|c| (std::path::PathBuf::from(&c.path), c.exists))
        .collect();
    expected.sort_by(|a, b| a.0.cmp(&b.0));
    let got: Vec<(String, bool)> = sorted.iter().map(|c| (c.path.clone(), c.exists)).collect();
    let want: Vec<(String, bool)> = expected
        .iter()
        .map(|(p, e)| (p.to_string_lossy().to_string(), *e))
        .collect();
    assert_eq!(got, want);
    for a in texts.iter() {
        for b in texts.iter() {
            let std_order = std::path::Path::new(a).cmp(std::path::Path::new(b)) as i8;
            assert_eq!(compare_paths(a, b), std_order, "{a} vs {b}");
        }
    }
}

fn collected(name: &str, kind: &str, paths: &[&str]) -> CollectedArtifact {
    CollectedArtifact {
        name: name.to_string(),
        artifact_type: kind.to_string(),
        source_path: name.to_string(),
        required: true,
        status: if paths.is_empty() { ArtifactStatus::Missing } else { ArtifactStatus::Included },
        matched_paths: paths.iter().map(|p| p.to_string()).collect(),
    }
}

#[test]
fn archive_members_are_named_uniquely() {
    let arts = vec![
        collected("m", "file", &["/p/a/model.bin"]),
        collected("n", "file", &["/p/b/model.bin"]),
        collected("g", "glob", &["/p/c/model.bin", "/p/d", "/p/e"]),
        collected("x", "file", &[]),
    ];
    let listings = vec![
        vec![MatchedProbe { is_file: true, is_dir: false, walk: vec![] }],
        vec![MatchedProbe { is_file: true, is_dir: false, walk: vec![] }],
        vec![
            MatchedProbe { is_file: true, is_dir: false, walk: vec![] },
            MatchedProbe {
                is_file: false,
                is_dir: true,
                walk: vec![
                    WalkEntry { path: "/p/d".to_string(), is_dir: true },
                    WalkEntry { path: "/p/d/s/f.txt".to_string(), is_dir: false },
                    WalkEntry { path: "/p/d/__pycache__/c.pyc".to_string(), is_dir: false },
                ],
            },
            MatchedProbe { is_file: false, is_dir: false, walk: vec![] },
        ],
        vec![],
    ];
    let members = archive_members(&arts, "run", "/p", &listings);
    let pairs: Vec<(&str, &str)> = members.iter().map(|(a, b)| (a.as_str(), b.as_str())).collect();
    assert_eq!(
        pairs,
        vec![
            ("/p/a/model.bin", "run/artifacts/m/model.bin"),
            ("/p/b/model.bin", "run/artifacts/n/model_1.bin"),
            ("/p/c/model.bin", "run/artifacts/g/model_2.bin"),
            ("/p/d/s/f.txt", "run/artifacts/g/d/s/f.txt"),
        ]
    );
    assert!(pairs.iter().all(|(_, d)| d.starts_with("run/artifacts/")));
    assert!(should_skip_file("/p", "/p/d", "/p/d/__pycache__/c.pyc"));
    assert!(should_skip_file("/p", "/p/.rau/d", "/p/.rau/d/x"));
    assert!(!should_skip_file("/p", "/q/d", "/q/d/.git/x"));
}

#[test]
fn archive_extras_follow_the_manifest() {
    let mut m = manifest_with(vec![]);
    m.archive.include_git_info = false;
    let extras = archive_extras(&m, "demo", Some("/o/r.manifest.yaml"), Some("/o/r.git_info.json"), None);
    assert_eq!(extras.len(), 1);
    assert_eq!(extras[0].0, "/o/r.manifest.yaml");
    assert_eq!(extras[0].1, "demo/manifest.yaml");
    assert_eq!(extras[0].2, ExtraFile::ManifestSnapshot);
    assert_eq!(archive_path_for(".rau/archives", "demo_1"), ".rau/archives/demo_1.tar.gz");
}

#[test]
fn run_files_and_remote_dir() {
    let (a, b, c, d) = build_run_paths("r_1", "out");
    assert_eq!((a.as_str(), b.as_str(), c.as_str(), d.as_str()), ("out/r_1.manifest.yaml", "out/r_1.git_info.json", "out/r_1.tar.gz", "out/r_1.meta.json"));
    let mut m = manifest_with(vec![]);
    m.oss.remote_dir = "artifacts/demo//".to_string();
    assert_eq!(remote_dir_for_run(&m, "20240101_000000"), "artifacts/demo/20240101_000000");
    m.oss.bucket = " ".to_string();
    assert_eq!(check_oss_settings(&m).unwrap_err(), "oss.bucket is required");
    let m = manifest_with(vec![]);
    assert!(check_oss_settings(&m).is_ok());
}

#[test]
fn command_steps() {
    let full = run_steps(RunKind::Upload { dry_run: false, no_upload: false, no_record: false }, true);
    assert_eq!(
        full,
        vec![
            RunStep::EnsureOutputDir,
            RunStep::WriteManifestSnapshot,
            RunStep::WriteGitSnapshot,
            RunStep::WriteMetadata(MetadataStage::Initial, UploadState::Pending),
            RunStep::CreateArchive,
            RunStep::WriteChecksum,
            RunStep::WriteMetadata(MetadataStage::Final, UploadState::Pending),
            RunStep::UploadArchive,
            RunStep::UploadMetadata,
            RunStep::UploadChecksum,
            RunStep::WriteMetadata(MetadataStage::Final, UploadState::Success),
            RunStep::Report,
            RunStep::AppendRecords,
        ]
    );
    assert_eq!(run_steps(RunKind::Upload { dry_run: true, no_upload: false, no_record: false }, true), vec![RunStep::PrintPlan]);
    let local = run_steps(RunKind::Upload { dry_run: false, no_upload: true, no_record: false }, false);
    assert!(!local.iter().any(|s| matches!(s, RunStep::UploadArchive | RunStep::UploadMetadata | RunStep::UploadChecksum | RunStep::AppendRecords)));
    assert_eq!(local.len(), 7);
    assert_eq!(local[5], RunStep::WriteMetadata(MetadataStage::Final, UploadState::NotUploaded));
    let pack = run_steps(RunKind::Pack, false);
    assert_eq!(pack.len(), 7);
    assert_eq!(pack[5], RunStep::WriteMetadata(MetadataStage::Final, UploadState::NotUploaded));
    assert_eq!(step_error(RunStep::UploadArchive, "x"), "upload archive failed: x");
    assert_eq!(step_error(RunStep::UploadChecksum, "x"), "upload sha256 failed: x");
    assert_eq!(step_error(RunStep::CreateArchive, "x"), "x");
    assert_eq!(upload_state_str(UploadState::NotUploaded), "not_uploaded");
    assert_eq!(
        metadata_archive_fields(MetadataStage::Initial, "demo_1", "x.tar.gz", 9, "ab"),
        ("demo_1.tar.gz".to_string(), 0, String::new())
    );
    assert_eq!(
        metadata_archive_fields(MetadataStage::Final, "demo_1", "demo_1.tar.gz", 9, "ab"),
        ("demo_1.tar.gz".to_string(), 9, "ab".to_string())
    );
    assert_eq!(checksum_path_for("/o", "demo_20240101_120000"), "/o/demo_20240101_120000.tar.sha256");
    assert_eq!(
        std::path::Path::new(&archive_path_for("/o", "demo_20240101_120000")).with_extension("sha256"),
        std::path::PathBuf::from(checksum_path_for("/o", "demo_20240101_120000"))
    );
}

#[test]
fn commands_choose_their_run() {
    let upload = Cli {
        command: Command::Upload {
            manifest: "artifacts.yaml".to_string(),
            dry_run: true,
            no_upload: false,
            no_record: true,
            allow_outside_project: false,
        },
    };
    assert_eq!(
        upload.run_kind(),
        Some(RunKind::Upload { dry_run: true, no_upload: false, no_record: true })
    );
    let pack = Cli {
        command: Command::Pack { manifest: "artifacts.yaml".to_string(), allow_outside_project: true },
    };
    assert_eq!(pack.run_kind(), Some(RunKind::Pack));
    let check = Cli {
        command: Command::Check { manifest: "artifacts.yaml".to_string(), allow_outside_project: false },
    };
    assert_eq!(check.run_kind(), None);
    let records = Cli {
        command: Command::Records { jsonl: "records.jsonl".to_string(), last: DEFAULT_RECORDS_LAST },
    };
    assert_eq!(records.run_kind(), None);
    assert_eq!(DEFAULT_RECORDS_LAST, 10);
}

#[test]
fn artifact_table_lines() {
    let arts = vec![collected("m", "glob", &["/a", "/b"]), collected("n", "file", &[])];
    assert_eq!(
        artifact_table(&arts),
        vec![
            "name\ttype\trequired\tstatus\tpaths".to_string(),
            "m\tglob\ttrue\tincluded\t/a,/b".to_string(),
            "n\tfile\ttrue\tmissing\t(none)".to_string(),
        ]
    );
}

#[test]
fn metadata_records_the_run() {
    let m = manifest_with(vec![]);
    let arts = vec![collected("m", "glob", &["/a", "/b"])];
    let git = git_info_from_outputs(&Some("/r".to_string()), &Some("c".to_string()), &Some("main".to_string()), &None);
    let md = build_metadata_at(&m, "demo_1", "demo_1.tar.gz", "/o/demo_1.tar.gz", 7, "ff", "/rd/x", &arts, &git, "pending", &vec!["w".to_string()], "T".to_string());
    assert_eq!(md.schema_version, 1);
    assert_eq!(md.timestamp, "T");
    assert_eq!(md.tags, vec!["t1".to_string()]);
    assert_eq!(md.oss.archive_uri, "oss://luyukuan-research/rd/x/demo_1.tar.gz");
    assert_eq!(md.oss.metadata_uri, "oss://luyukuan-research/rd/x/demo_1.meta.json");
    assert_eq!(md.oss.sha256_uri, "oss://luyukuan-research/rd/x/demo_1.sha256");
    assert_eq!(md.artifacts[0].status, "included");
    assert_eq!(md.artifacts[0].matched_count, 2);
    assert_eq!(md.git.branch.as_deref(), Some("main"));
    assert_eq!(md.upload.status, "pending");
    assert_eq!(md.warnings, vec!["w".to_string()]);
    let stamped = build_metadata(&m, "demo_1", "demo_1.tar.gz", "/o", 0, "", "rd", &arts, &git, "success", &vec![]);
    assert!(stamped.timestamp.len() >= 20);
    assert_eq!(&stamped.timestamp[10..11], "T");
    let iso = now_iso();
    assert_eq!(&iso[4..5], "-");
}

#[test]
fn record_lines() {
    assert_eq!(lines_of("a\n\nb\r\nc\n"), vec!["a", "", "b", "c"]);
    assert_eq!(lines_of("x\r"), vec!["x\r"]);
    assert_eq!(lines_of(""), Vec::<String>::new());
    assert_eq!(recent_record_lines("a\n\nb\r\nc\n", 2), vec!["b", "c"]);
    assert_eq!(recent_record_lines("a\n\nb\r\nc\n", 3), vec!["b", "c"]);
    assert_eq!(recent_record_lines("a\n\nb\r\nc\n", 10), vec!["a", "b", "c"]);
    assert_eq!(recent_record_lines("a\nb\n", 0), Vec::<String>::new());
    assert_eq!(
        markdown_row("t", "r", "p", "1.0", "2.00", "oss://u", "ff"),
        "| t | r | p | 1.0 MiB | 2.00 MiB/s | `oss://u` | `ff` |\n"
    );
}

#[test]
fn record_rows_read_json_lines() {
    let content = [
        "{\"time\":\"t0\",\"run_name\":\"old\"}\n",
        "{\"time\":\"t1\",\"run_id\":\"r1\",\"run_name\":\"n1\",\"project\":\"p\",\"archive_uri\":\"oss://b/x\",\"size_bytes\":2048,\"avg_mib_s\":1.5}\n",
        "\n",
        "not json\n",
        "{\"time\":5,\"size_bytes\":-1,\"avg_mib_s\":3}\n",
    ]
    .join("");
    let content = content.as_str();
    let rows = read_record_rows(content, 4);
    assert_eq!(rows.len(), 2);
    assert_eq!(rows[0].time, "t1");
    assert_eq!(rows[0].run_id, "r1");
    assert_eq!(rows[0].archive_uri, "oss://b/x");
    assert_eq!(rows[0].size_bytes, 2048);
    assert_eq!(rows[0].avg_mib_s, Some("1.5".to_string()));
    assert_eq!(rows[1].time, "");
    assert_eq!(rows[1].size_bytes, 0);
    assert_eq!(rows[1].avg_mib_s, Some("3".to_string()));
    assert_eq!(read_record_rows(content, 5).len(), 3);
    assert_eq!(read_record_rows(content, 5)[0].run_name, "old");
    assert!(read_record_rows(content, 0).is_empty());
    let row = record_row(RecordJson {
        time: Some("t".to_string()),
        run_id: None,
        run_name: Some("n".to_string()),
        project: None,
        archive_uri: None,
        size_bytes: None,
        avg_mib_s: None,
    });
    assert_eq!((row.time.as_str(), row.run_id.as_str(), row.run_name.as_str(), row.size_bytes), ("t", "", "n", 0));
}

#[test]
fn trimming_removes_unicode_whitespace() {
    assert_eq!(trim_str("\u{3000} x \t\n"), "x");
    assert_eq!(trim_str("\u{85}a b\u{2028}"), "a b");
    assert_eq!(trim_str("   "), "");
}
