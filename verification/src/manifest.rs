//! The upload manifest: its sections, their default values, and the checks
//! that a manifest must pass before anything is collected.

use vstd::prelude::*;

use crate::text::{blank, chars_of, is_blank, push_decimal, push_str, string_of, decimal, str_eq};

verus! {

pub const DEFAULT_ARCHIVE_OUTPUT_DIR: &'static str = ".rau/archives";

pub const DEFAULT_ARCHIVE_FORMAT: &'static str = "tar.gz";

pub const DEFAULT_ARCHIVE_COMPRESSION_LEVEL: u32 = 3;

pub const DEFAULT_RECORDS_JSONL: &'static str = "docs/upload_records.jsonl";

pub const DEFAULT_RECORDS_MARKDOWN: &'static str = "docs/upload_records.md";

pub const DEFAULT_OSS_BUCKET: &'static str = "luyukuan-research";

pub const DEFAULT_OSS_REGION: &'static str = "cn-shanghai";

pub const DEFAULT_OSS_ENDPOINT: &'static str = "oss-accelerate.aliyuncs.com";

/// A whole manifest.
#[derive(Debug, Clone)]
pub struct Manifest {
    pub run: RunConfig,
    pub artifacts: Vec<ArtifactConfig>,
    pub archive: ArchiveConfig,
    pub oss: OssConfig,
    pub records: RecordsConfig,
}

/// The run that the artifacts belong to.
#[derive(Debug, Clone)]
pub struct RunConfig {
    pub name: String,
    pub project: String,
    pub tags: Vec<String>,
}

/// One artifact to collect: a file, a directory, or a glob pattern.
#[derive(Debug, Clone)]
pub struct ArtifactConfig {
    pub name: String,
    pub path: String,
    pub artifact_type: String,
    pub required: bool,
}

/// How the archive is written.
#[derive(Debug, Clone)]
pub struct ArchiveConfig {
    pub output_dir: String,
    pub format: String,
    pub compression_level: u32,
    pub include_manifest: bool,
    pub include_git_info: bool,
    pub include_metadata: bool,
}

/// Where the archive is uploaded.
#[derive(Debug, Clone)]
pub struct OssConfig {
    pub bucket: String,
    pub region: String,
    pub endpoint: String,
    pub remote_dir: String,
}

/// Where local upload records are appended.
#[derive(Debug, Clone)]
pub struct RecordsConfig {
    pub jsonl: String,
    pub markdown: String,
}

pub fn default_true() -> (res: bool)
    ensures
        res,
{
    true
}

pub fn default_archive_output_dir() -> (res: String)
    ensures
        res@ == DEFAULT_ARCHIVE_OUTPUT_DIR@,
{
    DEFAULT_ARCHIVE_OUTPUT_DIR.to_owned()
}

pub fn default_archive_format() -> (res: String)
    ensures
        res@ == DEFAULT_ARCHIVE_FORMAT@,
{
    DEFAULT_ARCHIVE_FORMAT.to_owned()
}

pub fn default_archive_compression_level() -> (res: u32)
    ensures
        res == DEFAULT_ARCHIVE_COMPRESSION_LEVEL,
{
    DEFAULT_ARCHIVE_COMPRESSION_LEVEL
}

pub fn default_records_jsonl() -> (res: String)
    ensures
        res@ == DEFAULT_RECORDS_JSONL@,
{
    DEFAULT_RECORDS_JSONL.to_owned()
}

pub fn default_records_markdown() -> (res: String)
    ensures
        res@ == DEFAULT_RECORDS_MARKDOWN@,
{
    DEFAULT_RECORDS_MARKDOWN.to_owned()
}

pub fn default_bucket() -> (res: String)
    ensures
        res@ == DEFAULT_OSS_BUCKET@,
{
    DEFAULT_OSS_BUCKET.to_owned()
}

pub fn default_region() -> (res: String)
    ensures
        res@ == DEFAULT_OSS_REGION@,
{
    DEFAULT_OSS_REGION.to_owned()
}

pub fn default_endpoint() -> (res: String)
    ensures
        res@ == DEFAULT_OSS_ENDPOINT@,
{
    DEFAULT_OSS_ENDPOINT.to_owned()
}

impl Default for ArchiveConfig {
    fn default() -> (res: Self)
        ensures
            res.output_dir@ == DEFAULT_ARCHIVE_OUTPUT_DIR@,
            res.format@ == DEFAULT_ARCHIVE_FORMAT@,
            res.compression_level == DEFAULT_ARCHIVE_COMPRESSION_LEVEL,
            res.include_manifest,
            res.include_git_info,
            res.include_metadata,
    {
        ArchiveConfig {
            output_dir: default_archive_output_dir(),
            format: default_archive_format(),
            compression_level: default_archive_compression_level(),
            include_manifest: true,
            include_git_info: true,
            include_metadata: true,
        }
    }
}

impl Default for RecordsConfig {
    fn default() -> (res: Self)
        ensures
            res.jsonl@ == DEFAULT_RECORDS_JSONL@,
            res.markdown@ == DEFAULT_RECORDS_MARKDOWN@,
    {
        RecordsConfig { jsonl: default_records_jsonl(), markdown: default_records_markdown() }
    }
}

impl Default for OssConfig {
    fn default() -> (res: Self)
        ensures
            res.bucket@ == DEFAULT_OSS_BUCKET@,
            res.region@ == DEFAULT_OSS_REGION@,
            res.endpoint@ == DEFAULT_OSS_ENDPOINT@,
            res.remote_dir@ == Seq::<char>::empty(),
    {
        OssConfig {
            bucket: default_bucket(),
            region: default_region(),
            endpoint: default_endpoint(),
            remote_dir: String::new(),
        }
    }
}

/// The artifact types that a manifest may name.
pub open spec fn is_allowed_type(t: Seq<char>) -> bool {
    t == "file"@ || t == "directory"@ || t == "glob"@
}

/// Whether `t` names an artifact type that a manifest may use.
pub fn allowed_type(t: &String) -> (res: bool)
    ensures
        res == is_allowed_type(t@),
{
    let cs = chars_of(t.as_str());
    str_eq("file", &cs) || str_eq("directory", &cs) || str_eq("glob", &cs)
}

/// `artifacts[i]` followed by `tail`, the shape of an artifact error.
pub open spec fn artifact_message(i: nat, tail: Seq<char>) -> Seq<char> {
    "artifacts["@ + decimal(i) + tail
}

/// What is wrong with artifact number `i`, if anything.
pub open spec fn artifact_problem(a: ArtifactConfig, i: nat) -> Option<Seq<char>> {
    if !is_allowed_type(a.artifact_type@) {
        Some(artifact_message(i, "].type must be file, directory, or glob"@))
    } else if is_blank(a.name@) {
        Some(artifact_message(i, "].name must not be empty"@))
    } else if is_blank(a.path@) {
        Some(artifact_message(i, "].path must not be empty"@))
    } else {
        None
    }
}

/// The problem of the first faulty artifact from index `k` on.
pub open spec fn first_artifact_problem(arts: Seq<ArtifactConfig>, k: nat) -> Option<Seq<char>>
    decreases arts.len() - k,
{
    if k >= arts.len() {
        None
    } else {
        match artifact_problem(arts[k as int], k) {
            Some(e) => Some(e),
            None => first_artifact_problem(arts, k + 1),
        }
    }
}

/// The first rule that a manifest breaks, in the order in which they are
/// checked, or `None` when it breaks none.
pub open spec fn manifest_problem(m: Manifest) -> Option<Seq<char>> {
    if is_blank(m.run.name@) {
        Some("run.name is required"@)
    } else if is_blank(m.run.project@) {
        Some("run.project is required"@)
    } else if m.archive.format@ != "tar.gz"@ {
        Some("only tar.gz archive format is supported"@)
    } else if !(1 <= m.archive.compression_level <= 9) {
        Some("archive.compression_level must be in [1,9]"@)
    } else if is_blank(m.oss.remote_dir@) {
        Some("oss.remote_dir is required"@)
    } else {
        first_artifact_problem(m.artifacts@, 0)
    }
}

/// A records path, with the default in place of a blank one.
pub open spec fn records_path_or(path: Seq<char>, default: Seq<char>) -> Seq<char> {
    if is_blank(path) {
        default
    } else {
        path
    }
}

fn artifact_error(i: usize, tail: &str) -> (res: String)
    ensures
        res@ == artifact_message(i as nat, tail@),
{
    let mut out: Vec<char> = Vec::new();
    push_str(&mut out, "artifacts[");
    push_decimal(&mut out, i as u128);
    push_str(&mut out, tail);
    assert(out@ =~= artifact_message(i as nat, tail@));
    string_of(&out)
}

fn check_artifacts(arts: &Vec<ArtifactConfig>) -> (res: Result<(), String>)
    ensures
        match res {
            Ok(()) => first_artifact_problem(arts@, 0) is None,
            Err(e) => first_artifact_problem(arts@, 0) == Some(e@),
        },
{
    let mut i: usize = 0;
    while i < arts.len()
        invariant
            0 <= i <= arts.len(),
            first_artifact_problem(arts@, 0) == first_artifact_problem(arts@, i as nat),
        decreases arts.len() - i,
    {
        let a = &arts[i];
        if !allowed_type(&a.artifact_type) {
            return Err(artifact_error(i, "].type must be file, directory, or glob"));
        }
        if blank(a.name.as_str()) {
            return Err(artifact_error(i, "].name must not be empty"));
        }
        if blank(a.path.as_str()) {
            return Err(artifact_error(i, "].path must not be empty"));
        }
        assert(artifact_problem(arts@[i as int], i as nat) is None);
        i = i + 1;
    }
    Ok(())
}

/// Checks a manifest read from its YAML text and fills in blank records
/// paths; the error names the first rule broken.
pub fn validate_manifest(m: Manifest) -> (res: Result<Manifest, String>)
    ensures
        match res {
            Err(e) => manifest_problem(m) == Some(e@),
            Ok(v) => {
                &&& manifest_problem(m) is None
                &&& v.run == m.run
                &&& v.artifacts == m.artifacts
                &&& v.archive == m.archive
                &&& v.oss == m.oss
                &&& v.records.jsonl@ == records_path_or(m.records.jsonl@, DEFAULT_RECORDS_JSONL@)
                &&& v.records.markdown@ == records_path_or(
                    m.records.markdown@,
                    DEFAULT_RECORDS_MARKDOWN@,
                )
                &&& !is_blank(m.records.jsonl@) ==> v.records.jsonl@ == m.records.jsonl@
                &&& is_blank(m.records.jsonl@) ==> v.records.jsonl@ == DEFAULT_RECORDS_JSONL@
                &&& !is_blank(m.records.markdown@) ==> v.records.markdown@ == m.records.markdown@
                &&& is_blank(m.records.markdown@) ==> v.records.markdown@ == DEFAULT_RECORDS_MARKDOWN@
            },
        },
{
    if blank(m.run.name.as_str()) {
        return Err("run.name is required".to_owned());
    }
    if blank(m.run.project.as_str()) {
        return Err("run.project is required".to_owned());
    }
    let fmt = chars_of(m.archive.format.as_str());
    if !str_eq("tar.gz", &fmt) {
        return Err("only tar.gz archive format is supported".to_owned());
    }
    if !(1 <= m.archive.compression_level && m.archive.compression_level <= 9) {
        return Err("archive.compression_level must be in [1,9]".to_owned());
    }
    if blank(m.oss.remote_dir.as_str()) {
        return Err("oss.remote_dir is required".to_owned());
    }
    match check_artifacts(&m.artifacts) {
        Err(e) => {
            return Err(e);
        },
        Ok(()) => {},
    }
    let mut v = m;
    if blank(v.records.jsonl.as_str()) {
        v.records.jsonl = DEFAULT_RECORDS_JSONL.to_owned();
    }
    if blank(v.records.markdown.as_str()) {
        v.records.markdown = DEFAULT_RECORDS_MARKDOWN.to_owned();
    }
    Ok(v)
}


proof fn lemma_first_artifact_problem_none(arts: Seq<ArtifactConfig>, k: nat, i: int)
    requires
        first_artifact_problem(arts, k) is None,
        k <= i < arts.len(),
    ensures
        artifact_problem(arts[i], i as nat) is None,
    decreases i - k,
{
    if i > k {
        lemma_first_artifact_problem_none(arts, k + 1, i);
    }
}

/// Law: a manifest that passes validation has a run name and project, the
/// `tar.gz` format, a compression level from 1 to 9, a remote directory, and
/// every artifact of type `file`, `directory` or `glob` with a name and a
/// path.
pub proof fn lemma_accepted_manifest(m: Manifest)
    requires
        manifest_problem(m) is None,
    ensures
        !is_blank(m.run.name@),
        !is_blank(m.run.project@),
        m.archive.format@ == "tar.gz"@,
        1 <= m.archive.compression_level <= 9,
        !is_blank(m.oss.remote_dir@),
        forall|i: int|
            0 <= i < m.artifacts@.len() ==> {
                &&& is_allowed_type((#[trigger] m.artifacts@[i]).artifact_type@)
                &&& !is_blank(m.artifacts@[i].name@)
                &&& !is_blank(m.artifacts@[i].path@)
            },
{
    assert forall|i: int| 0 <= i < m.artifacts@.len() implies {
        &&& is_allowed_type((#[trigger] m.artifacts@[i]).artifact_type@)
        &&& !is_blank(m.artifacts@[i].name@)
        &&& !is_blank(m.artifacts@[i].path@)
    } by {
        lemma_first_artifact_problem_none(m.artifacts@, 0, i);
    }
}

proof fn lemma_defaults_not_blank()
    ensures
        !is_blank(DEFAULT_RECORDS_JSONL@),
        !is_blank(DEFAULT_RECORDS_MARKDOWN@),
{
    reveal_strlit("docs/upload_records.jsonl");
    reveal_strlit("docs/upload_records.md");
    let j = DEFAULT_RECORDS_JSONL@;
    let d = DEFAULT_RECORDS_MARKDOWN@;
    assert(!crate::text::is_whitespace(j[0]));
    assert(!crate::text::is_whitespace(j.last()));
    assert(crate::text::strip_start(j, crate::text::CharSet::Whitespace) == j);
    assert(crate::text::strip_end(j, crate::text::CharSet::Whitespace) == j);
    assert(!crate::text::is_whitespace(d[0]));
    assert(!crate::text::is_whitespace(d.last()));
    assert(crate::text::strip_start(d, crate::text::CharSet::Whitespace) == d);
    assert(crate::text::strip_end(d, crate::text::CharSet::Whitespace) == d);
}

/// Law: validation is idempotent. What `validate_manifest` returns for a
/// manifest passes validation again and comes back unchanged.
pub proof fn lemma_validation_idempotent(m: Manifest, v: Manifest)
    requires
        manifest_problem(m) is None,
        v.run == m.run,
        v.artifacts == m.artifacts,
        v.archive == m.archive,
        v.oss == m.oss,
        v.records.jsonl@ == records_path_or(m.records.jsonl@, DEFAULT_RECORDS_JSONL@),
        v.records.markdown@ == records_path_or(m.records.markdown@, DEFAULT_RECORDS_MARKDOWN@),
    ensures
        manifest_problem(v) is None,
        records_path_or(v.records.jsonl@, DEFAULT_RECORDS_JSONL@) == v.records.jsonl@,
        records_path_or(v.records.markdown@, DEFAULT_RECORDS_MARKDOWN@) == v.records.markdown@,
{
    lemma_defaults_not_blank();
}

/// Law: validation keeps a records path that is set. A records path that
/// is not blank is kept as written; only a blank one is replaced, by the
/// default; and the path that validation settles on is never blank.
pub proof fn lemma_records_path_kept(path: Seq<char>, default: Seq<char>)
    requires
        !is_blank(default),
    ensures
        !is_blank(path) ==> records_path_or(path, default) == path,
        is_blank(path) ==> records_path_or(path, default) == default,
        !is_blank(records_path_or(path, default)),
{
}

/// Law: the records paths of a validated manifest are those of the manifest
/// where set, else the defaults, and never blank.
pub proof fn lemma_validated_records_paths(m: Manifest)
    ensures
        !is_blank(m.records.jsonl@) ==> records_path_or(m.records.jsonl@, DEFAULT_RECORDS_JSONL@)
            == m.records.jsonl@,
        !is_blank(m.records.markdown@) ==> records_path_or(
            m.records.markdown@,
            DEFAULT_RECORDS_MARKDOWN@,
        ) == m.records.markdown@,
        is_blank(m.records.jsonl@) ==> records_path_or(m.records.jsonl@, DEFAULT_RECORDS_JSONL@)
            == DEFAULT_RECORDS_JSONL@,
        is_blank(m.records.markdown@) ==> records_path_or(
            m.records.markdown@,
            DEFAULT_RECORDS_MARKDOWN@,
        ) == DEFAULT_RECORDS_MARKDOWN@,
{
    lemma_defaults_not_blank();
    lemma_records_path_kept(m.records.jsonl@, DEFAULT_RECORDS_JSONL@);
    lemma_records_path_kept(m.records.markdown@, DEFAULT_RECORDS_MARKDOWN@);
}

} // verus!
