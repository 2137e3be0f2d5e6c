//! The metadata record written beside each archive.

use vstd::prelude::*;

use crate::archive::{is_digit, is_year_text, two_digits_in};
use crate::collect::{ArtifactStatus, CollectedArtifact, strs};
use crate::gitinfo::{GitInfo, opt_text};
use crate::manifest::Manifest;
use crate::oss::{oss_uri, oss_uri_of};
use crate::text::concat2;

verus! {

/// A local time as chrono's RFC 3339 rendering with whole seconds writes it:
/// `{year}-MM-DDTHH:MM:SS`, then `Z` for a zero offset or `±HH:MM`.
pub open spec fn is_rfc3339_seconds(t: Seq<char>) -> bool {
    let n = t.len() as int;
    let off: int = if n > 0 && t[n - 1] == 'Z' {
        1
    } else {
        6
    };
    let b = n - off;
    &&& n >= 20
    &&& (off == 6 ==> {
        &&& t[b] == '+' || t[b] == '-'
        &&& is_digit(t[b + 1]) && is_digit(t[b + 2])
        &&& t[b + 3] == ':'
        &&& two_digits_in(t, b + 4, 0, 59)
    })
    &&& b >= 19
    &&& is_year_text(t.subrange(0, b - 15))
    &&& t[b - 15] == '-'
    &&& two_digits_in(t, b - 14, 1, 12)
    &&& t[b - 12] == '-'
    &&& two_digits_in(t, b - 11, 1, 31)
    &&& t[b - 9] == 'T'
    &&& two_digits_in(t, b - 8, 0, 23)
    &&& t[b - 6] == ':'
    &&& two_digits_in(t, b - 5, 0, 59)
    &&& t[b - 3] == ':'
    &&& two_digits_in(t, b - 2, 0, 60)
}

/// The local time in RFC 3339 with whole seconds
/// (`chrono::Local::now().to_rfc3339_opts(SecondsFormat::Secs, true)`). The
/// contract states only the shape that chrono's formatting code gives; which
/// time it is depends on the clock.
#[verifier::external_body]
pub fn now_iso() -> (res: String)
    ensures
        is_rfc3339_seconds(res@),
{
    chrono::Local::now().to_rfc3339_opts(chrono::SecondsFormat::Secs, true)
}

/// The archive file of a run.
#[derive(Debug, Clone)]
pub struct ArchiveMeta {
    pub filename: String,
    pub local_path: String,
    pub size_bytes: u64,
    pub sha256: String,
}

/// Where a run's files are uploaded.
#[derive(Debug, Clone)]
pub struct OssMeta {
    pub bucket: String,
    pub region: String,
    pub endpoint: String,
    pub remote_dir: String,
    pub archive_uri: String,
    pub metadata_uri: String,
    pub sha256_uri: String,
}

/// One collected artifact, summarized.
#[derive(Debug, Clone)]
pub struct ArtifactMeta {
    pub name: String,
    pub artifact_type: String,
    pub source_path: String,
    pub required: bool,
    pub status: String,
    pub matched_count: usize,
}

/// What git said of the repository.
#[derive(Debug, Clone)]
pub struct GitMeta {
    pub available: bool,
    pub repo_root: Option<String>,
    pub commit: Option<String>,
    pub branch: Option<String>,
    pub dirty: Option<bool>,
}

/// The state of the upload; how long it took and how fast it went are
/// measured by the caller.
#[derive(Debug, Clone)]
pub struct UploadMeta {
    pub status: String,
}

/// The metadata record of a run.
#[derive(Debug, Clone)]
pub struct Metadata {
    pub schema_version: u32,
    pub run_id: String,
    pub run_name: String,
    pub project: String,
    pub tags: Vec<String>,
    pub timestamp: String,
    pub archive: ArchiveMeta,
    pub oss: OssMeta,
    pub artifacts: Vec<ArtifactMeta>,
    pub git: GitMeta,
    pub upload: UploadMeta,
    pub warnings: Vec<String>,
}

/// The word for an artifact status.
pub open spec fn status_text(s: ArtifactStatus) -> Seq<char> {
    match s {
        ArtifactStatus::Included => "included"@,
        ArtifactStatus::Missing => "missing"@,
    }
}

/// The word for an artifact status.
pub fn status_str(s: &ArtifactStatus) -> (res: &'static str)
    ensures
        res@ == status_text(*s),
{
    match s {
        ArtifactStatus::Included => "included",
        ArtifactStatus::Missing => "missing",
    }
}

/// Whether `m` summarizes the collected artifact `c`.
pub open spec fn summarizes(m: ArtifactMeta, c: CollectedArtifact) -> bool {
    &&& m.name@ == c.name@
    &&& m.artifact_type@ == c.artifact_type@
    &&& m.source_path@ == c.source_path@
    &&& m.required == c.required
    &&& m.status@ == status_text(c.status)
    &&& m.matched_count == c.matched_paths@.len()
}

fn copy_strings(v: &Vec<String>) -> (res: Vec<String>)
    ensures
        strs(res@) == strs(v@),
{
    let mut out: Vec<String> = Vec::new();
    let mut i: usize = 0;
    while i < v.len()
        invariant
            0 <= i <= v@.len(),
            strs(out@) == strs(v@).take(i as int),
        decreases v@.len() - i,
    {
        let ghost before = out@;
        let c = v[i].clone();
        assert(c@ == v@[i as int]@);
        out.push(c);
        assert(strs(out@) =~= strs(before).push(c@));
        assert(strs(out@) =~= strs(v@).take(i + 1));
        i = i + 1;
    }
    assert(strs(v@).take(i as int) =~= strs(v@));
    out
}

fn copy_opt(s: &Option<String>) -> (res: Option<String>)
    ensures
        opt_text(res) == opt_text(*s),
{
    match s {
        Some(t) => Some(t.clone()),
        None => None,
    }
}

/// Whether `res` records the run with these inputs, whatever its
/// timestamp.
pub open spec fn describes_run(
    res: Metadata,
    manifest: Manifest,
    run_id: Seq<char>,
    archive_filename: Seq<char>,
    archive_path: Seq<char>,
    size_bytes: u64,
    sha256: Seq<char>,
    remote_dir: Seq<char>,
    artifacts: Seq<CollectedArtifact>,
    git_info: GitInfo,
    status: Seq<char>,
    warnings: Seq<String>,
) -> bool {
    &&& res.schema_version == 1
    &&& res.run_id@ == run_id
    &&& res.run_name@ == manifest.run.name@
    &&& res.project@ == manifest.run.project@
    &&& strs(res.tags@) == strs(manifest.run.tags@)
    &&& res.archive.filename@ == archive_filename
    &&& res.archive.local_path@ == archive_path
    &&& res.archive.size_bytes == size_bytes
    &&& res.archive.sha256@ == sha256
    &&& res.oss.bucket@ == manifest.oss.bucket@
    &&& res.oss.region@ == manifest.oss.region@
    &&& res.oss.endpoint@ == manifest.oss.endpoint@
    &&& res.oss.remote_dir@ == remote_dir
    &&& res.oss.archive_uri@ == oss_uri_of(manifest.oss.bucket@, remote_dir, archive_filename)
    &&& res.oss.metadata_uri@ == oss_uri_of(manifest.oss.bucket@, remote_dir, run_id + ".meta.json"@)
    &&& res.oss.sha256_uri@ == oss_uri_of(manifest.oss.bucket@, remote_dir, run_id + ".sha256"@)
    &&& res.artifacts@.len() == artifacts.len()
    &&& forall|i: int|
        0 <= i < artifacts.len() ==> summarizes(#[trigger] res.artifacts@[i], artifacts[i])
    &&& res.git.available == git_info.available
    &&& opt_text(res.git.repo_root) == opt_text(git_info.repo_root)
    &&& opt_text(res.git.commit) == opt_text(git_info.commit)
    &&& opt_text(res.git.branch) == opt_text(git_info.branch)
    &&& res.git.dirty == git_info.dirty
    &&& res.upload.status@ == status
    &&& strs(res.warnings@) == strs(warnings)
}

/// The metadata of a run, with the given timestamp: the run's names from the
/// manifest, the archive's file, the upload addresses of the archive, the
/// metadata and the checksum files, one summary per collected artifact, what
/// git said, the upload status and the warnings.
pub fn build_metadata_at(
    manifest: &Manifest,
    run_id: &str,
    archive_filename: &str,
    archive_path: &str,
    size_bytes: u64,
    sha256: &str,
    remote_dir: &str,
    artifacts: &Vec<CollectedArtifact>,
    git_info: &GitInfo,
    status: &str,
    warnings: &Vec<String>,
    timestamp: String,
) -> (res: Metadata)
    ensures
        res.timestamp == timestamp,
        describes_run(
            res,
            *manifest,
            run_id@,
            archive_filename@,
            archive_path@,
            size_bytes,
            sha256@,
            remote_dir@,
            artifacts@,
            *git_info,
            status@,
            warnings@,
        ),
{
    let bucket = manifest.oss.bucket.as_str();
    let meta_name = concat2(run_id, ".meta.json");
    let sha_name = concat2(run_id, ".sha256");
    let mut metas: Vec<ArtifactMeta> = Vec::new();
    let mut i: usize = 0;
    while i < artifacts.len()
        invariant
            0 <= i <= artifacts@.len(),
            metas@.len() == i,
            forall|j: int| 0 <= j < i ==> summarizes(#[trigger] metas@[j], artifacts@[j]),
        decreases artifacts@.len() - i,
    {
        let a = &artifacts[i];
        metas.push(
            ArtifactMeta {
                name: a.name.clone(),
                artifact_type: a.artifact_type.clone(),
                source_path: a.source_path.clone(),
                required: a.required,
                status: status_str(&a.status).to_owned(),
                matched_count: a.matched_count(),
            },
        );
        i = i + 1;
    }
    Metadata {
        schema_version: 1,
        run_id: run_id.to_owned(),
        run_name: manifest.run.name.clone(),
        project: manifest.run.project.clone(),
        tags: copy_strings(&manifest.run.tags),
        timestamp,
        archive: ArchiveMeta {
            filename: archive_filename.to_owned(),
            local_path: archive_path.to_owned(),
            size_bytes,
            sha256: sha256.to_owned(),
        },
        oss: OssMeta {
            bucket: manifest.oss.bucket.clone(),
            region: manifest.oss.region.clone(),
            endpoint: manifest.oss.endpoint.clone(),
            remote_dir: remote_dir.to_owned(),
            archive_uri: oss_uri(bucket, remote_dir, archive_filename),
            metadata_uri: oss_uri(bucket, remote_dir, meta_name.as_str()),
            sha256_uri: oss_uri(bucket, remote_dir, sha_name.as_str()),
        },
        artifacts: metas,
        git: GitMeta {
            available: git_info.available,
            repo_root: copy_opt(&git_info.repo_root),
            commit: copy_opt(&git_info.commit),
            branch: copy_opt(&git_info.branch),
            dirty: git_info.dirty,
        },
        upload: UploadMeta { status: status.to_owned() },
        warnings: copy_strings(warnings),
    }
}

/// The metadata of a run, stamped with the current local time in RFC 3339.
pub fn build_metadata(
    manifest: &Manifest,
    run_id: &str,
    archive_filename: &str,
    archive_path: &str,
    size_bytes: u64,
    sha256: &str,
    remote_dir: &str,
    artifacts: &Vec<CollectedArtifact>,
    git_info: &GitInfo,
    status: &str,
    warnings: &Vec<String>,
) -> (res: Metadata)
    ensures
        is_rfc3339_seconds(res.timestamp@),
        describes_run(
            res,
            *manifest,
            run_id@,
            archive_filename@,
            archive_path@,
            size_bytes,
            sha256@,
            remote_dir@,
            artifacts@,
            *git_info,
            status@,
            warnings@,
        ),
{
    let t = now_iso();
    build_metadata_at(
        manifest,
        run_id,
        archive_filename,
        archive_path,
        size_bytes,
        sha256,
        remote_dir,
        artifacts,
        git_info,
        status,
        warnings,
        t,
    )
}

} // verus!
