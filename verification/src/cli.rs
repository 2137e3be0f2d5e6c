//! The decisions of the `check`, `pack` and `upload` commands: where a run's
//! files go, what the artifact table says, and which steps a command takes
//! in which order. Performing a step is the caller's work.

use vstd::prelude::*;

use crate::archive::{run_file, run_file_path};
use crate::collect::{CollectedArtifact, strs};
use crate::manifest::Manifest;
use crate::metadata::{status_str, status_text};
use crate::oss::{joined, join_strings};
use crate::text::{blank, chars_of, is_blank, push_all, push_str, strip_end, strip_end_chars, string_of, CharSet};

verus! {

/// The remote directory of a run: the manifest's, without trailing slashes,
/// then `/` and the run's timestamp.
pub open spec fn remote_dir_of(remote_dir: Seq<char>, timestamp: Seq<char>) -> Seq<char> {
    strip_end(remote_dir, CharSet::Slash) + seq!['/'] + timestamp
}

/// The remote directory of a run made at `timestamp`.
pub fn remote_dir_for_run(manifest: &Manifest, timestamp: &str) -> (res: String)
    ensures
        res@ == remote_dir_of(manifest.oss.remote_dir@, timestamp@),
{
    let rd = chars_of(manifest.oss.remote_dir.as_str());
    let base = strip_end_chars(&rd, CharSet::Slash);
    let mut out: Vec<char> = Vec::new();
    push_all(&mut out, &base);
    out.push('/');
    push_str(&mut out, timestamp);
    assert(out@ =~= remote_dir_of(manifest.oss.remote_dir@, timestamp@));
    string_of(&out)
}

/// The local files of a run in the output directory: manifest snapshot, git
/// information, archive and metadata.
pub fn build_run_paths(run_id: &str, output_dir: &str) -> (res: (String, String, String, String))
    ensures
        res.0@ == run_file(output_dir@, run_id@, ".manifest.yaml"@),
        res.1@ == run_file(output_dir@, run_id@, ".git_info.json"@),
        res.2@ == run_file(output_dir@, run_id@, ".tar.gz"@),
        res.3@ == run_file(output_dir@, run_id@, ".meta.json"@),
{
    (
        run_file_path(output_dir, run_id, ".manifest.yaml"),
        run_file_path(output_dir, run_id, ".git_info.json"),
        run_file_path(output_dir, run_id, ".tar.gz"),
        run_file_path(output_dir, run_id, ".meta.json"),
    )
}

/// The header line of the artifact table.
pub open spec fn table_header() -> Seq<char> {
    "name\ttype\trequired\tstatus\tpaths"@
}

/// How a flag is written.
pub open spec fn bool_text(b: bool) -> Seq<char> {
    if b {
        "true"@
    } else {
        "false"@
    }
}

/// The table line of a collected artifact: name, type, whether required,
/// status and matched paths (comma-separated, or `(none)`), tab-separated.
pub open spec fn table_line(a: CollectedArtifact) -> Seq<char> {
    let paths = if a.matched_paths@.len() == 0 {
        "(none)"@
    } else {
        joined(strs(a.matched_paths@), seq![','])
    };
    a.name@ + seq!['\t'] + a.artifact_type@ + seq!['\t'] + bool_text(a.required) + seq!['\t']
        + status_text(a.status) + seq!['\t'] + paths
}

fn table_line_exec(a: &CollectedArtifact) -> (res: String)
    ensures
        res@ == table_line(*a),
{
    let mut out: Vec<char> = Vec::new();
    push_str(&mut out, a.name.as_str());
    out.push('\t');
    push_str(&mut out, a.artifact_type.as_str());
    out.push('\t');
    push_str(&mut out, if a.required { "true" } else { "false" });
    out.push('\t');
    push_str(&mut out, status_str(&a.status));
    out.push('\t');
    if a.matched_paths.len() == 0 {
        push_str(&mut out, "(none)");
    } else {
        let j = join_strings(&a.matched_paths, ",");
        proof {
            reveal_strlit(",");
        }
        assert(","@ =~= seq![',']);
        push_all(&mut out, &j);
    }
    assert(out@ =~= table_line(*a));
    string_of(&out)
}

/// The lines of the artifact table: the header, then one line per collected
/// artifact, in order.
pub fn artifact_table(artifacts: &Vec<CollectedArtifact>) -> (res: Vec<String>)
    ensures
        res@.len() == artifacts@.len() + 1,
        res@[0]@ == table_header(),
        forall|i: int| 0 <= i < artifacts@.len() ==> (#[trigger] res@[i + 1])@ == table_line(artifacts@[i]),
{
    let mut out: Vec<String> = Vec::new();
    out.push("name\ttype\trequired\tstatus\tpaths".to_owned());
    let mut i: usize = 0;
    while i < artifacts.len()
        invariant
            0 <= i <= artifacts@.len(),
            out@.len() == i + 1,
            out@[0]@ == table_header(),
            forall|j: int| 0 <= j < i ==> (#[trigger] out@[j + 1])@ == table_line(artifacts@[j]),
        decreases artifacts@.len() - i,
    {
        out.push(table_line_exec(&artifacts[i]));
        i = i + 1;
    }
    out
}

/// What `check` asks of the upload settings: the first of bucket, region
/// and endpoint that is blank.
pub open spec fn oss_settings_problem(m: Manifest) -> Option<Seq<char>> {
    if is_blank(m.oss.bucket@) {
        Some("oss.bucket is required"@)
    } else if is_blank(m.oss.region@) {
        Some("oss.region is required"@)
    } else if is_blank(m.oss.endpoint@) {
        Some("oss.endpoint is required"@)
    } else {
        None
    }
}

/// Checks that bucket, region and endpoint are set.
pub fn check_oss_settings(manifest: &Manifest) -> (res: Result<(), String>)
    ensures
        match res {
            Ok(()) => oss_settings_problem(*manifest) is None,
            Err(e) => oss_settings_problem(*manifest) == Some(e@),
        },
{
    if blank(manifest.oss.bucket.as_str()) {
        return Err("oss.bucket is required".to_owned());
    }
    if blank(manifest.oss.region.as_str()) {
        return Err("oss.region is required".to_owned());
    }
    if blank(manifest.oss.endpoint.as_str()) {
        return Err("oss.endpoint is required".to_owned());
    }
    Ok(())
}

/// The upload status recorded in a run's metadata.
#[derive(Debug, Clone, Copy, PartialEq, Eq, Structural)]
pub enum UploadState {
    Pending,
    NotUploaded,
    Success,
}

/// The word for an upload status.
pub open spec fn upload_state_text(s: UploadState) -> Seq<char> {
    match s {
        UploadState::Pending => "pending"@,
        UploadState::NotUploaded => "not_uploaded"@,
        UploadState::Success => "success"@,
    }
}

/// The word for an upload status.
pub fn upload_state_str(s: UploadState) -> (res: &'static str)
    ensures
        res@ == upload_state_text(s),
{
    match s {
        UploadState::Pending => "pending",
        UploadState::NotUploaded => "not_uploaded",
        UploadState::Success => "success",
    }
}

/// Which metadata is written: the one before the archive exists, or the one
/// that records the archive's size and checksum.
#[derive(Debug, Clone, Copy, PartialEq, Eq, Structural)]
pub enum MetadataStage {
    Initial,
    Final,
}

/// The archive fields of the metadata written at a stage: before the
/// archive exists, `{run_id}.tar.gz`, size 0 and no digest; once it is
/// packed and checksummed, its file name, size and digest.
pub open spec fn metadata_archive_fields_of(
    stage: MetadataStage,
    run_id: Seq<char>,
    archive_name: Seq<char>,
    size: u64,
    sha256: Seq<char>,
) -> (Seq<char>, u64, Seq<char>) {
    match stage {
        MetadataStage::Initial => (run_id + ".tar.gz"@, 0, seq![]),
        MetadataStage::Final => (archive_name, size, sha256),
    }
}

/// The archive's file name, size and digest as the metadata of a stage
/// records them.
pub fn metadata_archive_fields(
    stage: MetadataStage,
    run_id: &str,
    archive_name: &str,
    size: u64,
    sha256: &str,
) -> (res: (String, u64, String))
    ensures
        (res.0@, res.1, res.2@) == metadata_archive_fields_of(stage, run_id@, archive_name@, size, sha256@),
{
    match stage {
        MetadataStage::Initial => {
            let e = String::new();
            assert(e@ =~= seq![]);
            (crate::text::concat2(run_id, ".tar.gz"), 0, e)
        },
        MetadataStage::Final => (archive_name.to_owned(), size, sha256.to_owned()),
    }
}

/// One step of a command.
#[derive(Debug, Clone, Copy, PartialEq, Eq, Structural)]
pub enum RunStep {
    /// Print the planned run without touching anything.
    PrintPlan,
    /// Create the output directory.
    EnsureOutputDir,
    /// Write the manifest snapshot.
    WriteManifestSnapshot,
    /// Read git information and write it.
    WriteGitSnapshot,
    /// Write the metadata with this upload status.
    WriteMetadata(MetadataStage, UploadState),
    /// Pack the archive.
    CreateArchive,
    /// Checksum the archive and write the `.sha256` file.
    WriteChecksum,
    /// Copy the archive to its address.
    UploadArchive,
    /// Copy the metadata file to its address.
    UploadMetadata,
    /// Copy the checksum file to its address.
    UploadChecksum,
    /// Print where the run's files are.
    Report,
    /// Append the run to the JSONL and Markdown records.
    AppendRecords,
}

/// The command being run.
#[derive(Debug, Clone, Copy, PartialEq, Eq, Structural)]
pub enum RunKind {
    Pack,
    Upload { dry_run: bool, no_upload: bool, no_record: bool },
}

/// A subcommand of `rau` with its options.
#[derive(Debug, Clone)]
pub enum Command {
    /// Validate the manifest, collect the artifacts and probe the bucket.
    Check { manifest: String, allow_outside_project: bool },
    /// Build the archive, checksum and metadata locally.
    Pack { manifest: String, allow_outside_project: bool },
    /// Pack, then copy the files to object storage and record the run.
    Upload {
        manifest: String,
        dry_run: bool,
        no_upload: bool,
        no_record: bool,
        allow_outside_project: bool,
    },
    /// Show the last records of a JSONL file.
    Records { jsonl: String, last: usize },
}

/// How many records `records` shows when `--last` is not given.
pub const DEFAULT_RECORDS_LAST: usize = 10;

/// The parsed command line.
#[derive(Debug, Clone)]
pub struct Cli {
    pub command: Command,
}

/// The run that a command makes: `pack` and `upload` run steps, `check` and
/// `records` do not.
pub open spec fn run_kind_of(c: Command) -> Option<RunKind> {
    match c {
        Command::Pack { .. } => Some(RunKind::Pack),
        Command::Upload { dry_run, no_upload, no_record, .. } => Some(
            RunKind::Upload { dry_run, no_upload, no_record },
        ),
        _ => None,
    }
}

impl Cli {
    /// The run that the command makes, if it is `pack` or `upload`.
    pub fn run_kind(&self) -> (res: Option<RunKind>)
        ensures
            res == run_kind_of(self.command),
    {
        match &self.command {
            Command::Pack { .. } => Some(RunKind::Pack),
            Command::Upload { dry_run, no_upload, no_record, .. } => Some(
                RunKind::Upload { dry_run: *dry_run, no_upload: *no_upload, no_record: *no_record },
            ),
            _ => None,
        }
    }
}

/// A step, when `wanted`.
pub open spec fn step_if(wanted: bool, s: RunStep) -> Seq<RunStep> {
    if wanted {
        seq![s]
    } else {
        seq![]
    }
}

/// The steps of a command, in order; the first step that fails ends it.
/// A dry run only prints its plan. Otherwise the snapshots are written, the
/// initial metadata when the manifest includes metadata, then the archive and
/// its checksum. `pack` and `upload --no-upload` then write the final
/// metadata with status `not_uploaded` and report. A real upload writes the
/// final metadata (the archive's name, size and digest) with status
/// `pending`, copies the archive, the metadata and the checksum in that
/// order, rewrites the local metadata with status `success`, reports, and
/// appends the records unless told not to.
pub open spec fn run_steps_of(kind: RunKind, include_metadata: bool) -> Seq<RunStep> {
    let prepare = seq![
        RunStep::EnsureOutputDir,
        RunStep::WriteManifestSnapshot,
        RunStep::WriteGitSnapshot,
    ];
    let pack = seq![RunStep::CreateArchive, RunStep::WriteChecksum];
    let local_end = seq![
        RunStep::WriteMetadata(MetadataStage::Final, UploadState::NotUploaded),
        RunStep::Report,
    ];
    match kind {
        RunKind::Pack => prepare + step_if(
            include_metadata,
            RunStep::WriteMetadata(MetadataStage::Initial, UploadState::NotUploaded),
        ) + pack + local_end,
        RunKind::Upload { dry_run, no_upload, no_record } => if dry_run {
            seq![RunStep::PrintPlan]
        } else {
            let start = prepare + step_if(
                include_metadata,
                RunStep::WriteMetadata(MetadataStage::Initial, UploadState::Pending),
            ) + pack;
            if no_upload {
                start + local_end
            } else {
                start + seq![
                    RunStep::WriteMetadata(MetadataStage::Final, UploadState::Pending),
                    RunStep::UploadArchive,
                    RunStep::UploadMetadata,
                    RunStep::UploadChecksum,
                    RunStep::WriteMetadata(MetadataStage::Final, UploadState::Success),
                    RunStep::Report,
                ] + step_if(!no_record, RunStep::AppendRecords)
            }
        },
    }
}

fn push_steps(out: &mut Vec<RunStep>, steps: &[RunStep])
    ensures
        final(out)@ == old(out)@ + steps@,
{
    let mut i: usize = 0;
    while i < steps.len()
        invariant
            0 <= i <= steps@.len(),
            out@ == old(out)@ + steps@.take(i as int),
        decreases steps@.len() - i,
    {
        out.push(steps[i]);
        i = i + 1;
        assert(out@ =~= old(out)@ + steps@.take(i as int));
    }
    assert(steps@.take(i as int) =~= steps@);
}

/// The steps of a command, in order.
pub fn run_steps(kind: RunKind, include_metadata: bool) -> (res: Vec<RunStep>)
    ensures
        res@ == run_steps_of(kind, include_metadata),
        records_appended_as_asked(kind, res@),
{
    proof {
        lemma_records_as_asked(kind, include_metadata);
    }
    let mut out: Vec<RunStep> = Vec::new();
    let (is_pack, dry_run, no_upload, no_record) = match kind {
        RunKind::Pack => (true, false, false, false),
        RunKind::Upload { dry_run, no_upload, no_record } => (false, dry_run, no_upload, no_record),
    };
    if dry_run {
        out.push(RunStep::PrintPlan);
        assert(out@ =~= run_steps_of(kind, include_metadata));
        return out;
    }
    push_steps(
        &mut out,
        &[RunStep::EnsureOutputDir, RunStep::WriteManifestSnapshot, RunStep::WriteGitSnapshot],
    );
    if include_metadata {
        let state = if is_pack {
            UploadState::NotUploaded
        } else {
            UploadState::Pending
        };
        out.push(RunStep::WriteMetadata(MetadataStage::Initial, state));
    }
    push_steps(&mut out, &[RunStep::CreateArchive, RunStep::WriteChecksum]);
    if is_pack || no_upload {
        push_steps(
            &mut out,
            &[RunStep::WriteMetadata(MetadataStage::Final, UploadState::NotUploaded), RunStep::Report],
        );
    } else {
        push_steps(
            &mut out,
            &[
                RunStep::WriteMetadata(MetadataStage::Final, UploadState::Pending),
                RunStep::UploadArchive,
                RunStep::UploadMetadata,
                RunStep::UploadChecksum,
                RunStep::WriteMetadata(MetadataStage::Final, UploadState::Success),
                RunStep::Report,
            ],
        );
        if !no_record {
            out.push(RunStep::AppendRecords);
        }
    }
    assert(out@ =~= run_steps_of(kind, include_metadata));
    out
}

/// The error that a failed step ends its command with: copy failures name
/// what was being copied; other errors pass unchanged.
pub open spec fn step_error_of(step: RunStep, err: Seq<char>) -> Seq<char> {
    match step {
        RunStep::UploadArchive => "upload archive failed: "@ + err,
        RunStep::UploadMetadata => "upload metadata failed: "@ + err,
        RunStep::UploadChecksum => "upload sha256 failed: "@ + err,
        _ => err,
    }
}

/// The error that a failed step ends its command with.
pub fn step_error(step: RunStep, err: &str) -> (res: String)
    ensures
        res@ == step_error_of(step, err@),
{
    match step {
        RunStep::UploadArchive => crate::text::concat2("upload archive failed: ", err),
        RunStep::UploadMetadata => crate::text::concat2("upload metadata failed: ", err),
        RunStep::UploadChecksum => crate::text::concat2("upload sha256 failed: ", err),
        _ => err.to_owned(),
    }
}


/// Whether a step reaches outside the machine or the local records: a copy
/// to object storage or appending the upload records.
pub open spec fn is_remote_step(s: RunStep) -> bool {
    s == RunStep::UploadArchive || s == RunStep::UploadMetadata || s == RunStep::UploadChecksum
        || s == RunStep::AppendRecords
}

/// Law: `--dry-run` and `--no-upload` avoid external side effects. A dry
/// run only prints its plan; neither copies anything nor appends records,
/// and neither does `pack`.
pub proof fn lemma_no_remote_steps(kind: RunKind, include_metadata: bool)
    requires
        kind matches RunKind::Upload { dry_run, no_upload, .. } ==> dry_run || no_upload,
    ensures
        forall|i: int|
            0 <= i < run_steps_of(kind, include_metadata).len() ==> !is_remote_step(
                #[trigger] run_steps_of(kind, include_metadata)[i],
            ),
        kind matches RunKind::Upload { dry_run, .. } && dry_run ==> run_steps_of(
            kind,
            include_metadata,
        ) == seq![RunStep::PrintPlan],
{
}

/// The order that the steps come in: the archive is copied right after the
/// checksum is written and the final metadata after it; the metadata copy
/// comes right after the archive copy, the checksum copy right after that,
/// the `success` metadata right after the checksum copy, and the records
/// last.
#[verifier::opaque]
pub open spec fn ordered_for_upload(s: Seq<RunStep>) -> bool {
    forall|i: int|
        0 <= i < s.len() ==> match #[trigger] s[i] {
            RunStep::UploadArchive => i >= 3 && s[i - 3] == RunStep::CreateArchive && s[i - 2]
                == RunStep::WriteChecksum && s[i - 1] == RunStep::WriteMetadata(
                MetadataStage::Final,
                UploadState::Pending,
            ),
            RunStep::UploadMetadata => i >= 1 && s[i - 1] == RunStep::UploadArchive,
            RunStep::UploadChecksum => i >= 1 && s[i - 1] == RunStep::UploadMetadata,
            RunStep::WriteMetadata(MetadataStage::Final, UploadState::Success) => i >= 1 && s[i
                - 1] == RunStep::UploadChecksum,
            RunStep::AppendRecords => i == s.len() - 1,
            _ => true,
        }
}

proof fn lemma_full_upload_ordered(include_metadata: bool, no_record: bool)
    ensures
        ordered_for_upload(
            run_steps_of(
                RunKind::Upload { dry_run: false, no_upload: false, no_record },
                include_metadata,
            ),
        ),
{
    reveal(ordered_for_upload);
    let s = run_steps_of(
        RunKind::Upload { dry_run: false, no_upload: false, no_record },
        include_metadata,
    );
    let m: int = if include_metadata {
        1
    } else {
        0
    };
    let r: int = if no_record {
        0
    } else {
        1
    };
    assert(s.len() == 11 + m + r);
    assert(s[3 + m] == RunStep::CreateArchive);
    assert(s[4 + m] == RunStep::WriteChecksum);
    assert(s[5 + m] == RunStep::WriteMetadata(MetadataStage::Final, UploadState::Pending));
    assert(s[6 + m] == RunStep::UploadArchive);
    assert(s[7 + m] == RunStep::UploadMetadata);
    assert(s[8 + m] == RunStep::UploadChecksum);
    assert(s[9 + m] == RunStep::WriteMetadata(MetadataStage::Final, UploadState::Success));
    assert(s[10 + m] == RunStep::Report);
    assert(forall|i: int| 0 <= i < 3 + m ==> !is_remote_step(#[trigger] s[i]) && s[i] != RunStep::WriteMetadata(MetadataStage::Final, UploadState::Success));
}

/// Law: in a real upload the metadata that is copied is the final one: the
/// archive is packed and checksummed, then the final-stage metadata (the
/// archive's name, size and digest, see `metadata_archive_fields`) is
/// written, then the archive is copied, and then the metadata, which is
/// copied once only.
pub proof fn lemma_uploaded_metadata_is_final(include_metadata: bool, no_record: bool)
    ensures
        ({
            let s = run_steps_of(
                RunKind::Upload { dry_run: false, no_upload: false, no_record },
                include_metadata,
            );
            let m: int = if include_metadata {
                1
            } else {
                0
            };
            &&& s[3 + m] == RunStep::CreateArchive
            &&& s[4 + m] == RunStep::WriteChecksum
            &&& s[5 + m] == RunStep::WriteMetadata(MetadataStage::Final, UploadState::Pending)
            &&& s[6 + m] == RunStep::UploadArchive
            &&& s[7 + m] == RunStep::UploadMetadata
            &&& forall|k: int|
                0 <= k < s.len() && k != 7 + m ==> #[trigger] s[k] != RunStep::UploadMetadata
        }),
{
}

proof fn lemma_local_ordered(kind: RunKind, include_metadata: bool)
    requires
        kind matches RunKind::Upload { dry_run, no_upload, .. } ==> dry_run || no_upload,
    ensures
        ordered_for_upload(run_steps_of(kind, include_metadata)),
{
    reveal(ordered_for_upload);
    let s = run_steps_of(kind, include_metadata);
    lemma_no_remote_steps(kind, include_metadata);
    assert(forall|i: int| 0 <= i < s.len() ==> #[trigger] s[i] != RunStep::WriteMetadata(MetadataStage::Final, UploadState::Success));
}

/// Law: nothing is copied before the archive is packed and checksummed and
/// its final metadata written; the copies come in the order archive,
/// metadata, checksum; the metadata says `success` only right after the
/// last copy; and records are appended last.
pub proof fn lemma_upload_order(kind: RunKind, include_metadata: bool)
    ensures
        ordered_for_upload(run_steps_of(kind, include_metadata)),
{
    match kind {
        RunKind::Upload { dry_run, no_upload, no_record } => {
            if !dry_run && !no_upload {
                lemma_full_upload_ordered(include_metadata, no_record);
            } else {
                lemma_local_ordered(kind, include_metadata);
            }
        },
        RunKind::Pack => {
            lemma_local_ordered(kind, include_metadata);
        },
    }
}

/// Law: `pack` and `upload --no-upload` always leave the archive, its
/// checksum and the final metadata (status `not_uploaded`) on disk, in that
/// order, whether or not the manifest includes metadata in the archive.
pub proof fn lemma_local_files_written(kind: RunKind, include_metadata: bool)
    requires
        kind matches RunKind::Upload { dry_run, no_upload, .. } ==> !dry_run && no_upload,
    ensures
        ({
            let s = run_steps_of(kind, include_metadata);
            let m: int = if include_metadata {
                1
            } else {
                0
            };
            &&& s.len() == 7 + m
            &&& s[3 + m] == RunStep::CreateArchive
            &&& s[4 + m] == RunStep::WriteChecksum
            &&& s[5 + m] == RunStep::WriteMetadata(MetadataStage::Final, UploadState::NotUploaded)
            &&& s[6 + m] == RunStep::Report
        }),
{
}

/// Whether `steps` append the records as a command asks: a real upload
/// without `--no-record` appends them once, as its last step; any other
/// command (`pack`, a dry run, `--no-upload`, `--no-record`) never does.
pub open spec fn records_appended_as_asked(kind: RunKind, steps: Seq<RunStep>) -> bool {
    if kind matches RunKind::Upload { dry_run, no_upload, no_record } && !dry_run && !no_upload
        && !no_record {
        &&& steps.len() > 0
        &&& steps.last() == RunStep::AppendRecords
        &&& forall|i: int| 0 <= i < steps.len() - 1 ==> #[trigger] steps[i] != RunStep::AppendRecords
    } else {
        forall|i: int| 0 <= i < steps.len() ==> #[trigger] steps[i] != RunStep::AppendRecords
    }
}

/// Law: records are appended exactly when a real upload is not told
/// `--no-record`, once and last.
pub proof fn lemma_records_as_asked(kind: RunKind, include_metadata: bool)
    ensures
        records_appended_as_asked(kind, run_steps_of(kind, include_metadata)),
{
    match kind {
        RunKind::Upload { dry_run, no_upload, no_record } => {
            if dry_run || no_upload {
                lemma_no_remote_steps(kind, include_metadata);
            } else {
                lemma_full_upload_without_records(include_metadata);
                let t = run_steps_of(
                    RunKind::Upload { dry_run: false, no_upload: false, no_record: true },
                    include_metadata,
                );
                let s = run_steps_of(kind, include_metadata);
                if !no_record {
                    assert(s =~= t.push(RunStep::AppendRecords));
                    assert forall|i: int| 0 <= i < s.len() - 1 implies #[trigger] s[i] != RunStep::AppendRecords by {
                        assert(s[i] == t[i]);
                    }
                } else {
                    assert(s == t);
                }
            }
        },
        RunKind::Pack => {
            lemma_no_remote_steps(kind, include_metadata);
        },
    }
}

proof fn lemma_full_upload_without_records(include_metadata: bool)
    ensures
        ({
            let t = run_steps_of(
                RunKind::Upload { dry_run: false, no_upload: false, no_record: true },
                include_metadata,
            );
            forall|i: int| 0 <= i < t.len() ==> #[trigger] t[i] != RunStep::AppendRecords
        }),
{
    let t = run_steps_of(
        RunKind::Upload { dry_run: false, no_upload: false, no_record: true },
        include_metadata,
    );
    let m: int = if include_metadata {
        1
    } else {
        0
    };
    assert(t.len() == 11 + m);
    assert forall|i: int| 0 <= i < t.len() implies #[trigger] t[i] != RunStep::AppendRecords by {
        if i < 3 {
        } else if i < 3 + m {
        } else {
            assert(t[i] == seq![
                RunStep::CreateArchive,
                RunStep::WriteChecksum,
                RunStep::WriteMetadata(MetadataStage::Final, UploadState::Pending),
                RunStep::UploadArchive,
                RunStep::UploadMetadata,
                RunStep::UploadChecksum,
                RunStep::WriteMetadata(MetadataStage::Final, UploadState::Success),
                RunStep::Report,
            ][i - 3 - m]);
        }
    }
}

} // verus!
