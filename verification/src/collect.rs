//! Deciding, artifact by artifact, what a manifest's artifacts contribute to
//! the archive. What the file system holds is read by the caller and handed
//! in as probes; every decision about it is made here.

use vstd::prelude::*;

use crate::manifest::{ArtifactConfig, Manifest};
use crate::paths::{
    artifact_name_check, is_valid_artifact_name, components, components_prefix, is_absolute, is_prefix, join, join_chars,
    path_components, path_starts_with, within_root, should_skip_default_excluded, skip_default_excluded, texts,
    validate_artifact_name,
};
use crate::sorting::{lemma_sort_by_path, sort_by_path, sort_candidates};
use crate::text::{chars_of, concat2, message_with, str_eq, string_of};

verus! {

/// Whether an artifact ended up in the archive.
#[derive(Debug, Clone, Copy, PartialEq, Eq, Structural)]
pub enum ArtifactStatus {
    Included,
    Missing,
}

/// An artifact of the manifest after collection.
#[derive(Debug, Clone)]
pub struct CollectedArtifact {
    pub name: String,
    pub artifact_type: String,
    pub source_path: String,
    pub required: bool,
    pub status: ArtifactStatus,
    pub matched_paths: Vec<String>,
}

/// What a collected artifact holds, as texts.
pub struct CollectedView {
    pub name: Seq<char>,
    pub artifact_type: Seq<char>,
    pub source_path: Seq<char>,
    pub required: bool,
    pub status: ArtifactStatus,
    pub matched_paths: Seq<Seq<char>>,
}

/// The texts of a vector of strings.
pub open spec fn strs(v: Seq<String>) -> Seq<Seq<char>> {
    v.map_values(|s: String| s@)
}

impl View for CollectedArtifact {
    type V = CollectedView;

    open spec fn view(&self) -> CollectedView {
        CollectedView {
            name: self.name@,
            artifact_type: self.artifact_type@,
            source_path: self.source_path@,
            required: self.required,
            status: self.status,
            matched_paths: strs(self.matched_paths@),
        }
    }
}

/// The views of a vector of collected artifacts.
pub open spec fn collected_views(v: Seq<CollectedArtifact>) -> Seq<CollectedView> {
    v.map_values(|c: CollectedArtifact| c@)
}

impl CollectedArtifact {
    /// The number of paths that the artifact matched.
    pub fn matched_count(&self) -> (res: usize)
        ensures
            res == self.matched_paths@.len(),
    {
        self.matched_paths.len()
    }
}

/// What the file system says of one path.
#[derive(Debug, Clone, Copy)]
pub struct PathProbe {
    pub exists: bool,
    pub is_file: bool,
    pub is_dir: bool,
}

/// A path that a glob pattern yielded, and whether it exists.
#[derive(Debug, Clone)]
pub struct GlobCandidate {
    pub path: String,
    pub exists: bool,
}

/// What the file system says of one artifact: its source path, and the
/// paths that its glob pattern yields (or the pattern's error).
#[derive(Debug)]
pub struct ArtifactProbe {
    pub source: PathProbe,
    pub glob: Result<Vec<GlobCandidate>, String>,
}

/// The outcome of collecting one artifact of a given type: an error, or its
/// status, its matched paths and the warnings that it adds.
pub enum KindOutcome {
    Fail(Seq<char>),
    Done(ArtifactStatus, Seq<Seq<char>>, Seq<Seq<char>>),
}

/// Collecting a `file` artifact.
pub open spec fn file_outcome(
    path_text: Seq<char>,
    source: Seq<char>,
    required: bool,
    probe: PathProbe,
) -> KindOutcome {
    if !probe.exists {
        if required {
            KindOutcome::Fail("required file artifact missing: "@ + path_text)
        } else {
            KindOutcome::Done(
                ArtifactStatus::Missing,
                seq![],
                seq!["optional file artifact missing: "@ + path_text],
            )
        }
    } else if !probe.is_file {
        KindOutcome::Fail("file artifact must point to a regular file: "@ + path_text)
    } else {
        KindOutcome::Done(ArtifactStatus::Included, seq![source], seq![])
    }
}

/// Collecting a `directory` artifact.
pub open spec fn directory_outcome(
    path_text: Seq<char>,
    source: Seq<char>,
    required: bool,
    probe: PathProbe,
) -> KindOutcome {
    if !probe.exists {
        if required {
            KindOutcome::Fail("required directory artifact missing: "@ + path_text)
        } else {
            KindOutcome::Done(
                ArtifactStatus::Missing,
                seq![],
                seq!["optional directory artifact missing: "@ + path_text],
            )
        }
    } else if !probe.is_dir {
        KindOutcome::Fail("directory artifact must point to a directory: "@ + path_text)
    } else {
        KindOutcome::Done(ArtifactStatus::Included, seq![source], seq![])
    }
}

/// Error text for an artifact path outside the project root.
pub open spec fn outside_message(path_text: Seq<char>) -> Seq<char> {
    "artifact path '"@ + path_text + "' is outside current working directory"@
}

/// A path that a glob yielded, made absolute against the project root.
pub open spec fn absolute_candidate(root: Seq<char>, candidate: Seq<char>) -> Seq<char> {
    if is_absolute(candidate) {
        candidate
    } else {
        join(root, candidate)
    }
}

/// Whether some text in `out` has the same components as `p`.
pub open spec fn has_same_path(out: Seq<Seq<char>>, p: Seq<char>) -> bool {
    exists|k: int| 0 <= k < out.len() && components(#[trigger] out[k]) == components(p)
}

/// The first `n` glob candidates filtered: missing ones dropped, made
/// absolute, refused when outside the root (unless allowed), dropped when in
/// a default-excluded directory or equal as paths to one already kept.
pub open spec fn glob_select(
    cands: Seq<GlobCandidate>,
    n: nat,
    path_text: Seq<char>,
    root: Seq<char>,
    allow_outside: bool,
) -> Result<Seq<Seq<char>>, Seq<char>>
    decreases n,
{
    if n == 0 || n > cands.len() {
        Ok(seq![])
    } else {
        match glob_select(cands, (n - 1) as nat, path_text, root, allow_outside) {
            Err(e) => Err(e),
            Ok(out) => {
                let c = cands[n - 1];
                if !c.exists {
                    Ok(out)
                } else {
                    let abs = absolute_candidate(root, c.path@);
                    if !allow_outside && !within_root(abs, root) {
                        Err(outside_message(path_text))
                    } else if skip_default_excluded(path_text, abs, root) {
                        Ok(out)
                    } else if has_same_path(out, abs) {
                        Ok(out)
                    } else {
                        Ok(out.push(abs))
                    }
                }
            },
        }
    }
}

/// Collecting a `glob` artifact.
pub open spec fn glob_outcome(
    path_text: Seq<char>,
    root: Seq<char>,
    required: bool,
    allow_outside: bool,
    probe: ArtifactProbe,
) -> KindOutcome {
    match probe.glob {
        Err(e) => KindOutcome::Fail("invalid glob pattern '"@ + path_text + "': "@ + e@),
        Ok(cands) => if cands@.len() == 0 {
            if required {
                KindOutcome::Fail("required glob artifact has no matches: "@ + path_text)
            } else {
                KindOutcome::Done(
                    ArtifactStatus::Missing,
                    seq![],
                    seq!["optional glob artifact has no matches: "@ + path_text],
                )
            }
        } else {
            match glob_select(
                sort_by_path(cands@),
                cands@.len(),
                path_text,
                root,
                allow_outside,
            ) {
                Err(e) => KindOutcome::Fail(e),
                Ok(out) => if out.len() == 0 {
                    if required {
                        KindOutcome::Fail("required glob artifact has no matches: "@ + path_text)
                    } else {
                        KindOutcome::Done(
                            ArtifactStatus::Missing,
                            seq![],
                            seq![
                                "optional glob artifact has no matches after filtering: "@
                                    + path_text,
                            ],
                        )
                    }
                } else {
                    KindOutcome::Done(ArtifactStatus::Included, out, seq![])
                },
            }
        },
    }
}

/// The source path of an artifact: its path text when absolute, else joined
/// to the project root.
pub open spec fn artifact_source_of(root: Seq<char>, path_text: Seq<char>) -> Seq<char> {
    if is_absolute(path_text) {
        path_text
    } else {
        join(root, path_text)
    }
}

/// The source path of an artifact whose path text is `path_text`.
pub fn artifact_source(project_root: &str, path_text: &str) -> (res: String)
    ensures
        res@ == artifact_source_of(project_root@, path_text@),
{
    let p = chars_of(path_text);
    if p.len() > 0 && p[0] == '/' {
        string_of(&p)
    } else {
        let r = chars_of(project_root);
        let j = join_chars(&r, &p);
        string_of(&j)
    }
}

/// The pattern handed to the glob walker for an artifact with this source.
pub open spec fn glob_pattern_of(root: Seq<char>, source: Seq<char>) -> Seq<char> {
    if is_absolute(source) {
        source
    } else {
        join(root, source)
    }
}

/// The pattern handed to the glob walker for an artifact with this source.
pub fn glob_pattern(project_root: &str, source: &str) -> (res: String)
    ensures
        res@ == glob_pattern_of(project_root@, source@),
{
    let s = chars_of(source);
    if s.len() > 0 && s[0] == '/' {
        string_of(&s)
    } else {
        let r = chars_of(project_root);
        let j = join_chars(&r, &s);
        string_of(&j)
    }
}

/// The outcome of collecting one artifact.
pub enum ArtifactOutcome {
    Fail(Seq<char>),
    Skip(Seq<char>),
    Keep(CollectedView, Seq<Seq<char>>),
}

/// Collecting one artifact of the manifest, given what its probe says.
pub open spec fn artifact_outcome(
    a: ArtifactConfig,
    probe: ArtifactProbe,
    root: Seq<char>,
    allow_outside: bool,
) -> ArtifactOutcome {
    match artifact_name_check(a.name@) {
        Err(e) => ArtifactOutcome::Fail(e),
        Ok(()) => {
            let source = artifact_source_of(root, a.path@);
            let is_glob = a.artifact_type@ == "glob"@;
            if !is_glob && !allow_outside && !within_root(source, root) {
                ArtifactOutcome::Fail(outside_message(a.path@))
            } else if !is_glob && skip_default_excluded(a.path@, source, root) {
                ArtifactOutcome::Skip(
                    "artifact '"@ + a.path@
                        + "' is in default-excluded path and will not be packaged"@,
                )
            } else {
                let kind = if a.artifact_type@ == "file"@ {
                    Some(file_outcome(a.path@, source, a.required, probe.source))
                } else if a.artifact_type@ == "directory"@ {
                    Some(directory_outcome(a.path@, source, a.required, probe.source))
                } else if is_glob {
                    Some(glob_outcome(a.path@, root, a.required, allow_outside, probe))
                } else {
                    None
                };
                match kind {
                    None => ArtifactOutcome::Fail(
                        "unsupported artifact type '"@ + a.artifact_type@ + "'"@,
                    ),
                    Some(KindOutcome::Fail(e)) => ArtifactOutcome::Fail(e),
                    Some(KindOutcome::Done(status, matched, warnings)) => ArtifactOutcome::Keep(
                        CollectedView {
                            name: a.name@,
                            artifact_type: a.artifact_type@,
                            source_path: a.path@,
                            required: a.required,
                            status,
                            matched_paths: matched,
                        },
                        warnings,
                    ),
                }
            }
        },
    }
}

/// Collecting the first `n` artifacts: the collected ones and the warnings,
/// or the first error.
pub open spec fn collect_upto(
    arts: Seq<ArtifactConfig>,
    probes: Seq<ArtifactProbe>,
    root: Seq<char>,
    allow_outside: bool,
    n: nat,
) -> Result<(Seq<CollectedView>, Seq<Seq<char>>), Seq<char>>
    decreases n,
{
    if n == 0 || n > arts.len() {
        Ok((seq![], seq![]))
    } else {
        match collect_upto(arts, probes, root, allow_outside, (n - 1) as nat) {
            Err(e) => Err(e),
            Ok((items, warnings)) => match artifact_outcome(
                arts[n - 1],
                probes[n - 1],
                root,
                allow_outside,
            ) {
                ArtifactOutcome::Fail(e) => Err(e),
                ArtifactOutcome::Skip(w) => Ok((items, warnings.push(w))),
                ArtifactOutcome::Keep(item, more) => Ok((items.push(item), warnings + more)),
            },
        }
    }
}


/// Whether a result and the warnings before and after a call agree with the
/// outcome of collecting one artifact of a given type.
pub open spec fn kind_result_agrees(
    res: Result<(ArtifactStatus, Vec<String>), String>,
    before: Seq<String>,
    after: Seq<String>,
    outcome: KindOutcome,
) -> bool {
    match outcome {
        KindOutcome::Fail(e) => res matches Err(m) && m@ == e && strs(after) == strs(before),
        KindOutcome::Done(status, matched, warnings) => res matches Ok((s, m)) && s == status
            && strs(m@) == matched && strs(after) == strs(before) + warnings,
    }
}

proof fn lemma_strs_push(v: Seq<String>, s: String)
    ensures
        strs(v.push(s)) == strs(v).push(s@),
{
    assert(strs(v.push(s)) =~= strs(v).push(s@));
}

fn no_paths() -> (res: Vec<String>)
    ensures
        res@.len() == 0,
        strs(res@) == Seq::<Seq<char>>::empty(),
{
    let v: Vec<String> = Vec::new();
    assert(strs(v@) =~= Seq::<Seq<char>>::empty());
    v
}

proof fn lemma_glob_select_err_stays(
    cands: Seq<GlobCandidate>,
    k: nat,
    n: nat,
    path_text: Seq<char>,
    root: Seq<char>,
    allow_outside: bool,
)
    requires
        0 < k <= n <= cands.len(),
        glob_select(cands, k, path_text, root, allow_outside) is Err,
    ensures
        glob_select(cands, n, path_text, root, allow_outside) == glob_select(
            cands,
            k,
            path_text,
            root,
            allow_outside,
        ),
    decreases n - k,
{
    if n > k {
        lemma_glob_select_err_stays(cands, k, (n - 1) as nat, path_text, root, allow_outside);
    }
}

fn single(s: String) -> (res: Vec<String>)
    ensures
        strs(res@) == seq![s@],
{
    let mut v: Vec<String> = Vec::new();
    v.push(s);
    assert(strs(v@) =~= seq![v@[0]@]);
    v
}

/// Collects a `file` artifact whose source path is `source`.
pub fn collect_file(
    path_text: &str,
    source: &str,
    required: bool,
    probe: &PathProbe,
    warnings: &mut Vec<String>,
) -> (res: Result<(ArtifactStatus, Vec<String>), String>)
    ensures
        kind_result_agrees(
            res,
            old(warnings)@,
            final(warnings)@,
            file_outcome(path_text@, source@, required, *probe),
        ),
{
    if !probe.exists {
        if required {
            return Err(concat2("required file artifact missing: ", path_text));
        }
        let w = concat2("optional file artifact missing: ", path_text);
        proof {
            lemma_strs_push(warnings@, w);
        }
        warnings.push(w);
        assert(strs(warnings@) =~= strs(old(warnings)@) + seq![w@]);
        return Ok((ArtifactStatus::Missing, no_paths()));
    }
    if !probe.is_file {
        return Err(concat2("file artifact must point to a regular file: ", path_text));
    }
    Ok((ArtifactStatus::Included, single(source.to_owned())))
}

/// Collects a `directory` artifact whose source path is `source`.
pub fn collect_directory(
    path_text: &str,
    source: &str,
    required: bool,
    probe: &PathProbe,
    warnings: &mut Vec<String>,
) -> (res: Result<(ArtifactStatus, Vec<String>), String>)
    ensures
        kind_result_agrees(
            res,
            old(warnings)@,
            final(warnings)@,
            directory_outcome(path_text@, source@, required, *probe),
        ),
{
    if !probe.exists {
        if required {
            return Err(concat2("required directory artifact missing: ", path_text));
        }
        let w = concat2("optional directory artifact missing: ", path_text);
        proof {
            lemma_strs_push(warnings@, w);
        }
        warnings.push(w);
        assert(strs(warnings@) =~= strs(old(warnings)@) + seq![w@]);
        return Ok((ArtifactStatus::Missing, no_paths()));
    }
    if !probe.is_dir {
        return Err(concat2("directory artifact must point to a directory: ", path_text));
    }
    Ok((ArtifactStatus::Included, single(source.to_owned())))
}

/// Whether two component lists are equal.
fn components_equal(a: &Vec<Vec<char>>, b: &Vec<Vec<char>>) -> (res: bool)
    ensures
        res == (texts(a@) == texts(b@)),
{
    if a.len() != b.len() {
        assert(texts(a@).len() != texts(b@).len());
        return false;
    }
    let r = components_prefix(a, b);
    assert(texts(b@).subrange(0, texts(a@).len() as int) =~= texts(b@));
    r
}

/// Whether some kept path has the components `comps`.
fn seen_path(kept: &Vec<Vec<Vec<char>>>, comps: &Vec<Vec<char>>, out: Ghost<Seq<Seq<char>>>, p: Ghost<Seq<char>>) -> (res: bool)
    requires
        kept@.len() == out@.len(),
        forall|k: int| 0 <= k < kept@.len() ==> texts(#[trigger] kept@[k]@) == components(out@[k]),
        texts(comps@) == components(p@),
    ensures
        res == has_same_path(out@, p@),
{
    let mut k: usize = 0;
    while k < kept.len()
        invariant
            0 <= k <= kept.len(),
            kept@.len() == out@.len(),
            forall|j: int| 0 <= j < kept@.len() ==> texts(#[trigger] kept@[j]@) == components(out@[j]),
            texts(comps@) == components(p@),
            forall|j: int| 0 <= j < k ==> components(#[trigger] out@[j]) != components(p@),
        decreases kept.len() - k,
    {
        if components_equal(&kept[k], comps) {
            assert(components(out@[k as int]) == components(p@));
            return true;
        }
        assert(texts(kept@[k as int]@) == components(out@[k as int]));
        k = k + 1;
    }
    false
}

/// Law: with outside paths allowed, filtering glob candidates never fails,
/// and every existing candidate that is not in a default-excluded directory
/// is kept, or a candidate with the same path was kept before it.
pub proof fn lemma_glob_select_allowed(
    cands: Seq<GlobCandidate>,
    n: nat,
    path_text: Seq<char>,
    root: Seq<char>,
)
    requires
        n <= cands.len(),
    ensures
        glob_select(cands, n, path_text, root, true) matches Ok(out) && forall|k: int|
            0 <= k < n && (#[trigger] cands[k]).exists && !skip_default_excluded(
                path_text,
                absolute_candidate(root, cands[k].path@),
                root,
            ) ==> has_same_path(out, absolute_candidate(root, cands[k].path@)),
    decreases n,
{
    if n > 0 {
        lemma_glob_select_allowed(cands, (n - 1) as nat, path_text, root);
        let out = glob_select(cands, (n - 1) as nat, path_text, root, true)->Ok_0;
        let out2 = glob_select(cands, n, path_text, root, true)->Ok_0;
        let c = cands[n - 1];
        let abs = absolute_candidate(root, c.path@);
        assert forall|k: int|
            0 <= k < n && (#[trigger] cands[k]).exists && !skip_default_excluded(
                path_text,
                absolute_candidate(root, cands[k].path@),
                root,
            ) implies has_same_path(out2, absolute_candidate(root, cands[k].path@)) by {
            let a = absolute_candidate(root, cands[k].path@);
            if k < n - 1 {
                let w = choose|w: int| 0 <= w < out.len() && components(#[trigger] out[w]) == components(a);
                if out2 != out {
                    assert(out2 == out.push(abs));
                    assert(out2[w] == out[w]);
                }
                assert(0 <= w < out2.len() && components(out2[w]) == components(a));
            } else if !has_same_path(out, abs) {
                assert(out2 == out.push(abs));
                assert(out2[out.len() as int] == abs);
            } else {
                assert(out2 == out);
            }
        }
    }
}

/// Filters the candidates of a glob artifact. The paths kept so far are held
/// as their component lists, no two equal (see `sound_item`).
fn select_glob_candidates(
    cands: &Vec<GlobCandidate>,
    path_text: &str,
    project_root: &str,
    allow_outside_project: bool,
) -> (res: Result<Vec<String>, String>)
    ensures
        match (res, glob_select(cands@, cands@.len(), path_text@, project_root@, allow_outside_project)) {
            (Ok(v), Ok(s)) => strs(v@) == s,
            (Err(e), Err(m)) => e@ == m,
            _ => false,
        },
        allow_outside_project ==> res is Ok,
{
    proof {
        if allow_outside_project {
            lemma_glob_select_allowed(cands@, cands@.len(), path_text@, project_root@);
        }
    }
    let mut out: Vec<String> = no_paths();
    let mut kept: Vec<Vec<Vec<char>>> = Vec::new();
    let mut i: usize = 0;
    while i < cands.len()
        invariant
            0 <= i <= cands.len(),
            glob_select(cands@, i as nat, path_text@, project_root@, allow_outside_project)
                == Ok::<Seq<Seq<char>>, Seq<char>>(strs(out@)),
            kept@.len() == out@.len(),
            forall|k: int| 0 <= k < kept@.len() ==> texts(#[trigger] kept@[k]@) == components(strs(out@)[k]),
        decreases cands.len() - i,
    {
        let c = &cands[i];
        if c.exists {
            let abs = artifact_source(project_root, c.path.as_str());
            if !allow_outside_project && !crate::paths::is_within_root(abs.as_str(), project_root) {
                proof {
                    lemma_glob_select_err_stays(
                        cands@,
                        (i + 1) as nat,
                        cands@.len(),
                        path_text@,
                        project_root@,
                        allow_outside_project,
                    );
                }
                return Err(
                    message_with(
                        "artifact path '",
                        path_text,
                        "' is outside current working directory",
                    ),
                );
            }
            if !should_skip_default_excluded(path_text, abs.as_str(), project_root) {
                let ac = chars_of(abs.as_str());
                let comps = path_components(&ac);
                if !seen_path(&kept, &comps, Ghost(strs(out@)), Ghost(abs@)) {
                    let ghost old_out = out@;
                    proof {
                        lemma_strs_push(out@, abs);
                    }
                    out.push(abs);
                    kept.push(comps);
                    assert forall|k: int| 0 <= k < kept@.len() implies texts(#[trigger] kept@[k]@)
                        == components(strs(out@)[k]) by {
                        if k < kept@.len() - 1 {
                            assert(strs(out@)[k] == strs(old_out)[k]);
                        }
                    }
                }
            }
        }
        i = i + 1;
    }
    Ok(out)
}

/// Collects a `glob` artifact from what its probe says.
pub fn collect_glob(
    path_text: &str,
    project_root: &str,
    required: bool,
    allow_outside_project: bool,
    probe: &ArtifactProbe,
    warnings: &mut Vec<String>,
) -> (res: Result<(ArtifactStatus, Vec<String>), String>)
    ensures
        kind_result_agrees(
            res,
            old(warnings)@,
            final(warnings)@,
            glob_outcome(path_text@, project_root@, required, allow_outside_project, *probe),
        ),
{
    let cands = match &probe.glob {
        Err(e) => {
            let mut m = message_with("invalid glob pattern '", path_text, "': ");
            let t = concat2(m.as_str(), e.as_str());
            return Err(t);
        },
        Ok(c) => c,
    };
    if cands.len() == 0 {
        if required {
            return Err(concat2("required glob artifact has no matches: ", path_text));
        }
        let w = concat2("optional glob artifact has no matches: ", path_text);
        proof {
            lemma_strs_push(warnings@, w);
        }
        warnings.push(w);
        assert(strs(warnings@) =~= strs(old(warnings)@) + seq![w@]);
        return Ok((ArtifactStatus::Missing, no_paths()));
    }
    let sorted = sort_candidates(cands);
    proof {
        lemma_sort_by_path(cands@);
    }
    let out = match select_glob_candidates(&sorted, path_text, project_root, allow_outside_project) {
        Err(e) => {
            return Err(e);
        },
        Ok(v) => v,
    };
    if out.len() == 0 {
        if required {
            return Err(concat2("required glob artifact has no matches: ", path_text));
        }
        let w = concat2("optional glob artifact has no matches after filtering: ", path_text);
        proof {
            lemma_strs_push(warnings@, w);
        }
        warnings.push(w);
        assert(strs(warnings@) =~= strs(old(warnings)@) + seq![w@]);
        return Ok((ArtifactStatus::Missing, no_paths()));
    }
    assert(strs(warnings@) =~= strs(old(warnings)@) + seq![]);
    Ok((ArtifactStatus::Included, out))
}


proof fn lemma_collect_err_stays(
    arts: Seq<ArtifactConfig>,
    probes: Seq<ArtifactProbe>,
    root: Seq<char>,
    allow_outside: bool,
    k: nat,
    n: nat,
)
    requires
        0 < k <= n <= arts.len(),
        collect_upto(arts, probes, root, allow_outside, k) is Err,
    ensures
        collect_upto(arts, probes, root, allow_outside, n) == collect_upto(
            arts,
            probes,
            root,
            allow_outside,
            k,
        ),
    decreases n - k,
{
    if n > k {
        lemma_collect_err_stays(arts, probes, root, allow_outside, k, (n - 1) as nat);
    }
}

proof fn lemma_views_push(v: Seq<CollectedArtifact>, c: CollectedArtifact)
    ensures
        collected_views(v.push(c)) == collected_views(v).push(c@),
{
    assert(collected_views(v.push(c)) =~= collected_views(v).push(c@));
}

/// The outcome of collecting all artifacts of a manifest.
pub open spec fn collect_result_agrees(
    res: Result<(Vec<CollectedArtifact>, Vec<String>), String>,
    spec: Result<(Seq<CollectedView>, Seq<Seq<char>>), Seq<char>>,
) -> bool {
    match (res, spec) {
        (Ok((items, warnings)), Ok((vs, ws))) => collected_views(items@) == vs && strs(warnings@)
            == ws,
        (Err(e), Err(m)) => e@ == m,
        _ => false,
    }
}

/// Collects every artifact of `manifest`, in order, given one probe per
/// artifact: the collected artifacts and the warnings, or the first error.
pub fn collect_artifacts(
    manifest: &Manifest,
    project_root: &str,
    allow_outside_project: bool,
    probes: &Vec<ArtifactProbe>,
) -> (res: Result<(Vec<CollectedArtifact>, Vec<String>), String>)
    requires
        probes@.len() == manifest.artifacts@.len(),
    ensures
        collect_result_agrees(
            res,
            collect_upto(
                manifest.artifacts@,
                probes@,
                project_root@,
                allow_outside_project,
                manifest.artifacts@.len(),
            ),
        ),
{
    let ghost arts = manifest.artifacts@;
    let mut collected: Vec<CollectedArtifact> = Vec::new();
    let mut warnings: Vec<String> = no_paths();
    assert(collected_views(collected@) =~= Seq::<CollectedView>::empty());
    let mut i: usize = 0;
    while i < manifest.artifacts.len()
        invariant
            0 <= i <= manifest.artifacts@.len(),
            arts == manifest.artifacts@,
            probes@.len() == arts.len(),
            collect_upto(arts, probes@, project_root@, allow_outside_project, i as nat) == Ok::<
                (Seq<CollectedView>, Seq<Seq<char>>),
                Seq<char>,
            >((collected_views(collected@), strs(warnings@))),
        decreases manifest.artifacts@.len() - i,
    {
        let a = &manifest.artifacts[i];
        let probe = &probes[i];
        let ghost before_items = collected@;
        let ghost before_warnings = warnings@;
        match validate_artifact_name(a.name.as_str()) {
            Err(e) => {
                proof {
                    lemma_collect_err_stays(
                        arts,
                        probes@,
                        project_root@,
                        allow_outside_project,
                        (i + 1) as nat,
                        arts.len(),
                    );
                }
                return Err(e);
            },
            Ok(()) => {},
        }
        let source = artifact_source(project_root, a.path.as_str());
        let tc = chars_of(a.artifact_type.as_str());
        let is_glob = str_eq("glob", &tc);
        let mut skipped = false;
        if !is_glob {
            if !allow_outside_project && !crate::paths::is_within_root(
                source.as_str(),
                project_root,
            ) {
                proof {
                    lemma_collect_err_stays(
                        arts,
                        probes@,
                        project_root@,
                        allow_outside_project,
                        (i + 1) as nat,
                        arts.len(),
                    );
                }
                return Err(
                    message_with(
                        "artifact path '",
                        a.path.as_str(),
                        "' is outside current working directory",
                    ),
                );
            }
            if should_skip_default_excluded(a.path.as_str(), source.as_str(), project_root) {
                let w = message_with(
                    "artifact '",
                    a.path.as_str(),
                    "' is in default-excluded path and will not be packaged",
                );
                proof {
                    lemma_strs_push(warnings@, w);
                }
                warnings.push(w);
                skipped = true;
            }
        }
        if !skipped {
            let outcome = if str_eq("file", &tc) {
                collect_file(a.path.as_str(), source.as_str(), a.required, &probe.source, &mut warnings)
            } else if str_eq("directory", &tc) {
                collect_directory(
                    a.path.as_str(),
                    source.as_str(),
                    a.required,
                    &probe.source,
                    &mut warnings,
                )
            } else if is_glob {
                collect_glob(
                    a.path.as_str(),
                    project_root,
                    a.required,
                    allow_outside_project,
                    probe,
                    &mut warnings,
                )
            } else {
                proof {
                    lemma_collect_err_stays(
                        arts,
                        probes@,
                        project_root@,
                        allow_outside_project,
                        (i + 1) as nat,
                        arts.len(),
                    );
                }
                let m = message_with("unsupported artifact type '", a.artifact_type.as_str(), "'");
                return Err(m);
            };
            match outcome {
                Err(e) => {
                    proof {
                        lemma_collect_err_stays(
                            arts,
                            probes@,
                            project_root@,
                            allow_outside_project,
                            (i + 1) as nat,
                            arts.len(),
                        );
                    }
                    return Err(e);
                },
                Ok((status, matches)) => {
                    let item = CollectedArtifact {
                        name: a.name.clone(),
                        artifact_type: a.artifact_type.clone(),
                        source_path: a.path.clone(),
                        required: a.required,
                        status,
                        matched_paths: matches,
                    };
                    proof {
                        lemma_views_push(collected@, item);
                    }
                    collected.push(item);
                },
            }
        }
        i = i + 1;
    }
    Ok((collected, warnings))
}


/// What every collected artifact satisfies: its name is a valid artifact
/// name; it is included exactly when it matched some path; without
/// `allow_outside` each matched path lies under the project root once `.`
/// and `..` are resolved; no matched path lies in a default-excluded directory
/// below the root unless the artifact's own path names that directory; and
/// no two matched paths are the same path.
pub open spec fn sound_item(c: CollectedView, root: Seq<char>, allow_outside: bool) -> bool {
    &&& is_valid_artifact_name(c.name)
    &&& (c.status == ArtifactStatus::Included <==> c.matched_paths.len() > 0)
    &&& forall|j: int|
        0 <= j < c.matched_paths.len() ==> (allow_outside || within_root(
            #[trigger] c.matched_paths[j],
            root,
        ))
    &&& forall|j: int|
        0 <= j < c.matched_paths.len() ==> !skip_default_excluded(
            c.source_path,
            #[trigger] c.matched_paths[j],
            root,
        )
    &&& forall|i: int, j: int|
        0 <= i < j < c.matched_paths.len() ==> components(#[trigger] c.matched_paths[i])
            != components(#[trigger] c.matched_paths[j])
}

proof fn lemma_glob_select_sound(
    cands: Seq<GlobCandidate>,
    n: nat,
    path_text: Seq<char>,
    root: Seq<char>,
    allow_outside: bool,
)
    ensures
        glob_select(cands, n, path_text, root, allow_outside) matches Ok(out) ==> {
            &&& forall|j: int|
                0 <= j < out.len() ==> (allow_outside || within_root(#[trigger] out[j], root))
            &&& forall|j: int|
                0 <= j < out.len() ==> !skip_default_excluded(path_text, #[trigger] out[j], root)
            &&& forall|i: int, j: int|
                0 <= i < j < out.len() ==> components(#[trigger] out[i]) != components(
                    #[trigger] out[j],
                )
        },
    decreases n,
{
    if n > 0 && n <= cands.len() {
        lemma_glob_select_sound(cands, (n - 1) as nat, path_text, root, allow_outside);
        match glob_select(cands, (n - 1) as nat, path_text, root, allow_outside) {
            Ok(out) => {
                let c = cands[n - 1];
                let abs = absolute_candidate(root, c.path@);
                if c.exists && (allow_outside || within_root(abs, root))
                    && !skip_default_excluded(path_text, abs, root) && !has_same_path(out, abs) {
                    let out2 = out.push(abs);
                    assert forall|i: int, j: int|
                        0 <= i < j < out2.len() implies components(#[trigger] out2[i])
                        != components(#[trigger] out2[j]) by {
                        if j == out.len() {
                            if components(out2[i]) == components(out2[j]) {
                                assert(components(out[i]) == components(abs));
                            }
                        }
                    }
                }
            },
            Err(_) => {},
        }
    }
}

proof fn lemma_type_names_distinct()
    ensures
        "file"@ != "glob"@,
        "directory"@ != "glob"@,
        "file"@ != "directory"@,
{
    reveal_strlit("file");
    reveal_strlit("glob");
    reveal_strlit("directory");
    assert("file"@[0] != "glob"@[0]);
    assert("directory"@.len() != "glob"@.len());
    assert("file"@.len() != "directory"@.len());
}

proof fn lemma_outcome_sound(
    a: ArtifactConfig,
    probe: ArtifactProbe,
    root: Seq<char>,
    allow_outside: bool,
)
    ensures
        artifact_outcome(a, probe, root, allow_outside) matches ArtifactOutcome::Keep(item, _)
            ==> sound_item(item, root, allow_outside),
{
    lemma_type_names_distinct();
    match probe.glob {
        Ok(cands) => {
            lemma_glob_select_sound(sort_by_path(cands@), cands@.len(), a.path@, root, allow_outside);
        },
        Err(_) => {},
    }
}

proof fn lemma_collect_upto_sound(
    arts: Seq<ArtifactConfig>,
    probes: Seq<ArtifactProbe>,
    root: Seq<char>,
    allow_outside: bool,
    n: nat,
)
    ensures
        collect_upto(arts, probes, root, allow_outside, n) matches Ok((items, _)) ==> forall|
            i: int,
        |
            0 <= i < items.len() ==> sound_item(#[trigger] items[i], root, allow_outside),
    decreases n,
{
    if n > 0 && n <= arts.len() {
        lemma_collect_upto_sound(arts, probes, root, allow_outside, (n - 1) as nat);
        lemma_outcome_sound(arts[n - 1], probes[n - 1], root, allow_outside);
    }
}

/// Law: every artifact that collection keeps is sound (see `sound_item`):
/// included exactly when it matched a path, its paths inside the project
/// root unless outside paths are allowed, none in a default-excluded
/// directory that the artifact's path does not name, and no path twice.
pub proof fn lemma_collected_artifacts_sound(
    arts: Seq<ArtifactConfig>,
    probes: Seq<ArtifactProbe>,
    root: Seq<char>,
    allow_outside: bool,
)
    ensures
        collect_upto(arts, probes, root, allow_outside, arts.len()) matches Ok((items, _))
            ==> forall|i: int|
            0 <= i < items.len() ==> sound_item(#[trigger] items[i], root, allow_outside),
{
    lemma_collect_upto_sound(arts, probes, root, allow_outside, arts.len());
}

/// Whether `item` was made from the manifest artifact `a`: same name, type,
/// path and requirement.
pub open spec fn made_from(item: CollectedView, a: ArtifactConfig) -> bool {
    &&& item.name == a.name@
    &&& item.artifact_type == a.artifact_type@
    &&& item.source_path == a.path@
    &&& item.required == a.required
}

/// The number of missing items in `items`.
pub open spec fn missing_count(items: Seq<CollectedView>) -> nat
    decreases items.len(),
{
    if items.len() == 0 {
        0
    } else {
        missing_count(items.drop_last()) + if items.last().status == ArtifactStatus::Missing {
            1nat
        } else {
            0nat
        }
    }
}

/// Whether a manifest artifact is left out as lying in a default-excluded
/// directory: a `file` or `directory` artifact whose source path is in one.
pub open spec fn excluded_artifact(a: ArtifactConfig, root: Seq<char>) -> bool {
    a.artifact_type@ != "glob"@ && skip_default_excluded(
        a.path@,
        artifact_source_of(root, a.path@),
        root,
    )
}

proof fn lemma_outcome_shape(a: ArtifactConfig, probe: ArtifactProbe, root: Seq<char>, allow_outside: bool)
    ensures
        artifact_outcome(a, probe, root, allow_outside) matches ArtifactOutcome::Keep(item, ws) ==> {
            &&& made_from(item, a)
            &&& item.status == ArtifactStatus::Missing ==> !a.required && ws.len() == 1
            &&& item.status == ArtifactStatus::Included ==> ws.len() == 0
            &&& !excluded_artifact(a, root)
        },
        artifact_outcome(a, probe, root, allow_outside) is Skip ==> excluded_artifact(a, root),
{
    lemma_type_names_distinct();
}

/// The collected items of the first `n` artifacts, as the manifest positions
/// that they come from: increasing positions below `n`, each item made from
/// the artifact at its position.
proof fn lemma_collect_upto_order(
    arts: Seq<ArtifactConfig>,
    probes: Seq<ArtifactProbe>,
    root: Seq<char>,
    allow_outside: bool,
    n: nat,
) -> (pos: Seq<int>)
    requires
        n <= arts.len(),
    ensures
        collect_upto(arts, probes, root, allow_outside, n) matches Ok((items, ws)) ==> {
            &&& pos.len() == items.len()
            &&& forall|k: int| 0 <= k < pos.len() ==> 0 <= #[trigger] pos[k] < n
            &&& forall|k: int, l: int| 0 <= k < l < pos.len() ==> #[trigger] pos[k] < #[trigger] pos[l]
            &&& forall|k: int| 0 <= k < items.len() ==> made_from(#[trigger] items[k], arts[pos[k]])
            &&& forall|k: int| 0 <= k < items.len() && (#[trigger] items[k]).required ==> items[k].status == ArtifactStatus::Included
            &&& ws.len() == missing_count(items) + (n - items.len())
            &&& forall|k: int| 0 <= k < pos.len() ==> !excluded_artifact(arts[#[trigger] pos[k]], root)
            &&& forall|k: int| 0 <= k < n && !excluded_artifact(#[trigger] arts[k], root) ==> exists|j: int| 0 <= j < pos.len() && pos[j] == k
        },
    decreases n,
{
    if n == 0 {
        seq![]
    } else {
        let prev = lemma_collect_upto_order(arts, probes, root, allow_outside, (n - 1) as nat);
        lemma_outcome_shape(arts[n - 1], probes[n - 1], root, allow_outside);
        match collect_upto(arts, probes, root, allow_outside, (n - 1) as nat) {
            Err(_) => prev,
            Ok((items, ws)) => match artifact_outcome(arts[n - 1], probes[n - 1], root, allow_outside) {
                ArtifactOutcome::Keep(item, more) => {
                    let p2 = prev.push(n - 1);
                    let items2 = items.push(item);
                    assert(items2.drop_last() =~= items);
                    assert forall|k: int| 0 <= k < items2.len() implies made_from(#[trigger] items2[k], arts[p2[k]]) by {
                        if k < items.len() {
                            assert(items2[k] == items[k] && p2[k] == prev[k]);
                        }
                    }
                    assert forall|k: int, l: int| 0 <= k < l < p2.len() implies #[trigger] p2[k] < #[trigger] p2[l] by {
                        if l < prev.len() {
                            assert(p2[k] == prev[k] && p2[l] == prev[l]);
                        } else {
                            assert(p2[k] == prev[k]);
                        }
                    }
                    assert forall|k: int| 0 <= k < items2.len() && (#[trigger] items2[k]).required implies items2[k].status == ArtifactStatus::Included by {
                        if k < items.len() {
                            assert(items2[k] == items[k]);
                        }
                    }
                    assert forall|k: int| 0 <= k < p2.len() implies !excluded_artifact(arts[#[trigger] p2[k]], root) by {
                        if k < prev.len() {
                            assert(p2[k] == prev[k]);
                        }
                    }
                    assert forall|k: int| 0 <= k < n && !excluded_artifact(#[trigger] arts[k], root) implies exists|j: int| 0 <= j < p2.len() && p2[j] == k by {
                        if k < n - 1 {
                            let j = choose|j: int| 0 <= j < prev.len() && prev[j] == k;
                            assert(p2[j] == prev[j]);
                        } else {
                            assert(p2[prev.len() as int] == n - 1);
                        }
                    }
                    p2
                },
                ArtifactOutcome::Skip(_) => {
                    assert forall|k: int| 0 <= k < n && !excluded_artifact(#[trigger] arts[k], root) implies exists|j: int| 0 <= j < prev.len() && prev[j] == k by {
                        if k == n - 1 {
                            assert(false);
                        }
                    }
                    prev
                },
                _ => prev,
            },
        }
    }
}

/// Law: a run keeps the manifest's order and never drops a required
/// artifact. The collected items are exactly the manifest's artifacts, in
/// order, less the `file` and `directory` ones in default-excluded
/// directories; each keeps its name, type, path and requirement; each is
/// included exactly when it matched paths; a required one is always
/// included (or the run fails); and there is one warning for each missing
/// item and each skipped artifact.
pub proof fn lemma_collected_follow_manifest(
    arts: Seq<ArtifactConfig>,
    probes: Seq<ArtifactProbe>,
    root: Seq<char>,
    allow_outside: bool,
)
    ensures
        collect_upto(arts, probes, root, allow_outside, arts.len()) matches Ok((items, ws)) ==> {
            &&& forall|k: int| 0 <= k < items.len() && (#[trigger] items[k]).required ==> items[k].status == ArtifactStatus::Included
            &&& ws.len() == missing_count(items) + (arts.len() - items.len())
            &&& exists|pos: Seq<int>| {
                &&& pos.len() == items.len()
                &&& forall|k: int, l: int| 0 <= k < l < pos.len() ==> #[trigger] pos[k] < #[trigger] pos[l]
                &&& forall|k: int| 0 <= k < items.len() ==> made_from(#[trigger] items[k], arts[pos[k]])
                &&& forall|k: int| 0 <= k < pos.len() ==> 0 <= #[trigger] pos[k] < arts.len() && !excluded_artifact(arts[pos[k]], root)
                &&& forall|k: int| 0 <= k < arts.len() && !excluded_artifact(#[trigger] arts[k], root) ==> exists|j: int| 0 <= j < pos.len() && pos[j] == k
            }
            &&& forall|k: int| 0 <= k < items.len() ==> ((#[trigger] items[k]).status == ArtifactStatus::Included <==> items[k].matched_paths.len() > 0)
        },
{
    lemma_collected_artifacts_sound(arts, probes, root, allow_outside);
    let pos = lemma_collect_upto_order(arts, probes, root, allow_outside, arts.len());
    match collect_upto(arts, probes, root, allow_outside, arts.len()) {
        Ok((items, ws)) => {
            assert(pos.len() == items.len());
        },
        Err(_) => {},
    }
}

/// Law: an optional artifact that is missing only warns. A `file` or
/// `directory` artifact whose source does not exist, or a `glob` artifact
/// whose pattern matches nothing, is kept as missing, with no paths and one
/// warning, once its name and location pass.
pub proof fn lemma_optional_missing_only_warns(
    a: ArtifactConfig,
    probe: ArtifactProbe,
    root: Seq<char>,
    allow_outside: bool,
)
    requires
        !a.required,
        artifact_name_check(a.name@) is Ok,
        a.artifact_type@ == "glob"@ || (allow_outside || within_root(
            artifact_source_of(root, a.path@),
            root,
        )) && !skip_default_excluded(a.path@, artifact_source_of(root, a.path@), root),
        (a.artifact_type@ == "file"@ || a.artifact_type@ == "directory"@) && !probe.source.exists
            || a.artifact_type@ == "glob"@ && (probe.glob matches Ok(c) && c@.len() == 0),
    ensures
        (artifact_outcome(a, probe, root, allow_outside) matches ArtifactOutcome::Keep(item, ws)
            && item.status == ArtifactStatus::Missing && item.matched_paths.len() == 0 && ws.len()
            == 1),
{
    lemma_type_names_distinct();
}

} // verus!
