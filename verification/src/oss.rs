//! Object-storage addresses and the `ossutil` commands that use them.

use vstd::prelude::*;

use crate::manifest::Manifest;
use crate::subprocess_utils::CommandResult;
use crate::text::{
    chars_of, push_all, push_signed_decimal, push_str, strip_start, strip_start_chars, string_of,
    trim, trim_chars, CharSet,
};

verus! {

/// The address of `filename` under `remote_dir` in `bucket`; leading
/// slashes of `remote_dir` are dropped.
pub open spec fn oss_uri_of(bucket: Seq<char>, remote_dir: Seq<char>, filename: Seq<char>) -> Seq<
    char,
> {
    "oss://"@ + bucket + seq!['/'] + strip_start(remote_dir, CharSet::Slash) + seq!['/'] + filename
}

/// The address `oss://{bucket}/{remote_dir}/{filename}`.
pub fn oss_uri(bucket: &str, remote_dir: &str, filename: &str) -> (res: String)
    ensures
        res@ == oss_uri_of(bucket@, remote_dir@, filename@),
{
    let mut out: Vec<char> = Vec::new();
    push_str(&mut out, "oss://");
    push_str(&mut out, bucket);
    out.push('/');
    let rd = chars_of(remote_dir);
    let stripped = strip_start_chars(&rd, CharSet::Slash);
    push_all(&mut out, &stripped);
    out.push('/');
    push_str(&mut out, filename);
    assert(out@ =~= oss_uri_of(bucket@, remote_dir@, filename@));
    string_of(&out)
}

/// The texts of a vector of strings.
pub open spec fn texts_of(v: Seq<String>) -> Seq<Seq<char>> {
    v.map_values(|s: String| s@)
}

/// The command that lists the bucket: `ossutil ls oss://{bucket} -e
/// {endpoint} --region {region}`.
pub fn check_access_command(bucket: &str, endpoint: &str, region: &str) -> (res: Vec<String>)
    ensures
        texts_of(res@) == seq![
            "ossutil"@,
            "ls"@,
            "oss://"@ + bucket@,
            "-e"@,
            endpoint@,
            "--region"@,
            region@,
        ],
{
    let mut v: Vec<String> = Vec::new();
    v.push("ossutil".to_owned());
    v.push("ls".to_owned());
    v.push(crate::text::concat2("oss://", bucket));
    v.push("-e".to_owned());
    v.push(endpoint.to_owned());
    v.push("--region".to_owned());
    v.push(region.to_owned());
    assert(texts_of(v@) =~= seq![
        "ossutil"@,
        "ls"@,
        "oss://"@ + bucket@,
        "-e"@,
        endpoint@,
        "--region"@,
        region@,
    ]);
    v
}

/// What listing the bucket tells: access when the command exits with 0,
/// otherwise no access and the command's trimmed standard output.
pub fn check_access_outcome(result: &CommandResult) -> (res: (bool, String))
    ensures
        res.0 == (result.returncode == 0),
        res.0 ==> res.1@ == Seq::<char>::empty(),
        !res.0 ==> res.1@ == trim(result.stdout@),
{
    if result.returncode == 0 {
        (true, String::new())
    } else {
        (false, crate::text::trim_str(result.stdout.as_str()))
    }
}

/// The command that copies a local file to its address: `ossutil cp
/// {local_path} {uri} -e {endpoint} --region {region}`.
pub fn upload_command(local_path: &str, manifest: &Manifest, remote_dir: &str, filename: &str) -> (res: Vec<String>)
    ensures
        texts_of(res@) == seq![
            "ossutil"@,
            "cp"@,
            local_path@,
            oss_uri_of(manifest.oss.bucket@, remote_dir@, filename@),
            "-e"@,
            manifest.oss.endpoint@,
            "--region"@,
            manifest.oss.region@,
        ],
{
    let mut v: Vec<String> = Vec::new();
    v.push("ossutil".to_owned());
    v.push("cp".to_owned());
    v.push(local_path.to_owned());
    v.push(oss_uri(manifest.oss.bucket.as_str(), remote_dir, filename));
    v.push("-e".to_owned());
    v.push(manifest.oss.endpoint.clone());
    v.push("--region".to_owned());
    v.push(manifest.oss.region.clone());
    assert(texts_of(v@) =~= seq![
        "ossutil"@,
        "cp"@,
        local_path@,
        oss_uri_of(manifest.oss.bucket@, remote_dir@, filename@),
        "-e"@,
        manifest.oss.endpoint@,
        "--region"@,
        manifest.oss.region@,
    ]);
    v
}

/// Texts joined with a separator.
pub open spec fn joined(parts: Seq<Seq<char>>, sep: Seq<char>) -> Seq<char>
    decreases parts.len(),
{
    if parts.len() == 0 {
        seq![]
    } else if parts.len() == 1 {
        parts[0]
    } else {
        joined(parts.drop_last(), sep) + sep + parts.last()
    }
}

/// Strings joined with a separator (`[String]::join`).
pub fn join_strings(parts: &Vec<String>, sep: &str) -> (res: Vec<char>)
    ensures
        res@ == joined(texts_of(parts@), sep@),
{
    let mut out: Vec<char> = Vec::new();
    let mut i: usize = 0;
    let ghost t = texts_of(parts@);
    while i < parts.len()
        invariant
            0 <= i <= parts@.len(),
            t == texts_of(parts@),
            out@ == joined(t.take(i as int), sep@),
        decreases parts.len() - i,
    {
        if i > 0 {
            push_str(&mut out, sep);
        }
        push_str(&mut out, parts[i].as_str());
        proof {
            assert(t.take(i + 1).drop_last() =~= t.take(i as int));
            assert(t.take(i + 1).last() == parts@[i as int]@);
            if i == 0 {
                assert(joined(t.take(0), sep@) =~= seq![]);
                assert(out@ =~= t.take(1)[0]);
            }
        }
        i = i + 1;
    }
    assert(t.take(i as int) =~= t);
    out
}

/// The error summary of a failed copy: the trimmed standard error, or the
/// trimmed standard output when that is blank.
pub open spec fn failure_summary(stdout: Seq<char>, stderr: Seq<char>) -> Seq<char> {
    if trim(stderr).len() == 0 {
        trim(stdout)
    } else {
        trim(stderr)
    }
}

/// The message for a copy command that exited with `returncode`.
pub open spec fn upload_failure_message_of(
    returncode: int,
    stdout: Seq<char>,
    stderr: Seq<char>,
    command: Seq<Seq<char>>,
) -> Seq<char> {
    "ossutil cp failed (exit code "@ + crate::text::signed_decimal(returncode) + ").\ncommand: "@
        + joined(command, seq![' ']) + "\nerror: "@ + failure_summary(stdout, stderr)
        + "\nsuggestion: retry command manually after fixing the root cause."@
}

/// The message for a copy command that exited with `returncode`, naming the
/// command and the error it reported.
pub fn upload_failure_message(
    returncode: i32,
    stdout: &str,
    stderr: &str,
    command: &Vec<String>,
) -> (res: String)
    ensures
        res@ == upload_failure_message_of(returncode as int, stdout@, stderr@, texts_of(command@)),
{
    let mut out: Vec<char> = Vec::new();
    push_str(&mut out, "ossutil cp failed (exit code ");
    push_signed_decimal(&mut out, returncode as i64);
    push_str(&mut out, ").\ncommand: ");
    let j = join_strings(command, " ");
    proof {
        reveal_strlit(" ");
    }
    assert(" "@ =~= seq![' ']);
    push_all(&mut out, &j);
    push_str(&mut out, "\nerror: ");
    let e = chars_of(stderr);
    let te = trim_chars(&e);
    if te.len() == 0 {
        let o = chars_of(stdout);
        let to = trim_chars(&o);
        push_all(&mut out, &to);
    } else {
        push_all(&mut out, &te);
    }
    push_str(&mut out, "\nsuggestion: retry command manually after fixing the root cause.");
    assert(out@ =~= upload_failure_message_of(
        returncode as int,
        stdout@,
        stderr@,
        texts_of(command@),
    ));
    string_of(&out)
}


/// Law: leading slashes of the remote directory do not change an address.
pub proof fn lemma_remote_dir_leading_slash(
    bucket: Seq<char>,
    remote_dir: Seq<char>,
    filename: Seq<char>,
)
    ensures
        oss_uri_of(bucket, seq!['/'] + remote_dir, filename) == oss_uri_of(
            bucket,
            remote_dir,
            filename,
        ),
{
    assert((seq!['/'] + remote_dir).drop_first() =~= remote_dir);
}


/// Pattern of the average speed that `ossutil cp` reports.
pub const AVG_SPEED_RE: &'static str = "(?i)(?:avg|average)\\s+([0-9]+(?:\\.[0-9]+)?)\\s*MiB/s";

/// What `regex::Regex::captures` finds as the first group of the leftmost
/// match of a compiled pattern in a text, if it matches.
pub uninterp spec fn regex_first_group(pattern: Seq<char>, text: Seq<char>) -> Option<Seq<char>>;

/// Whether `t` is one or more ASCII digits.
pub open spec fn is_digits(t: Seq<char>) -> bool {
    t.len() > 0 && forall|i: int| 0 <= i < t.len() ==> crate::archive::is_digit(#[trigger] t[i])
}

/// Whether `t` is a decimal number as `[0-9]+(?:\.[0-9]+)?` spells it:
/// digits, then optionally `.` and more digits.
pub open spec fn is_decimal_text(t: Seq<char>) -> bool {
    ||| is_digits(t)
    ||| exists|k: int|
        0 < k < t.len() && t[k] == '.' && is_digits(t.subrange(0, k)) && is_digits(
            #[trigger] t.subrange(k + 1, t.len() as int),
        )
}

/// Whether `t` occurs in `s` as a contiguous piece.
pub open spec fn occurs_in(t: Seq<char>, s: Seq<char>) -> bool {
    exists|i: int| 0 <= i && i + t.len() <= s.len() && #[trigger] s.subrange(i, i + t.len()) == t
}

/// Compiles `pattern` with `regex::Regex::new` and returns the text of group
/// 1 of the leftmost match in `text` (`Regex::captures`, `Captures::get`);
/// an error of `Regex::new` comes back as its display text. In general the
/// contract claims that the outcome is a function of the pattern and the
/// text, and that a group's text is a piece of `text` (`Match::as_str`). For
/// the average-speed pattern the regex syntax documentation gives two facts
/// more: the pattern is valid, and its group 1, `[0-9]+(?:\.[0-9]+)?`,
/// matches only ASCII digits with at most one inner `.`. Which match is
/// found is not stated.
#[verifier::external_body]
fn regex_capture(pattern: &str, text: &str) -> (res: Result<Option<String>, String>)
    ensures
        res is Ok <==> crate::paths::regex_compiles(pattern@),
        res matches Ok(g) ==> match g {
            Some(t) => regex_first_group(pattern@, text@) == Some(t@),
            None => regex_first_group(pattern@, text@) is None,
        },
        res matches Err(e) ==> e@ == crate::paths::regex_error_text(pattern@),
        res matches Ok(Some(t)) ==> occurs_in(t@, text@),
        res is Err ==> pattern@ != AVG_SPEED_RE@,
        res matches Ok(Some(t)) ==> (pattern@ == AVG_SPEED_RE@ ==> is_decimal_text(t@)),
{
    match regex::Regex::new(pattern) {
        Ok(re) => Ok(re.captures(text).and_then(|m| m.get(1)).map(|g| g.as_str().to_string())),
        Err(e) => Err(e.to_string()),
    }
}

/// The number text of the average speed in a copy command's output, as the
/// first group of `AVG_SPEED_RE`; nothing when the output reports none. A
/// text found is a decimal number that occurs in the output.
pub fn avg_speed_text(stdout: &str) -> (res: Option<String>)
    ensures
        match res {
            Some(t) => regex_first_group(AVG_SPEED_RE@, stdout@) == Some(t@),
            None => regex_first_group(AVG_SPEED_RE@, stdout@) is None,
        },
        res matches Some(t) ==> is_decimal_text(t@) && occurs_in(t@, stdout@),
{
    match regex_capture(AVG_SPEED_RE, stdout) {
        Ok(g) => g,
        Err(_) => None,
    }
}

/// The outcome of a copy command run as `command`: a zero exit code is
/// success, with the average speed text that its output reports (if any);
/// any other exit code fails with the message that names the command and
/// the error.
pub fn upload_outcome(result: &CommandResult, command: &Vec<String>) -> (res: Result<Option<String>, String>)
    ensures
        res is Ok <==> result.returncode == 0,
        res matches Err(e) ==> e@ == upload_failure_message_of(
            result.returncode as int,
            result.stdout@,
            result.stderr@,
            texts_of(command@),
        ),
        res matches Ok(t) ==> match t {
            Some(x) => regex_first_group(AVG_SPEED_RE@, result.stdout@) == Some(x@),
            None => regex_first_group(AVG_SPEED_RE@, result.stdout@) is None,
        },
{
    if result.returncode != 0 {
        return Err(
            upload_failure_message(
                result.returncode,
                result.stdout.as_str(),
                result.stderr.as_str(),
                command,
            ),
        );
    }
    Ok(avg_speed_text(result.stdout.as_str()))
}

} // verus!
