//! Which lines of the local JSONL records the `records` command reads.

use vstd::prelude::*;

use crate::collect::strs;
use crate::text::{blank, chars_of, is_blank, string_of};

verus! {

/// A finished line: its text without a `\r` that ended it.
pub open spec fn finish_line(cur: Seq<char>) -> Seq<char> {
    if cur.len() > 0 && cur.last() == '\r' {
        cur.drop_last()
    } else {
        cur
    }
}

/// Left-to-right scan of a text: the lines ended by `\n` so far, and the
/// line being read.
pub open spec fn scan_lines(s: Seq<char>) -> (Seq<Seq<char>>, Seq<char>)
    decreases s.len(),
{
    if s.len() == 0 {
        (seq![], seq![])
    } else {
        let prev = scan_lines(s.drop_last());
        if s.last() == '\n' {
            (prev.0.push(finish_line(prev.1)), seq![])
        } else {
            (prev.0, prev.1.push(s.last()))
        }
    }
}

/// The lines of a text as `str::lines` yields them: split at `\n` or
/// `\r\n`, with no empty line after a final line ending.
pub open spec fn text_lines(s: Seq<char>) -> Seq<Seq<char>> {
    let (done, cur) = scan_lines(s);
    if cur.len() > 0 {
        done.push(cur)
    } else {
        done
    }
}

/// The lines of `ls` that are not blank, in order.
pub open spec fn non_blank(ls: Seq<Seq<char>>) -> Seq<Seq<char>>
    decreases ls.len(),
{
    if ls.len() == 0 {
        seq![]
    } else if is_blank(ls.last()) {
        non_blank(ls.drop_last())
    } else {
        non_blank(ls.drop_last()).push(ls.last())
    }
}

/// The lines that are read for the last `last` records: of the final
/// `last` lines, those that are not blank, oldest first.
pub open spec fn recent_lines_of(content: Seq<char>, last: nat) -> Seq<Seq<char>> {
    let ls = text_lines(content);
    let k = if last < ls.len() {
        last as int
    } else {
        ls.len() as int
    };
    non_blank(ls.subrange(ls.len() - k, ls.len() as int))
}

fn finish_line_exec(cur: Vec<char>) -> (res: Vec<char>)
    ensures
        res@ == finish_line(cur@),
{
    let mut c = cur;
    if c.len() > 0 && c[c.len() - 1] == '\r' {
        c.pop();
    }
    c
}

/// The lines of a text, as `str::lines` yields them.
pub fn lines_of(content: &str) -> (res: Vec<String>)
    ensures
        strs(res@) == text_lines(content@),
{
    let s = chars_of(content);
    let mut done: Vec<String> = Vec::new();
    let mut cur: Vec<char> = Vec::new();
    let mut i: usize = 0;
    assert(s@.take(0) =~= seq![]);
    assert(strs(done@) =~= seq![]);
    while i < s.len()
        invariant
            0 <= i <= s.len(),
            (strs(done@), cur@) == scan_lines(s@.take(i as int)),
        decreases s.len() - i,
    {
        let c = s[i];
        proof {
            assert(s@.take(i + 1).drop_last() =~= s@.take(i as int));
            assert(s@.take(i + 1).last() == c);
        }
        if c == '\n' {
            let line = finish_line_exec(cur);
            let text = string_of(&line);
            let ghost before = done@;
            done.push(text);
            assert(strs(done@) =~= strs(before).push(text@));
            cur = Vec::new();
            assert(cur@ =~= seq![]);
        } else {
            cur.push(c);
        }
        i = i + 1;
    }
    assert(s@.take(i as int) =~= s@);
    if cur.len() > 0 {
        let text = string_of(&cur);
        let ghost before = done@;
        done.push(text);
        assert(strs(done@) =~= strs(before).push(text@));
    }
    done
}

/// The lines that `records` reads for the last `last` records: of the final
/// `last` lines of the records file, those that are not blank, oldest
/// first.
pub fn recent_record_lines(content: &str, last: usize) -> (res: Vec<String>)
    ensures
        strs(res@) == recent_lines_of(content@, last as nat),
{
    let ls = lines_of(content);
    let ghost t = strs(ls@);
    let k = if last < ls.len() {
        last
    } else {
        ls.len()
    };
    let start = ls.len() - k;
    let ghost window = t.subrange(start as int, ls@.len() as int);
    let mut out: Vec<String> = Vec::new();
    let mut i = start;
    assert(window.take(0) =~= seq![]);
    assert(strs(out@) =~= seq![]);
    while i < ls.len()
        invariant
            start <= i <= ls@.len(),
            t == strs(ls@),
            window == t.subrange(start as int, ls@.len() as int),
            strs(out@) == non_blank(window.take(i - start)),
        decreases ls@.len() - i,
    {
        proof {
            assert(window.take(i + 1 - start).drop_last() =~= window.take(i - start));
            assert(window.take(i + 1 - start).last() == ls@[i as int]@);
        }
        if !blank(ls[i].as_str()) {
            let line = ls[i].clone();
            let ghost before = out@;
            out.push(line);
            assert(strs(out@) =~= strs(before).push(line@));
        }
        i = i + 1;
    }
    assert(window.take(i - start) =~= window);
    out
}


proof fn lemma_non_blank_len(ls: Seq<Seq<char>>)
    ensures
        non_blank(ls).len() <= ls.len(),
    decreases ls.len(),
{
    if ls.len() > 0 {
        lemma_non_blank_len(ls.drop_last());
    }
}

/// Law: `records --last N` reads at most `N` lines.
pub proof fn lemma_recent_lines_at_most(content: Seq<char>, last: nat)
    ensures
        recent_lines_of(content, last).len() <= last,
{
    let ls = text_lines(content);
    let k = if last < ls.len() {
        last as int
    } else {
        ls.len() as int
    };
    lemma_non_blank_len(ls.subrange(ls.len() - k, ls.len() as int));
}


/// The fields of one record line that `records` shows, as the JSON value
/// of the line gives them: each text field when it is a JSON string,
/// `size_bytes` when it is an unsigned integer, and the text of `avg_mib_s`
/// when it is a number.
#[derive(Debug, Clone)]
pub struct RecordJson {
    pub time: Option<String>,
    pub run_id: Option<String>,
    pub run_name: Option<String>,
    pub project: Option<String>,
    pub archive_uri: Option<String>,
    pub size_bytes: Option<u64>,
    pub avg_mib_s: Option<String>,
}

/// What a record line's JSON fields hold, as texts.
pub struct RecordJsonView {
    pub time: Option<Seq<char>>,
    pub run_id: Option<Seq<char>>,
    pub run_name: Option<Seq<char>>,
    pub project: Option<Seq<char>>,
    pub archive_uri: Option<Seq<char>>,
    pub size_bytes: Option<u64>,
    pub avg_mib_s: Option<Seq<char>>,
}

/// The text of an optional string.
pub open spec fn opt_str(o: Option<String>) -> Option<Seq<char>> {
    match o {
        Some(s) => Some(s@),
        None => None,
    }
}

impl View for RecordJson {
    type V = RecordJsonView;

    open spec fn view(&self) -> RecordJsonView {
        RecordJsonView {
            time: opt_str(self.time),
            run_id: opt_str(self.run_id),
            run_name: opt_str(self.run_name),
            project: opt_str(self.project),
            archive_uri: opt_str(self.archive_uri),
            size_bytes: self.size_bytes,
            avg_mib_s: opt_str(self.avg_mib_s),
        }
    }
}

/// What `serde_json::from_str::<Value>` makes of a line, read field by
/// field; `None` when the line is not JSON.
pub uninterp spec fn json_record_of(line: Seq<char>) -> Option<RecordJsonView>;

/// Parses a line with `serde_json::from_str::<serde_json::Value>` and reads
/// the fields that `records` shows (`Value::get`, `as_str`, `as_u64`, and
/// `as_number` written out with its `Display`). The contract claims only
/// that the outcome is a function of the line; what JSON parsing gives is not
/// stated.
#[verifier::external_body]
fn parse_record_json(line: &str) -> (res: Option<RecordJson>)
    ensures
        res matches Some(r) ==> json_record_of(line@) == Some(r@),
        res is None ==> json_record_of(line@) is None,
{
    let v: serde_json::Value = serde_json::from_str(line).ok()?;
    let text = |k: &str| v.get(k).and_then(|x| x.as_str()).map(|x| x.to_string());
    Some(RecordJson {
        time: text("time"),
        run_id: text("run_id"),
        run_name: text("run_name"),
        project: text("project"),
        archive_uri: text("archive_uri"),
        size_bytes: v.get("size_bytes").and_then(|x| x.as_u64()),
        avg_mib_s: v.get("avg_mib_s").and_then(|x| x.as_number()).map(|n| n.to_string()),
    })
}

/// A record row: the fields of a record line, with the empty text and `0`
/// where a field is missing; the speed stays as the number's text.
#[derive(Debug, Clone)]
pub struct RecordFields {
    pub time: String,
    pub run_id: String,
    pub run_name: String,
    pub project: String,
    pub archive_uri: String,
    pub size_bytes: u64,
    pub avg_mib_s: Option<String>,
}

/// What a record row holds, as texts.
pub struct RecordFieldsView {
    pub time: Seq<char>,
    pub run_id: Seq<char>,
    pub run_name: Seq<char>,
    pub project: Seq<char>,
    pub archive_uri: Seq<char>,
    pub size_bytes: u64,
    pub avg_mib_s: Option<Seq<char>>,
}

impl View for RecordFields {
    type V = RecordFieldsView;

    open spec fn view(&self) -> RecordFieldsView {
        RecordFieldsView {
            time: self.time@,
            run_id: self.run_id@,
            run_name: self.run_name@,
            project: self.project@,
            archive_uri: self.archive_uri@,
            size_bytes: self.size_bytes,
            avg_mib_s: opt_str(self.avg_mib_s),
        }
    }
}

/// A text field, or the empty text when it is missing.
pub open spec fn text_or_empty(o: Option<Seq<char>>) -> Seq<char> {
    match o {
        Some(t) => t,
        None => seq![],
    }
}

/// The row of a record line's JSON fields.
pub open spec fn row_of(j: RecordJsonView) -> RecordFieldsView {
    RecordFieldsView {
        time: text_or_empty(j.time),
        run_id: text_or_empty(j.run_id),
        run_name: text_or_empty(j.run_name),
        project: text_or_empty(j.project),
        archive_uri: text_or_empty(j.archive_uri),
        size_bytes: match j.size_bytes {
            Some(n) => n,
            None => 0,
        },
        avg_mib_s: j.avg_mib_s,
    }
}

/// Whether a row's text field comes from the record's own field of that
/// name: its text when the record has it as a string, else empty.
pub open spec fn field_from(row_field: Seq<char>, json_field: Option<Seq<char>>) -> bool {
    match json_field {
        Some(t) => row_field == t,
        None => row_field.len() == 0,
    }
}

/// Law: each field of a row comes from the record's field of the same name
/// and from no other: the time from `time`, the run id from `run_id`, the
/// run name from `run_name`, the project from `project`, the address from
/// `archive_uri`, the size from `size_bytes` (or 0), the speed from
/// `avg_mib_s`.
pub proof fn lemma_row_fields(j: RecordJsonView)
    ensures
        field_from(row_of(j).time, j.time),
        field_from(row_of(j).run_id, j.run_id),
        field_from(row_of(j).run_name, j.run_name),
        field_from(row_of(j).project, j.project),
        field_from(row_of(j).archive_uri, j.archive_uri),
        j.size_bytes matches Some(n) ==> row_of(j).size_bytes == n,
        j.size_bytes is None ==> row_of(j).size_bytes == 0,
        row_of(j).avg_mib_s == j.avg_mib_s,
{
}

/// The rows of the lines that are JSON, in order; other lines are left out.
pub open spec fn rows_of(lines: Seq<Seq<char>>) -> Seq<RecordFieldsView>
    decreases lines.len(),
{
    if lines.len() == 0 {
        seq![]
    } else {
        match json_record_of(lines.last()) {
            Some(j) => rows_of(lines.drop_last()).push(row_of(j)),
            None => rows_of(lines.drop_last()),
        }
    }
}

/// The views of a vector of rows.
pub open spec fn row_views(v: Seq<RecordFields>) -> Seq<RecordFieldsView> {
    v.map_values(|r: RecordFields| r@)
}

fn or_empty(o: Option<String>) -> (res: String)
    ensures
        res@ == text_or_empty(opt_str(o)),
{
    match o {
        Some(t) => t,
        None => String::new(),
    }
}

/// The row of a record line's JSON fields: each text field, or the empty
/// text when it is missing; the size, or `0`; the speed's text as given.
pub fn record_row(j: RecordJson) -> (res: RecordFields)
    ensures
        res@ == row_of(j@),
        field_from(res.time@, j@.time),
        field_from(res.run_id@, j@.run_id),
        field_from(res.run_name@, j@.run_name),
        field_from(res.project@, j@.project),
        field_from(res.archive_uri@, j@.archive_uri),
        j.size_bytes matches Some(n) ==> res.size_bytes == n,
        j.size_bytes is None ==> res.size_bytes == 0,
        opt_str(res.avg_mib_s) == j@.avg_mib_s,
{
    proof {
        lemma_row_fields(j@);
    }
    RecordFields {
        time: or_empty(j.time),
        run_id: or_empty(j.run_id),
        run_name: or_empty(j.run_name),
        project: or_empty(j.project),
        archive_uri: or_empty(j.archive_uri),
        size_bytes: match j.size_bytes {
            Some(n) => n,
            None => 0,
        },
        avg_mib_s: j.avg_mib_s,
    }
}

/// The rows of the last `last` records, oldest first: of the final `last`
/// lines of the records file, those that are not blank and are JSON.
pub fn read_record_rows(content: &str, last: usize) -> (res: Vec<RecordFields>)
    ensures
        row_views(res@) == rows_of(recent_lines_of(content@, last as nat)),
{
    let lines = recent_record_lines(content, last);
    let ghost ls = strs(lines@);
    let mut out: Vec<RecordFields> = Vec::new();
    let mut i: usize = 0;
    assert(ls.take(0) =~= seq![]);
    assert(row_views(out@) =~= seq![]);
    while i < lines.len()
        invariant
            0 <= i <= lines.len(),
            ls == strs(lines@),
            row_views(out@) == rows_of(ls.take(i as int)),
        decreases lines.len() - i,
    {
        proof {
            assert(ls.take(i + 1).drop_last() =~= ls.take(i as int));
            assert(ls.take(i + 1).last() == lines@[i as int]@);
        }
        match parse_record_json(lines[i].as_str()) {
            Some(j) => {
                let row = record_row(j);
                let ghost before = out@;
                out.push(row);
                assert(row_views(out@) =~= row_views(before).push(row@));
            },
            None => {},
        }
        i = i + 1;
    }
    assert(ls.take(i as int) =~= ls);
    out
}

proof fn lemma_rows_len(lines: Seq<Seq<char>>)
    ensures
        rows_of(lines).len() <= lines.len(),
    decreases lines.len(),
{
    if lines.len() > 0 {
        lemma_rows_len(lines.drop_last());
    }
}

/// Law: `records --last N` shows at most `N` rows.
pub proof fn lemma_rows_at_most(content: Seq<char>, last: nat)
    ensures
        rows_of(recent_lines_of(content, last)).len() <= last,
{
    lemma_recent_lines_at_most(content, last);
    lemma_rows_len(recent_lines_of(content, last));
}

/// The heading and table header of a new Markdown records file.
pub open spec fn markdown_header_text() -> Seq<char> {
    "# Upload Records\n\n| Time | Run | Project | Size | Speed | Remote URI | SHA256 |\n| --- | --- | --- | ---: | ---: | --- | --- |\n"@
}

/// The heading and table header of a new Markdown records file.
pub fn markdown_header() -> (res: &'static str)
    ensures
        res@ == markdown_header_text(),
{
    "# Upload Records\n\n| Time | Run | Project | Size | Speed | Remote URI | SHA256 |\n| --- | --- | --- | ---: | ---: | --- | --- |\n"
}

/// One row of the Markdown records table; the size (in MiB, one decimal)
/// and the speed (MiB/s, two decimals) come already written as text.
pub open spec fn markdown_row_text(
    time: Seq<char>,
    run_name: Seq<char>,
    project: Seq<char>,
    size_mib: Seq<char>,
    speed: Seq<char>,
    archive_uri: Seq<char>,
    sha256: Seq<char>,
) -> Seq<char> {
    "| "@ + time + " | "@ + run_name + " | "@ + project + " | "@ + size_mib + " MiB | "@ + speed
        + " MiB/s | `"@ + archive_uri + "` | `"@ + sha256 + "` |\n"@
}

/// One row of the Markdown records table.
pub fn markdown_row(
    time: &str,
    run_name: &str,
    project: &str,
    size_mib: &str,
    speed: &str,
    archive_uri: &str,
    sha256: &str,
) -> (res: String)
    ensures
        res@ == markdown_row_text(
            time@,
            run_name@,
            project@,
            size_mib@,
            speed@,
            archive_uri@,
            sha256@,
        ),
{
    let mut out: Vec<char> = Vec::new();
    crate::text::push_str(&mut out, "| ");
    crate::text::push_str(&mut out, time);
    crate::text::push_str(&mut out, " | ");
    crate::text::push_str(&mut out, run_name);
    crate::text::push_str(&mut out, " | ");
    crate::text::push_str(&mut out, project);
    crate::text::push_str(&mut out, " | ");
    crate::text::push_str(&mut out, size_mib);
    crate::text::push_str(&mut out, " MiB | ");
    crate::text::push_str(&mut out, speed);
    crate::text::push_str(&mut out, " MiB/s | `");
    crate::text::push_str(&mut out, archive_uri);
    crate::text::push_str(&mut out, "` | `");
    crate::text::push_str(&mut out, sha256);
    crate::text::push_str(&mut out, "` |\n");
    assert(out@ =~= markdown_row_text(
        time@,
        run_name@,
        project@,
        size_mib@,
        speed@,
        archive_uri@,
        sha256@,
    ));
    string_of(&out)
}

} // verus!
