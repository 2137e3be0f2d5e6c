//! Path text as the uploader sees it: the components of a Unix path, joining,
//! the directories that are never packaged, and the rule for artifact names.

use vstd::prelude::*;

use crate::text::{chars_eq, chars_of, concat2, message_with, push_all, slice_chars, string_of};

verus! {

/// Pattern that every artifact name must match.
pub const ARTIFACT_NAME_RE: &'static str = "^[A-Za-z0-9_.-]+$";

/// Directory names that are skipped when packaging, unless named explicitly.
pub const DEFAULT_EXCLUDED_DIRS: [&'static str; 3] = [".git", ".rau", "__pycache__"];

/// Whether `name` is one of the default-excluded directory names.
pub open spec fn is_excluded_name(name: Seq<char>) -> bool {
    name == ".git"@ || name == ".rau"@ || name == "__pycache__"@
}

proof fn lemma_empty_not_excluded()
    ensures
        !is_excluded_name(seq![]),
{
    reveal_strlit(".git");
    reveal_strlit(".rau");
    reveal_strlit("__pycache__");
    assert(".git"@.len() == 4);
    assert(".rau"@.len() == 4);
    assert("__pycache__"@.len() == 11);
    let e: Seq<char> = seq![];
    assert(e.len() == 0);
}

/// Whether `name` is one of the default-excluded directory names.
pub fn excluded_name(name: &Vec<char>) -> (res: bool)
    ensures
        res == is_excluded_name(name@),
{
    let a = chars_of(".git");
    let b = chars_of(".rau");
    let c = chars_of("__pycache__");
    chars_eq(name, &a) || chars_eq(name, &b) || chars_eq(name, &c)
}

/// A path segment that names something (neither empty nor `.`).
pub open spec fn keep_segment(seg: Seq<char>) -> bool {
    seg.len() > 0 && seg != seq!['.']
}

/// Left-to-right scan of a path text: the finished named segments and the
/// segment still being read.
pub open spec fn scan_segments(s: Seq<char>) -> (Seq<Seq<char>>, Seq<char>)
    decreases s.len(),
{
    if s.len() == 0 {
        (seq![], seq![])
    } else {
        let prev = scan_segments(s.drop_last());
        if s.last() == '/' {
            (if keep_segment(prev.1) { prev.0.push(prev.1) } else { prev.0 }, seq![])
        } else {
            (prev.0, prev.1.push(s.last()))
        }
    }
}

/// The segments of `s` between separators, without empty and `.` segments.
pub open spec fn named_components(s: Seq<char>) -> Seq<Seq<char>> {
    let (done, cur) = scan_segments(s);
    if keep_segment(cur) {
        done.push(cur)
    } else {
        done
    }
}

/// The component that a path text starts with: the root `/`, or `.` when the
/// text starts with a lone `.` segment.
pub open spec fn leading_component(s: Seq<char>) -> Seq<Seq<char>> {
    if s.len() > 0 && s[0] == '/' {
        seq![seq!['/']]
    } else if s.len() > 0 && s[0] == '.' && (s.len() == 1 || s[1] == '/') {
        seq![seq!['.']]
    } else {
        seq![]
    }
}

/// The components of a Unix path text, each as its text, as
/// `std::path::Path::components` yields them.
pub open spec fn components(s: Seq<char>) -> Seq<Seq<char>> {
    leading_component(s) + named_components(s)
}

/// Whether `t` holds no `/`.
pub open spec fn no_slash(t: Seq<char>) -> bool {
    forall|j: int| 0 <= j < t.len() ==> #[trigger] t[j] != '/'
}

/// Whether `t` is a piece of a path between separators: not empty, no `/`.
pub open spec fn is_plain_segment(t: Seq<char>) -> bool {
    t.len() > 0 && no_slash(t)
}

proof fn lemma_scan_segments_plain(s: Seq<char>)
    ensures
        forall|k: int|
            0 <= k < scan_segments(s).0.len() ==> is_plain_segment(#[trigger] scan_segments(s).0[k]),
        no_slash(scan_segments(s).1),
    decreases s.len(),
{
    if s.len() > 0 {
        lemma_scan_segments_plain(s.drop_last());
        let prev = scan_segments(s.drop_last());
        if s.last() != '/' {
            let cur = prev.1.push(s.last());
            assert forall|j: int| 0 <= j < cur.len() implies #[trigger] cur[j] != '/' by {
                if j < prev.1.len() {
                    assert(cur[j] == prev.1[j]);
                }
            }
        } else if keep_segment(prev.1) {
            let d = prev.0.push(prev.1);
            assert forall|k: int| 0 <= k < d.len() implies is_plain_segment(#[trigger] d[k]) by {
                if k < prev.0.len() {
                    assert(d[k] == prev.0[k]);
                }
            }
        }
    }
}

/// Every component of a path text is the root `/` (first only) or a plain
/// segment.
pub(crate) proof fn lemma_components_plain(s: Seq<char>)
    ensures
        forall|k: int|
            0 <= k < components(s).len() ==> (k == 0 && #[trigger] components(s)[k] == seq!['/'])
                || is_plain_segment(components(s)[k]),
        is_absolute(s) ==> components(s).len() >= 1 && components(s)[0] == seq!['/'],
{
    lemma_scan_segments_plain(s);
    let lead = leading_component(s);
    let named = named_components(s);
    let (done, cur) = scan_segments(s);
    assert forall|k: int| 0 <= k < named.len() implies is_plain_segment(#[trigger] named[k]) by {
        if k < done.len() {
            assert(named[k] == done[k]);
        }
    }
    let c = components(s);
    assert(c == lead + named);
    assert forall|k: int| 0 <= k < c.len() implies (k == 0 && #[trigger] c[k] == seq!['/'])
        || is_plain_segment(c[k]) by {
        if k < lead.len() {
            if lead[0] == seq!['.'] {
                assert(seq!['.'][0] != '/');
                assert(is_plain_segment(seq!['.']));
            }
        } else {
            assert(c[k] == named[k - lead.len()]);
        }
    }
}

/// The texts of a vector of character vectors.
pub open spec fn texts(v: Seq<Vec<char>>) -> Seq<Seq<char>> {
    v.map_values(|x: Vec<char>| x@)
}

fn keep_segment_exec(seg: &Vec<char>) -> (res: bool)
    ensures
        res == keep_segment(seg@),
{
    if seg.len() == 0 {
        false
    } else if seg.len() == 1 && seg[0] == '.' {
        assert(seg@ =~= seq!['.']);
        false
    } else {
        assert(seg@.len() == 1 ==> seg@ != seq!['.']) by {
            if seg@.len() == 1 && seg@ == seq!['.'] {
                assert(seg@[0] == '.');
            }
        }
        true
    }
}

/// The components of the path text `s`.
pub fn path_components(s: &Vec<char>) -> (res: Vec<Vec<char>>)
    ensures
        texts(res@) == components(s@),
{
    let mut done: Vec<Vec<char>> = Vec::new();
    let mut cur: Vec<char> = Vec::new();
    let mut i: usize = 0;
    assert(s@.take(0) =~= seq![]);
    while i < s.len()
        invariant
            0 <= i <= s.len(),
            (texts(done@), cur@) == scan_segments(s@.take(i as int)),
        decreases s.len() - i,
    {
        let c = s[i];
        proof {
            assert(s@.take(i + 1).drop_last() =~= s@.take(i as int));
            assert(s@.take(i + 1).last() == c);
        }
        if c == '/' {
            if keep_segment_exec(&cur) {
                let ghost d = done@;
                done.push(cur);
                assert(texts(done@) =~= texts(d).push(cur@));
            }
            cur = Vec::new();
            assert(cur@ =~= seq![]);
        } else {
            cur.push(c);
        }
        i = i + 1;
    }
    assert(s@.take(i as int) =~= s@);
    if keep_segment_exec(&cur) {
        let ghost d = done@;
        done.push(cur);
        assert(texts(done@) =~= texts(d).push(cur@));
    }
    let mut res: Vec<Vec<char>> = Vec::new();
    if s.len() > 0 && s[0] == '/' {
        let r = vec!['/'];
        assert(r@ =~= seq!['/']);
        res.push(r);
    } else if s.len() > 0 && s[0] == '.' && (s.len() == 1 || s[1] == '/') {
        let r = vec!['.'];
        assert(r@ =~= seq!['.']);
        res.push(r);
    }
    assert(texts(res@) =~= leading_component(s@));
    let ghost lead = res@;
    let ghost named = done@;
    res.append(&mut done);
    assert(res@ =~= lead + named);
    assert(texts(res@) =~= texts(lead) + texts(named));
    res
}

/// Whether `a` is a prefix of `b`.
pub open spec fn is_prefix<A>(a: Seq<A>, b: Seq<A>) -> bool {
    a.len() <= b.len() && b.subrange(0, a.len() as int) == a
}

/// Whether the components of `root` are a prefix of those of `path`
/// (`Path::starts_with`).
pub open spec fn path_starts_with(path: Seq<char>, root: Seq<char>) -> bool {
    is_prefix(components(root), components(path))
}

/// The components of `path` after those of `root` (`Path::strip_prefix`).
pub open spec fn relative_components(path: Seq<char>, root: Seq<char>) -> Seq<Seq<char>> {
    components(path).subrange(components(root).len() as int, components(path).len() as int)
}

/// Whether the texts of `a` are a prefix of those of `b`.
pub fn components_prefix(a: &Vec<Vec<char>>, b: &Vec<Vec<char>>) -> (res: bool)
    ensures
        res == is_prefix(texts(a@), texts(b@)),
{
    if a.len() > b.len() {
        return false;
    }
    let mut i: usize = 0;
    while i < a.len()
        invariant
            a.len() <= b.len(),
            0 <= i <= a.len(),
            forall|j: int| 0 <= j < i ==> a@[j]@ == b@[j]@,
        decreases a.len() - i,
    {
        if !chars_eq(&a[i], &b[i]) {
            assert(texts(b@).subrange(0, a.len() as int)[i as int] != texts(a@)[i as int]);
            return false;
        }
        i = i + 1;
    }
    assert(texts(b@).subrange(0, a.len() as int) =~= texts(a@));
    true
}

/// One step of resolving `.` and `..` by the text alone: `.` is dropped;
/// `..` removes the name before it, stays at the root, and is kept at the
/// start of a relative path or after another `..`; anything else is
/// appended.
pub open spec fn norm_step(acc: Seq<Seq<char>>, c: Seq<char>) -> Seq<Seq<char>> {
    if c == seq!['.'] {
        acc
    } else if c == seq!['.', '.'] {
        if acc.len() == 0 || acc.last() == seq!['.', '.'] {
            acc.push(c)
        } else if acc.last() == seq!['/'] {
            acc
        } else {
            acc.drop_last()
        }
    } else {
        acc.push(c)
    }
}

/// The first `n` components of `cs` with `.` and `..` resolved.
pub open spec fn normalize_upto(cs: Seq<Seq<char>>, n: nat) -> Seq<Seq<char>>
    decreases n,
{
    if n == 0 || n > cs.len() {
        seq![]
    } else {
        norm_step(normalize_upto(cs, (n - 1) as nat), cs[n - 1])
    }
}

/// The components `cs` with `.` and `..` resolved by the text alone.
pub open spec fn normalized(cs: Seq<Seq<char>>) -> Seq<Seq<char>> {
    normalize_upto(cs, cs.len())
}

/// Whether `path` lies under `root` once `.` and `..` are resolved in both,
/// comparing whole components.
pub open spec fn within_root(path: Seq<char>, root: Seq<char>) -> bool {
    is_prefix(normalized(components(root)), normalized(components(path)))
}

fn is_text(c: &Vec<char>, t: &[char]) -> (res: bool)
    ensures
        res == (c@ == t@),
{
    if c.len() != t.len() {
        return false;
    }
    let mut i: usize = 0;
    while i < c.len()
        invariant
            c@.len() == t@.len(),
            0 <= i <= c.len(),
            forall|j: int| 0 <= j < i ==> c@[j] == t@[j],
        decreases c.len() - i,
    {
        if c[i] != t[i] {
            return false;
        }
        i = i + 1;
    }
    assert(c@ =~= t@);
    true
}

/// The components `cs` with `.` and `..` resolved by the text alone.
pub fn normalize_components(cs: &Vec<Vec<char>>) -> (res: Vec<Vec<char>>)
    ensures
        texts(res@) == normalized(texts(cs@)),
{
    let ghost t = texts(cs@);
    let mut acc: Vec<Vec<char>> = Vec::new();
    let mut i: usize = 0;
    assert(texts(acc@) =~= seq![]);
    while i < cs.len()
        invariant
            0 <= i <= cs.len(),
            t == texts(cs@),
            texts(acc@) == normalize_upto(t, i as nat),
        decreases cs.len() - i,
    {
        let c = &cs[i];
        assert(t[i as int] == c@);
        let ghost before = acc@;
        let dot = ['.'];
        let dotdot = ['.', '.'];
        let root = ['/'];
        assert(dot@ =~= seq!['.']);
        assert(dotdot@ =~= seq!['.', '.']);
        assert(root@ =~= seq!['/']);
        if is_text(c, &dot) {
        } else if is_text(c, &dotdot) {
            if acc.len() == 0 || is_text(&acc[acc.len() - 1], &dotdot) {
                acc.push(c.clone());
                assert(texts(acc@) =~= texts(before).push(c@));
            } else if is_text(&acc[acc.len() - 1], &root) {
            } else {
                acc.pop();
                assert(texts(acc@) =~= texts(before).drop_last());
            }
        } else {
            acc.push(c.clone());
            assert(texts(acc@) =~= texts(before).push(c@));
        }
        i = i + 1;
    }
    acc
}

/// Whether `path` lies under `root` once `.` and `..` are resolved in both.
pub fn is_within_root(path: &str, root: &str) -> (res: bool)
    ensures
        res == within_root(path@, root@),
{
    let p = chars_of(path);
    let r = chars_of(root);
    let pc = path_components(&p);
    let rc = path_components(&r);
    let pn = normalize_components(&pc);
    let rn = normalize_components(&rc);
    components_prefix(&rn, &pn)
}

/// Whether some component of `comps`, from index `start` on, is a
/// default-excluded directory name.
pub open spec fn has_excluded_from(comps: Seq<Seq<char>>, start: int) -> bool {
    exists|k: int| start <= k < comps.len() && is_excluded_name(#[trigger] comps[k])
}

/// Whether some component from index `start` on is a default-excluded name.
pub fn any_excluded_from(comps: &Vec<Vec<char>>, start: usize) -> (res: bool)
    ensures
        res == has_excluded_from(texts(comps@), start as int),
{
    let mut k = start;
    while k < comps.len()
        invariant
            start <= k,
            forall|j: int| start <= j < k && j < comps.len() ==> !is_excluded_name(
                #[trigger] texts(comps@)[j],
            ),
        decreases comps.len() - k,
    {
        if excluded_name(&comps[k]) {
            assert(is_excluded_name(texts(comps@)[k as int]));
            return true;
        }
        k = k + 1;
    }
    false
}

/// The first component of `path_text`, or the empty text when it has none.
pub open spec fn first_component_of(path_text: Seq<char>) -> Seq<char> {
    if components(path_text).len() > 0 {
        components(path_text)[0]
    } else {
        seq![]
    }
}

/// The first component of `path_text`, or the empty text.
pub fn first_component(path_text: &str) -> (res: String)
    ensures
        res@ == first_component_of(path_text@),
{
    let cs = chars_of(path_text);
    let comps = path_components(&cs);
    if comps.len() > 0 {
        string_of(&comps[0])
    } else {
        String::new()
    }
}

/// Whether an artifact at `candidate` falls in a default-excluded directory
/// below `root`: never when the artifact's own path text starts with such a
/// directory, never when `candidate` is not under `root`.
pub open spec fn skip_default_excluded(
    path_text: Seq<char>,
    candidate: Seq<char>,
    root: Seq<char>,
) -> bool {
    &&& !is_excluded_name(first_component_of(path_text))
    &&& path_starts_with(candidate, root)
    &&& has_excluded_from(components(candidate), components(root).len() as int)
}

/// Whether the artifact at `candidate` is to be left out because it lies in a
/// default-excluded directory below `root`.
pub fn should_skip_default_excluded(path_text: &str, candidate: &str, root: &str) -> (res: bool)
    ensures
        res == skip_default_excluded(path_text@, candidate@, root@),
{
    let pt = chars_of(path_text);
    let ptc = path_components(&pt);
    if ptc.len() > 0 {
        assert(texts(ptc@)[0] == ptc@[0]@);
        if excluded_name(&ptc[0]) {
            return false;
        }
    } else {
        proof {
            lemma_empty_not_excluded();
        }
    }
    let c = chars_of(candidate);
    let r = chars_of(root);
    let cc = path_components(&c);
    let rc = path_components(&r);
    if !components_prefix(&rc, &cc) {
        return false;
    }
    assert(texts(rc@).len() == rc@.len());
    any_excluded_from(&cc, rc.len())
}

/// Whether `s` is an absolute Unix path text.
pub open spec fn is_absolute(s: Seq<char>) -> bool {
    s.len() > 0 && s[0] == '/'
}

/// `base` joined with `p` (`Path::join`): an absolute `p` replaces `base`,
/// otherwise a separator is put between them when `base` does not end in one.
pub open spec fn join(base: Seq<char>, p: Seq<char>) -> Seq<char> {
    if is_absolute(p) {
        p
    } else if base.len() == 0 || base.last() == '/' {
        base + p
    } else {
        base + seq!['/'] + p
    }
}

/// `base` joined with `p`, on character vectors.
pub fn join_chars(base: &Vec<char>, p: &Vec<char>) -> (res: Vec<char>)
    ensures
        res@ == join(base@, p@),
{
    let mut out: Vec<char> = Vec::new();
    if p.len() > 0 && p[0] == '/' {
        push_all(&mut out, p);
        assert(out@ =~= p@);
        return out;
    }
    push_all(&mut out, base);
    if base.len() > 0 && base[base.len() - 1] != '/' {
        out.push('/');
    }
    push_all(&mut out, p);
    assert(out@ =~= join(base@, p@));
    out
}

/// `base` joined with `p`.
pub fn join_path(base: &str, p: &str) -> (res: String)
    ensures
        res@ == join(base@, p@),
{
    let b = chars_of(base);
    let q = chars_of(p);
    let j = join_chars(&b, &q);
    string_of(&j)
}

/// Whether a component text is a name (not the root, `.` or `..`).
pub open spec fn is_normal_component(c: Seq<char>) -> bool {
    c != seq!['/'] && c != seq!['.'] && c != seq!['.', '.']
}

/// The last component of `s` when it is a name (`Path::file_name`).
pub open spec fn file_name(s: Seq<char>) -> Option<Seq<char>> {
    let comps = components(s);
    if comps.len() > 0 && is_normal_component(comps.last()) {
        Some(comps.last())
    } else {
        None
    }
}

fn is_normal_component_exec(c: &Vec<char>) -> (res: bool)
    ensures
        res == is_normal_component(c@),
{
    let root = vec!['/'];
    let cur = vec!['.'];
    let parent = vec!['.', '.'];
    assert(root@ =~= seq!['/']);
    assert(cur@ =~= seq!['.']);
    assert(parent@ =~= seq!['.', '.']);
    !chars_eq(c, &root) && !chars_eq(c, &cur) && !chars_eq(c, &parent)
}

/// The last component of `s` when it is a name.
pub fn file_name_chars(s: &Vec<char>) -> (res: Option<Vec<char>>)
    ensures
        res matches Some(n) ==> file_name(s@) == Some(n@),
        res is None ==> file_name(s@) is None,
{
    let comps = path_components(s);
    if comps.len() > 0 && is_normal_component_exec(&comps[comps.len() - 1]) {
        Some(comps[comps.len() - 1].clone())
    } else {
        None
    }
}

/// The position of the last `.` in `name`, if any.
pub open spec fn last_dot(name: Seq<char>) -> Option<int>
    decreases name.len(),
{
    if name.len() == 0 {
        None
    } else if name.last() == '.' {
        Some(name.len() - 1)
    } else {
        last_dot(name.drop_last())
    }
}

/// The stem and the extension of a file name (`Path::file_stem`,
/// `Path::extension`): split at the last `.`, unless there is none or the only
/// one starts the name.
pub open spec fn split_stem_ext(name: Seq<char>) -> (Seq<char>, Option<Seq<char>>) {
    match last_dot(name) {
        Some(p) => if p > 0 {
            (name.subrange(0, p), Some(name.subrange(p + 1, name.len() as int)))
        } else {
            (name, None)
        },
        None => (name, None),
    }
}

proof fn lemma_last_dot_is(name: Seq<char>, p: int)
    requires
        0 <= p < name.len(),
        name[p] == '.',
        forall|j: int| p < j < name.len() ==> name[j] != '.',
    ensures
        last_dot(name) == Some(p),
    decreases name.len(),
{
    if p < name.len() - 1 {
        lemma_last_dot_is(name.drop_last(), p);
    }
}

proof fn lemma_last_dot_none(name: Seq<char>)
    requires
        forall|j: int| 0 <= j < name.len() ==> name[j] != '.',
    ensures
        last_dot(name) is None,
    decreases name.len(),
{
    if name.len() > 0 {
        lemma_last_dot_none(name.drop_last());
    }
}

/// The stem and the extension of a file name.
pub fn split_stem_ext_chars(name: &Vec<char>) -> (res: (Vec<char>, Option<Vec<char>>))
    ensures
        res.0@ == split_stem_ext(name@).0,
        res.1 matches Some(e) ==> split_stem_ext(name@).1 == Some(e@),
        res.1 is None ==> split_stem_ext(name@).1 is None,
{
    let mut k: usize = name.len();
    while k > 0 && name[k - 1] != '.'
        invariant
            0 <= k <= name.len(),
            forall|j: int| k <= j < name.len() ==> name@[j] != '.',
        decreases k,
    {
        k = k - 1;
    }
    if k == 0 {
        proof {
            lemma_last_dot_none(name@);
        }
        (name.clone(), None)
    } else {
        proof {
            lemma_last_dot_is(name@, k - 1);
        }
        if k - 1 == 0 {
            (name.clone(), None)
        } else {
            (slice_chars(name, 0, k - 1), Some(slice_chars(name, k, name.len())))
        }
    }
}

/// Error text of `regex::Regex::new` for a pattern that it refuses.
pub uninterp spec fn regex_error_text(pattern: Seq<char>) -> Seq<char>;

/// Whether `regex::Regex::new` accepts a pattern.
pub uninterp spec fn regex_compiles(pattern: Seq<char>) -> bool;

/// What `regex::Regex::is_match` answers for a compiled pattern and a text.
pub uninterp spec fn regex_is_match(pattern: Seq<char>, text: Seq<char>) -> bool;

/// A character that artifact names may hold: an ASCII letter or digit, `_`,
/// `.` or `-`.
pub open spec fn is_name_char(c: char) -> bool {
    ('A' <= c && c <= 'Z') || ('a' <= c && c <= 'z') || ('0' <= c && c <= '9') || c == '_' || c
        == '.' || c == '-'
}

/// Whether `name` matches `ARTIFACT_NAME_RE`: one or more name characters
/// and nothing else.
pub open spec fn is_valid_artifact_name(name: Seq<char>) -> bool {
    name.len() > 0 && forall|i: int| 0 <= i < name.len() ==> is_name_char(#[trigger] name[i])
}

/// Compiles `pattern` with `regex::Regex::new`, then asks `Regex::is_match`
/// of `text`; an error of `Regex::new` comes back as its display text. In
/// general the contract claims only that the outcome is a function of the
/// pattern and the text. For the artifact-name pattern the regex syntax
/// documentation fixes the answer: `^` and `$` anchor at the ends of the
/// text, the class lists ASCII ranges and the literal `_`, `.` and `-`, and
/// `+` asks for one or more; so the pattern compiles and matches exactly
/// the texts of one or more such characters.
#[verifier::external_body]
fn regex_full_match(pattern: &str, text: &str) -> (res: Result<bool, String>)
    ensures
        res is Ok <==> regex_compiles(pattern@),
        res matches Ok(b) ==> b == regex_is_match(pattern@, text@),
        res matches Err(e) ==> e@ == regex_error_text(pattern@),
        res is Err ==> pattern@ != ARTIFACT_NAME_RE@,
        res matches Ok(b) ==> (pattern@ == ARTIFACT_NAME_RE@ ==> b == is_valid_artifact_name(text@)),
{
    match regex::Regex::new(pattern) {
        Ok(re) => Ok(re.is_match(text)),
        Err(e) => Err(e.to_string()),
    }
}

/// Error text for an artifact name that the pattern refuses.
pub open spec fn invalid_name_message(name: Seq<char>) -> Seq<char> {
    "artifact name '"@ + name + "' is invalid; allowed chars are A-Z a-z 0-9 _ . -"@
}

/// Outcome of checking an artifact name against the name pattern.
pub open spec fn artifact_name_check(name: Seq<char>) -> Result<(), Seq<char>> {
    if is_valid_artifact_name(name) {
        Ok(())
    } else {
        Err(invalid_name_message(name))
    }
}

/// Checks an artifact name against `ARTIFACT_NAME_RE`.
pub fn validate_artifact_name(name: &str) -> (res: Result<(), String>)
    ensures
        match (res, artifact_name_check(name@)) {
            (Ok(()), Ok(())) => true,
            (Err(e), Err(m)) => e@ == m,
            _ => false,
        },
{
    match regex_full_match(ARTIFACT_NAME_RE, name) {
        Err(e) => Err(concat2("invalid regex: ", e.as_str())),
        Ok(true) => Ok(()),
        Ok(false) => Err(
            message_with(
                "artifact name '",
                name,
                "' is invalid; allowed chars are A-Z a-z 0-9 _ . -",
            ),
        ),
    }
}

} // verus!
