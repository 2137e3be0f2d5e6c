//! Naming a run, checksumming its archive, and laying out the archive's
//! members: which file goes in under which name.

use sha2::Digest;
use vstd::prelude::*;

use crate::collect::{ArtifactStatus, CollectedArtifact, CollectedView, collected_views, strs};
use crate::manifest::Manifest;
use crate::paths::{
    any_excluded_from, components, components_prefix, file_name, file_name_chars,
    has_excluded_from, is_absolute, is_plain_segment, is_prefix, is_valid_artifact_name, join,
    join_chars, lemma_components_plain, path_components, path_starts_with, relative_components,
    split_stem_ext, split_stem_ext_chars, texts,
};
use crate::text::{chars_of, decimal, push_all, push_decimal, push_str, string_of};

verus! {

/// Whether `c` is an ASCII decimal digit.
pub open spec fn is_digit(c: char) -> bool {
    48 <= (c as u32) <= 57
}

/// The number that two digits at `i` and `i + 1` of `t` spell.
pub open spec fn two_digit_value(t: Seq<char>, i: int) -> int {
    ((t[i] as u32) - 48) * 10 + ((t[i + 1] as u32) - 48)
}

/// Two digits at `i` and `i + 1` of `t` that spell a number in `lo..=hi`.
pub open spec fn two_digits_in(t: Seq<char>, i: int, lo: int, hi: int) -> bool {
    is_digit(t[i]) && is_digit(t[i + 1]) && lo <= two_digit_value(t, i) <= hi
}

/// A year as chrono's `%Y` writes it: four digits, or a sign and at least
/// four digits.
pub open spec fn is_year_text(y: Seq<char>) -> bool {
    ||| y.len() == 4 && forall|i: int| 0 <= i < 4 ==> is_digit(#[trigger] y[i])
    ||| y.len() >= 5 && (y[0] == '+' || y[0] == '-') && forall|i: int|
        1 <= i < y.len() ==> is_digit(#[trigger] y[i])
}

/// The shape of `%Y%m%d_%H%M%S`: a year, then month, day, `_`, hour, minute
/// and second, each as two digits in its range.
pub open spec fn is_compact_timestamp(t: Seq<char>) -> bool {
    let n = t.len() as int;
    &&& n >= 15
    &&& is_year_text(t.subrange(0, n - 11))
    &&& two_digits_in(t, n - 11, 1, 12)
    &&& two_digits_in(t, n - 9, 1, 31)
    &&& t[n - 7] == '_'
    &&& two_digits_in(t, n - 6, 0, 23)
    &&& two_digits_in(t, n - 4, 0, 59)
    &&& two_digits_in(t, n - 2, 0, 60)
}

/// The local time as `chrono::Local::now().format("%Y%m%d_%H%M%S")` writes
/// it. The contract states only the shape that chrono documents for these
/// fields; which time it is depends on the clock.
#[verifier::external_body]
pub fn make_timestamp() -> (res: String)
    ensures
        is_compact_timestamp(res@),
{
    chrono::Local::now().format("%Y%m%d_%H%M%S").to_string()
}

/// The run id of a run named `run_name` at the time `timestamp`.
pub open spec fn run_id_of(run_name: Seq<char>, timestamp: Seq<char>) -> Seq<char> {
    run_name + seq!['_'] + timestamp
}

/// The run id: the run name and a timestamp joined by `_`; the current local
/// time when no timestamp is given.
pub fn run_id_for_run(run_name: &str, timestamp: Option<&str>) -> (res: String)
    ensures
        timestamp is None ==> res@.len() >= run_name@.len() + 16,
        timestamp matches Some(t) ==> res@ == run_id_of(run_name@, t@),
        timestamp is None ==> exists|t: Seq<char>|
            is_compact_timestamp(t) && res@ == run_id_of(run_name@, t),
{
    let mut out: Vec<char> = Vec::new();
    push_str(&mut out, run_name);
    out.push('_');
    match timestamp {
        Some(v) => {
            push_str(&mut out, v);
        },
        None => {
            let t = make_timestamp();
            push_str(&mut out, t.as_str());
            assert(out@ =~= run_id_of(run_name@, t@));
        },
    }
    assert(timestamp matches Some(t) ==> out@ =~= run_id_of(run_name@, t@));
    string_of(&out)
}

/// The SHA-256 digest of a byte sequence.
pub uninterp spec fn sha256_of(data: Seq<u8>) -> Seq<u8>;

/// The SHA-256 digest of `data` (`sha2::Sha256::digest`), which is 32 bytes
/// long. What the digest is, beyond being a function of the bytes, is not
/// stated.
#[verifier::external_body]
fn sha256_digest(data: &[u8]) -> (res: Vec<u8>)
    ensures
        res@ == sha256_of(data@),
        res@.len() == 32,
{
    sha2::Sha256::digest(data).to_vec()
}

/// The lower-case hexadecimal digit for `n`.
pub open spec fn hex_digit(n: int) -> char {
    if n < 10 {
        crate::text::digit_char(n)
    } else if n == 10 {
        'a'
    } else if n == 11 {
        'b'
    } else if n == 12 {
        'c'
    } else if n == 13 {
        'd'
    } else if n == 14 {
        'e'
    } else {
        'f'
    }
}

/// Bytes as lower-case hexadecimal, two digits per byte, high nibble first.
pub open spec fn hex_lower(bytes: Seq<u8>) -> Seq<char>
    decreases bytes.len(),
{
    if bytes.len() == 0 {
        seq![]
    } else {
        hex_lower(bytes.drop_last()) + seq![
            hex_digit(bytes.last() as int / 16),
            hex_digit(bytes.last() as int % 16),
        ]
    }
}

/// Hexadecimal text has two characters per byte.
pub proof fn lemma_hex_lower_len(bytes: Seq<u8>)
    ensures
        hex_lower(bytes).len() == 2 * bytes.len(),
    decreases bytes.len(),
{
    if bytes.len() > 0 {
        lemma_hex_lower_len(bytes.drop_last());
    }
}

/// Whether `c` is a lower-case hexadecimal digit: `0`-`9` or `a`-`f`.
pub open spec fn is_lower_hex_char(c: char) -> bool {
    ('0' <= c && c <= '9') || ('a' <= c && c <= 'f')
}

/// Law: hexadecimal text is made of lower-case hexadecimal digits only.
pub proof fn lemma_hex_lower_alphabet(bytes: Seq<u8>)
    ensures
        forall|i: int| 0 <= i < hex_lower(bytes).len() ==> is_lower_hex_char(#[trigger] hex_lower(bytes)[i]),
    decreases bytes.len(),
{
    if bytes.len() > 0 {
        lemma_hex_lower_alphabet(bytes.drop_last());
        let prev = hex_lower(bytes.drop_last());
        let hi = bytes.last() as int / 16;
        let lo = bytes.last() as int % 16;
        assert forall|d: int| 0 <= d < 16 implies is_lower_hex_char(#[trigger] hex_digit(d)) by {
            if d < 10 {
                assert(d == 0 || d == 1 || d == 2 || d == 3 || d == 4 || d == 5 || d == 6 || d == 7
                    || d == 8 || d == 9);
            }
        }
        let h = hex_lower(bytes);
        assert(h == prev + seq![hex_digit(hi), hex_digit(lo)]);
        assert forall|i: int| 0 <= i < h.len() implies is_lower_hex_char(#[trigger] h[i]) by {
            if i < prev.len() {
                assert(h[i] == prev[i]);
            } else if i == prev.len() {
                assert(h[i] == hex_digit(hi));
            } else {
                assert(h[i] == hex_digit(lo));
            }
        }
    }
}

fn hex_digit_exec(n: u8) -> (c: char)
    requires
        n < 16,
    ensures
        c == hex_digit(n as int),
{
    if n < 10 {
        let v = vec!['0', '1', '2', '3', '4', '5', '6', '7', '8', '9'];
        assert(v@[n as int] == crate::text::digit_char(n as int));
        v[n as usize]
    } else if n == 10 {
        'a'
    } else if n == 11 {
        'b'
    } else if n == 12 {
        'c'
    } else if n == 13 {
        'd'
    } else if n == 14 {
        'e'
    } else {
        'f'
    }
}

/// Bytes as lower-case hexadecimal.
pub fn to_hex_lower(bytes: &Vec<u8>) -> (res: String)
    ensures
        res@ == hex_lower(bytes@),
{
    let mut out: Vec<char> = Vec::new();
    let mut i: usize = 0;
    while i < bytes.len()
        invariant
            0 <= i <= bytes.len(),
            out@ == hex_lower(bytes@.take(i as int)),
        decreases bytes.len() - i,
    {
        let b = bytes[i];
        out.push(hex_digit_exec(b / 16));
        out.push(hex_digit_exec(b % 16));
        proof {
            assert(bytes@.take(i + 1).drop_last() =~= bytes@.take(i as int));
            assert(bytes@.take(i + 1).last() == b);
        }
        i = i + 1;
        assert(out@ =~= hex_lower(bytes@.take(i as int)));
    }
    assert(bytes@.take(i as int) =~= bytes@);
    string_of(&out)
}

/// The checksum of an archive's bytes: the SHA-256 digest in lower-case
/// hexadecimal, and the number of bytes.
pub fn compute_sha256(data: &[u8]) -> (res: (String, u64))
    ensures
        res.0@ == hex_lower(sha256_of(data@)),
        res.0@.len() == 64,
        forall|i: int| 0 <= i < 64 ==> is_lower_hex_char(#[trigger] res.0@[i]),
        res.1 == data@.len(),
{
    let digest = sha256_digest(data);
    proof {
        lemma_hex_lower_len(digest@);
        lemma_hex_lower_alphabet(digest@);
    }
    (to_hex_lower(&digest), data.len() as u64)
}

/// The line of a `.sha256` file: the digest, two spaces, the archive's file
/// name (or `archive` when its path has none), and a line break.
pub open spec fn sha256_line_of(sha256: Seq<char>, archive_path: Seq<char>) -> Seq<char> {
    let name = match file_name(archive_path) {
        Some(n) => n,
        None => "archive"@,
    };
    sha256 + seq![' ', ' '] + name + seq!['\n']
}

/// The line written to the `.sha256` file beside an archive.
pub fn sha256_line(sha256: &str, archive_path: &str) -> (res: String)
    ensures
        res@ == sha256_line_of(sha256@, archive_path@),
{
    let mut out: Vec<char> = Vec::new();
    push_str(&mut out, sha256);
    out.push(' ');
    out.push(' ');
    let p = chars_of(archive_path);
    match file_name_chars(&p) {
        Some(n) => push_all(&mut out, &n),
        None => push_str(&mut out, "archive"),
    }
    out.push('\n');
    assert(out@ =~= sha256_line_of(sha256@, archive_path@));
    string_of(&out)
}


/// The stem and the suffix that a taken name is numbered between: the file
/// stem and extension of its file name, or the whole name and no suffix when
/// it has no file name.
pub open spec fn stem_and_suffix(base: Seq<char>) -> (Seq<char>, Seq<char>) {
    match file_name(base) {
        Some(n) => (
            split_stem_ext(n).0,
            match split_stem_ext(n).1 {
                Some(e) => e,
                None => seq![],
            },
        ),
        None => (base, seq![]),
    }
}

/// The `idx`-th alternative name: `{stem}_{idx}`, then `.{suffix}` when there
/// is a suffix.
pub open spec fn numbered_name(stem: Seq<char>, suffix: Seq<char>, idx: nat) -> Seq<char> {
    if suffix.len() == 0 {
        stem + seq!['_'] + decimal(idx)
    } else {
        stem + seq!['_'] + decimal(idx) + seq!['.'] + suffix
    }
}

/// `k` is the first index from 1 on whose alternative name is free.
pub open spec fn is_first_free(stem: Seq<char>, suffix: Seq<char>, used: Seq<Seq<char>>, k: nat) -> bool {
    &&& k >= 1
    &&& !used.contains(numbered_name(stem, suffix, k))
    &&& forall|j: nat| 1 <= j < k ==> used.contains(#[trigger] numbered_name(stem, suffix, j))
}

/// The name that `base` gets among the names in `used`: `base` itself when
/// free, else its first free numbered alternative.
pub open spec fn unique_name_of(base: Seq<char>, used: Seq<Seq<char>>) -> Seq<char> {
    if !used.contains(base) {
        base
    } else {
        let (stem, suffix) = stem_and_suffix(base);
        numbered_name(stem, suffix, choose|k: nat| is_first_free(stem, suffix, used, k))
    }
}

proof fn lemma_decimal_nonempty(n: nat)
    ensures
        decimal(n).len() >= 1,
        n >= 10 ==> decimal(n).len() >= 2,
    decreases n,
{
    if n >= 10 {
        lemma_decimal_nonempty(n / 10);
    }
}

proof fn lemma_digit_char_injective(x: int, y: int)
    requires
        0 <= x < 10,
        0 <= y < 10,
        crate::text::digit_char(x) == crate::text::digit_char(y),
    ensures
        x == y,
{
}

/// Distinct numbers have distinct decimal renderings.
pub proof fn lemma_decimal_injective(a: nat, b: nat)
    requires
        decimal(a) == decimal(b),
    ensures
        a == b,
    decreases a,
{
    lemma_decimal_nonempty(a);
    lemma_decimal_nonempty(b);
    if a >= 10 && b >= 10 {
        assert(decimal(a) == decimal(a / 10).push(crate::text::digit_char((a % 10) as int)));
        assert(decimal(b) == decimal(b / 10).push(crate::text::digit_char((b % 10) as int)));
        assert(decimal(a).last() == decimal(b).last());
        assert(decimal(a).drop_last() =~= decimal(a / 10));
        assert(decimal(b).drop_last() =~= decimal(b / 10));
        lemma_decimal_injective(a / 10, b / 10);
        let da = crate::text::digit_char((a % 10) as int);
        let db = crate::text::digit_char((b % 10) as int);
        assert(decimal(a).last() == da);
        assert(decimal(b).last() == db);
        lemma_digit_char_injective((a % 10) as int, (b % 10) as int);
    } else if a < 10 && b < 10 {
        assert(decimal(a) == seq![crate::text::digit_char(a as int)]);
        assert(decimal(b) == seq![crate::text::digit_char(b as int)]);
        assert(decimal(a)[0] == decimal(b)[0]);
        assert(decimal(a)[0] == crate::text::digit_char(a as int));
        assert(decimal(b)[0] == crate::text::digit_char(b as int));
        lemma_digit_char_injective(a as int, b as int);
    } else {
        assert(decimal(a).len() != decimal(b).len());
    }
}

/// Distinct indices give distinct alternative names.
pub proof fn lemma_numbered_name_injective(stem: Seq<char>, suffix: Seq<char>, a: nat, b: nat)
    requires
        numbered_name(stem, suffix, a) == numbered_name(stem, suffix, b),
    ensures
        a == b,
{
    let na = numbered_name(stem, suffix, a);
    let nb = numbered_name(stem, suffix, b);
    let start: int = stem.len() as int + 1;
    assert(na.len() == nb.len());
    assert(decimal(a).len() == decimal(b).len());
    assert(na.subrange(start, start + decimal(a).len()) =~= decimal(a));
    assert(nb.subrange(start, start + decimal(b).len()) =~= decimal(b));
    lemma_decimal_injective(a, b);
}

proof fn lemma_first_free_unique(
    stem: Seq<char>,
    suffix: Seq<char>,
    used: Seq<Seq<char>>,
    k1: nat,
    k2: nat,
)
    requires
        is_first_free(stem, suffix, used, k1),
        is_first_free(stem, suffix, used, k2),
    ensures
        k1 == k2,
{
    if k1 < k2 {
        assert(used.contains(numbered_name(stem, suffix, k1)));
    } else if k2 < k1 {
        assert(used.contains(numbered_name(stem, suffix, k2)));
    }
}

proof fn lemma_first_free_from(
    stem: Seq<char>,
    suffix: Seq<char>,
    used: Seq<Seq<char>>,
    idx: nat,
    seen: Set<Seq<char>>,
) -> (k: nat)
    requires
        1 <= idx <= used.len() + 1,
        forall|j: nat| 1 <= j < idx ==> used.contains(#[trigger] numbered_name(stem, suffix, j)),
        seen.finite(),
        seen.len() == idx - 1,
        seen.subset_of(used.to_set()),
        forall|x: Seq<char>|
            seen.contains(x) ==> exists|j: nat| 1 <= j < idx && x == numbered_name(stem, suffix, j),
    ensures
        is_first_free(stem, suffix, used, k),
    decreases used.len() + 1 - idx,
{
    let c = numbered_name(stem, suffix, idx);
    if !used.contains(c) {
        idx
    } else {
        if seen.contains(c) {
            let j = choose|j: nat| 1 <= j < idx && c == numbered_name(stem, suffix, j);
            lemma_numbered_name_injective(stem, suffix, j, idx);
        }
        let seen2 = seen.insert(c);
        vstd::set_lib::lemma_len_subset(seen2, used.to_set());
        used.lemma_cardinality_of_set();
        assert forall|x: Seq<char>| seen2.contains(x) implies exists|j: nat|
            1 <= j < idx + 1 && x == numbered_name(stem, suffix, j) by {
            if x != c {
                let j = choose|j: nat| 1 <= j < idx && x == numbered_name(stem, suffix, j);
                assert(1 <= j < idx + 1);
            }
        }
        lemma_first_free_from(stem, suffix, used, idx + 1, seen2)
    }
}

/// Law: among finitely many taken names there is always a first free
/// numbered alternative.
pub proof fn lemma_first_free_exists(stem: Seq<char>, suffix: Seq<char>, used: Seq<Seq<char>>)
    ensures
        exists|k: nat| is_first_free(stem, suffix, used, k),
{
    let k = lemma_first_free_from(stem, suffix, used, 1, Set::empty());
}

/// Law: the name given to a member is never one already taken, and is the
/// member's own name whenever that is free.
pub proof fn lemma_unique_name_fresh(base: Seq<char>, used: Seq<Seq<char>>)
    ensures
        !used.contains(unique_name_of(base, used)),
        !used.contains(base) ==> unique_name_of(base, used) == base,
{
    let (stem, suffix) = stem_and_suffix(base);
    lemma_first_free_exists(stem, suffix, used);
}

fn contains_name(used: &Vec<String>, name: &String) -> (res: bool)
    ensures
        res == crate::collect::strs(used@).contains(name@),
{
    let mut k: usize = 0;
    while k < used.len()
        invariant
            0 <= k <= used.len(),
            forall|j: int| 0 <= j < k ==> used@[j]@ != name@,
        decreases used.len() - k,
    {
        if used[k] == *name {
            assert(crate::collect::strs(used@)[k as int] == name@);
            return true;
        }
        k = k + 1;
    }
    assert forall|j: int| 0 <= j < crate::collect::strs(used@).len() implies crate::collect::strs(
        used@,
    )[j] != name@ by {
        assert(crate::collect::strs(used@)[j] == used@[j]@);
    }
    false
}

fn numbered_name_exec(stem: &Vec<char>, suffix: &Vec<char>, idx: u128) -> (res: String)
    ensures
        res@ == numbered_name(stem@, suffix@, idx as nat),
{
    let mut out: Vec<char> = Vec::new();
    push_all(&mut out, stem);
    out.push('_');
    push_decimal(&mut out, idx);
    if suffix.len() > 0 {
        out.push('.');
        push_all(&mut out, suffix);
    }
    assert(out@ =~= numbered_name(stem@, suffix@, idx as nat));
    string_of(&out)
}

/// The name that `base` gets among the names taken so far, which is then
/// taken too: `base` when free, else `{stem}_{n}` (with `.{suffix}` when the
/// name has an extension) for the least `n >= 1` that is free. The taken
/// names are kept as a vector in which, as `lemma_member_names_distinct`
/// shows, no name occurs twice.
pub fn unique_name(base: &str, used: &mut Vec<String>) -> (res: String)
    ensures
        res@ == unique_name_of(base@, crate::collect::strs(old(used)@)),
        !crate::collect::strs(old(used)@).contains(res@),
        final(used)@ == old(used)@.push(res),
{
    let ghost names = crate::collect::strs(used@);
    let b = base.to_owned();
    if !contains_name(used, &b) {
        used.push(b.clone());
        return b;
    }
    let bc = chars_of(base);
    let (stem, suffix) = match file_name_chars(&bc) {
        Some(n) => {
            let (st, ext) = split_stem_ext_chars(&n);
            match ext {
                Some(e) => (st, e),
                None => (st, Vec::new()),
            }
        },
        None => (bc, Vec::new()),
    };
    assert(stem@ == stem_and_suffix(base@).0);
    assert(suffix@ =~= stem_and_suffix(base@).1);
    let mut idx: u128 = 1;
    let ghost mut seen: Set<Seq<char>> = Set::empty();
    let mut candidate = numbered_name_exec(&stem, &suffix, idx);
    while contains_name(used, &candidate)
        invariant
            names == crate::collect::strs(used@),
            1 <= idx <= used@.len() + 1,
            candidate@ == numbered_name(stem@, suffix@, idx as nat),
            forall|j: nat| 1 <= j < idx ==> names.contains(#[trigger] numbered_name(stem@, suffix@, j)),
            seen.finite(),
            seen.len() == idx - 1,
            seen.subset_of(names.to_set()),
            forall|x: Seq<char>| seen.contains(x) ==> exists|j: nat| 1 <= j < idx && x == numbered_name(stem@, suffix@, j),
        decreases used@.len() + 1 - idx,
    {
        proof {
            let c = numbered_name(stem@, suffix@, idx as nat);
            if seen.contains(c) {
                let j = choose|j: nat| 1 <= j < idx && c == numbered_name(stem@, suffix@, j);
                lemma_numbered_name_injective(stem@, suffix@, j, idx as nat);
            }
            let seen2 = seen.insert(c);
            assert(seen2.subset_of(names.to_set()));
            vstd::set_lib::lemma_len_subset(seen2, names.to_set());
            names.lemma_cardinality_of_set();
            assert(names.len() == used@.len());
            assert(idx <= used@.len());
            seen = seen2;
            assert forall|x: Seq<char>| seen.contains(x) implies exists|j: nat| 1 <= j < idx + 1 && x == numbered_name(stem@, suffix@, j) by {
                if x != c {
                    let j = choose|j: nat| 1 <= j < idx && x == numbered_name(stem@, suffix@, j);
                    assert(1 <= j < idx + 1);
                }
            }
        }
        assert(used@.len() == used.len());
        idx = idx + 1;
        candidate = numbered_name_exec(&stem, &suffix, idx);
    }
    proof {
        assert(is_first_free(stem@, suffix@, names, idx as nat));
        let k = choose|k: nat| is_first_free(stem@, suffix@, names, k);
        lemma_first_free_unique(stem@, suffix@, names, k, idx as nat);
    }
    used.push(candidate.clone());
    candidate
}


/// One entry that walking a directory yielded.
#[derive(Debug, Clone)]
pub struct WalkEntry {
    pub path: String,
    pub is_dir: bool,
}

/// What the file system says of one matched path of an artifact: whether it
/// is a file or a directory, and, for a directory, the entries that walking
/// it yields (the directory itself included).
#[derive(Debug, Clone)]
pub struct MatchedProbe {
    pub is_file: bool,
    pub is_dir: bool,
    pub walk: Vec<WalkEntry>,
}

/// The texts of archive members: source path and name inside the archive.
pub open spec fn member_texts(v: Seq<(String, String)>) -> Seq<(Seq<char>, Seq<char>)> {
    v.map_values(|m: (String, String)| (m.0@, m.1@))
}

/// Whether a file found under `root` is left out of the archive: when both
/// lie under the project root and a component of either, below the project
/// root, is a default-excluded directory name.
pub open spec fn skip_file(project_root: Seq<char>, root: Seq<char>, path: Seq<char>) -> bool {
    let n = components(project_root).len() as int;
    &&& path_starts_with(root, project_root)
    &&& path_starts_with(path, project_root)
    &&& (has_excluded_from(components(root), n) || has_excluded_from(components(path), n))
}

/// Whether a file found under `root` is left out of the archive.
pub fn should_skip_file(project_root: &str, root: &str, path: &str) -> (res: bool)
    ensures
        res == skip_file(project_root@, root@, path@),
{
    let pr = chars_of(project_root);
    let prc = path_components(&pr);
    let r = chars_of(root);
    let rc = path_components(&r);
    let p = chars_of(path);
    let pc = path_components(&p);
    if !components_prefix(&prc, &rc) {
        return false;
    }
    if !components_prefix(&prc, &pc) {
        return false;
    }
    assert(texts(prc@).len() == prc@.len());
    if any_excluded_from(&rc, prc.len()) {
        return true;
    }
    any_excluded_from(&pc, prc.len())
}

/// A path text built from components, each joined onto the ones before.
pub open spec fn components_text(cs: Seq<Seq<char>>) -> Seq<char>
    decreases cs.len(),
{
    if cs.len() == 0 {
        seq![]
    } else {
        join(components_text(cs.drop_last()), cs.last())
    }
}

/// `path` relative to `root` when it lies under it, else `path` itself.
pub open spec fn relative_text(path: Seq<char>, root: Seq<char>) -> Seq<char> {
    if path_starts_with(path, root) {
        components_text(relative_components(path, root))
    } else {
        path
    }
}

/// `path` relative to `root` when it lies under it, else `path` itself.
pub fn relative_path(path: &str, root: &str) -> (res: Vec<char>)
    ensures
        res@ == relative_text(path@, root@),
{
    let p = chars_of(path);
    let pc = path_components(&p);
    let r = chars_of(root);
    let rc = path_components(&r);
    if !components_prefix(&rc, &pc) {
        return p;
    }
    let ghost rel = relative_components(path@, root@);
    let mut out: Vec<char> = Vec::new();
    let mut k = rc.len();
    assert(texts(rc@).len() == rc@.len());
    assert(rel.take(0) =~= seq![]);
    while k < pc.len()
        invariant
            rc@.len() <= k <= pc@.len(),
            texts(pc@) == components(path@),
            texts(rc@) == components(root@),
            rel == texts(pc@).subrange(rc@.len() as int, pc@.len() as int),
            out@ == components_text(rel.take(k - rc@.len())),
        decreases pc.len() - k,
    {
        let next = join_chars(&out, &pc[k]);
        proof {
            let t = rel.take(k + 1 - rc@.len());
            assert(t.drop_last() =~= rel.take(k - rc@.len()));
            assert(t.last() == pc@[k as int]@);
        }
        out = next;
        k = k + 1;
    }
    assert(rel.take(k - rc@.len()) =~= rel);
    out
}

/// The directory inside the archive that holds an artifact's members.
pub open spec fn artifact_dir(run_name: Seq<char>, name: Seq<char>) -> Seq<char> {
    join(join(run_name, "artifacts"@), name)
}

/// The name that a member is given from its path: its file name, or
/// `fallback` when the path has none.
pub open spec fn base_name(path: Seq<char>, fallback: Seq<char>) -> Seq<char> {
    match file_name(path) {
        Some(n) => n,
        None => fallback,
    }
}

/// The members that the first `n` walk entries of a directory at `root`
/// give: every entry that is not a directory and is not skipped, under
/// `dest_dir` at its path relative to `root`.
pub open spec fn walk_members(
    entries: Seq<WalkEntry>,
    n: nat,
    root: Seq<char>,
    dest_dir: Seq<char>,
    project_root: Seq<char>,
) -> Seq<(Seq<char>, Seq<char>)>
    decreases n,
{
    if n == 0 || n > entries.len() {
        seq![]
    } else {
        let prev = walk_members(entries, (n - 1) as nat, root, dest_dir, project_root);
        let e = entries[n - 1];
        if e.is_dir || skip_file(project_root, root, e.path@) {
            prev
        } else {
            prev.push((e.path@, join(dest_dir, relative_text(e.path@, root))))
        }
    }
}

/// The members that the first `n` matched paths of a glob artifact give,
/// and the names taken after them: a file under a unique name of its own; a
/// directory's files under a unique group name.
pub open spec fn glob_members(
    matched: Seq<Seq<char>>,
    probes: Seq<MatchedProbe>,
    n: nat,
    dir: Seq<char>,
    project_root: Seq<char>,
    used: Seq<Seq<char>>,
) -> (Seq<(Seq<char>, Seq<char>)>, Seq<Seq<char>>)
    decreases n,
{
    if n == 0 || n > matched.len() {
        (seq![], used)
    } else {
        let (prev, u) = glob_members(matched, probes, (n - 1) as nat, dir, project_root, used);
        let p = matched[n - 1];
        let pr = probes[n - 1];
        if n > probes.len() {
            (prev, u)
        } else if pr.is_file {
            let name = unique_name_of(base_name(p, "file"@), u);
            (prev.push((p, join(dir, name))), u.push(name))
        } else if pr.is_dir {
            let group = unique_name_of(base_name(p, "dir"@), u);
            (
                prev + walk_members(pr.walk@, pr.walk@.len(), p, join(dir, group), project_root),
                u.push(group),
            )
        } else {
            (prev, u)
        }
    }
}

/// The members of one collected artifact, and the names taken after them.
pub open spec fn artifact_members(
    a: CollectedView,
    probes: Seq<MatchedProbe>,
    run_name: Seq<char>,
    project_root: Seq<char>,
    used: Seq<Seq<char>>,
) -> (Seq<(Seq<char>, Seq<char>)>, Seq<Seq<char>>) {
    let dir = artifact_dir(run_name, a.name);
    if a.artifact_type == "file"@ {
        if a.matched_paths.len() == 0 {
            (seq![], used)
        } else {
            let p = a.matched_paths[0];
            let name = unique_name_of(base_name(p, "file"@), used);
            (seq![(p, join(dir, name))], used.push(name))
        }
    } else if a.artifact_type == "directory"@ {
        if a.matched_paths.len() == 0 || probes.len() == 0 {
            (seq![], used)
        } else {
            (
                walk_members(
                    probes[0].walk@,
                    probes[0].walk@.len(),
                    a.matched_paths[0],
                    dir,
                    project_root,
                ),
                used,
            )
        }
    } else if a.artifact_type == "glob"@ {
        glob_members(a.matched_paths, probes, a.matched_paths.len(), dir, project_root, used)
    } else {
        (seq![], used)
    }
}

/// Adds the members that walking a directory gives.
fn add_walk_members(
    entries: &Vec<WalkEntry>,
    root: &str,
    dest_dir: &Vec<char>,
    project_root: &str,
    out: &mut Vec<(String, String)>,
)
    ensures
        member_texts(final(out)@) == member_texts(old(out)@) + walk_members(
            entries@,
            entries@.len(),
            root@,
            dest_dir@,
            project_root@,
        ),
{
    let mut i: usize = 0;
    assert(member_texts(out@) =~= member_texts(old(out)@) + seq![]);
    while i < entries.len()
        invariant
            0 <= i <= entries.len(),
            member_texts(out@) == member_texts(old(out)@) + walk_members(
                entries@,
                i as nat,
                root@,
                dest_dir@,
                project_root@,
            ),
        decreases entries.len() - i,
    {
        let e = &entries[i];
        if !e.is_dir && !should_skip_file(project_root, root, e.path.as_str()) {
            let rel = relative_path(e.path.as_str(), root);
            let dest = join_chars(dest_dir, &rel);
            let item = (e.path.clone(), string_of(&dest));
            let ghost before = out@;
            out.push(item);
            assert(member_texts(out@) =~= member_texts(before).push((item.0@, item.1@)));
        }
        i = i + 1;
    }
}

fn base_name_chars(path: &str, fallback: &str) -> (res: String)
    ensures
        res@ == base_name(path@, fallback@),
{
    let p = chars_of(path);
    match file_name_chars(&p) {
        Some(n) => string_of(&n),
        None => fallback.to_owned(),
    }
}

/// Adds the members of one collected artifact.
fn add_artifact_members(
    artifact: &CollectedArtifact,
    probes: &Vec<MatchedProbe>,
    run_name: &str,
    project_root: &str,
    used: &mut Vec<String>,
    out: &mut Vec<(String, String)>,
)
    ensures
        ({
            let (members, now_used) = artifact_members(
                artifact@,
                probes@,
                run_name@,
                project_root@,
                strs(old(used)@),
            );
            &&& member_texts(final(out)@) == member_texts(old(out)@) + members
            &&& strs(final(used)@) == now_used
        }),
{
    let rn = chars_of(run_name);
    let arts = chars_of("artifacts");
    let an = chars_of(artifact.name.as_str());
    let d1 = join_chars(&rn, &arts);
    let dir = join_chars(&d1, &an);
    let tc = chars_of(artifact.artifact_type.as_str());
    let ghost old_out = out@;
    let ghost old_used = used@;
    if crate::text::str_eq("file", &tc) {
        if artifact.matched_paths.len() > 0 {
            let p = &artifact.matched_paths[0];
            assert(strs(artifact.matched_paths@)[0] == p@);
            let base = base_name_chars(p.as_str(), "file");
            let name = unique_name(base.as_str(), used);
            let nc = chars_of(name.as_str());
            let dest = join_chars(&dir, &nc);
            let item = (p.clone(), string_of(&dest));
            out.push(item);
            assert(member_texts(out@) =~= member_texts(old_out) + seq![(item.0@, item.1@)]);
            assert(strs(used@) =~= strs(old_used).push(name@));
        } else {
            assert(member_texts(out@) =~= member_texts(old_out) + seq![]);
        }
    } else if crate::text::str_eq("directory", &tc) {
        if artifact.matched_paths.len() > 0 && probes.len() > 0 {
            let p = &artifact.matched_paths[0];
            assert(strs(artifact.matched_paths@)[0] == p@);
            add_walk_members(&probes[0].walk, p.as_str(), &dir, project_root, out);
        } else {
            assert(member_texts(out@) =~= member_texts(old_out) + seq![]);
        }
    } else if crate::text::str_eq("glob", &tc) {
        let ghost matched = strs(artifact.matched_paths@);
        let mut i: usize = 0;
        assert(member_texts(out@) =~= member_texts(old_out) + seq![]);
        while i < artifact.matched_paths.len()
            invariant
                0 <= i <= artifact.matched_paths@.len(),
                matched == strs(artifact.matched_paths@),
                dir@ == artifact_dir(run_name@, artifact.name@),
                ({
                    let (members, now_used) = glob_members(
                        matched,
                        probes@,
                        i as nat,
                        dir@,
                        project_root@,
                        strs(old_used),
                    );
                    &&& member_texts(out@) == member_texts(old_out) + members
                    &&& strs(used@) == now_used
                }),
            decreases artifact.matched_paths@.len() - i,
        {
            let p = &artifact.matched_paths[i];
            assert(matched[i as int] == p@);
            let ghost before_out = out@;
            let ghost before_used = used@;
            if i >= probes.len() {
            } else if probes[i].is_file {
                let base = base_name_chars(p.as_str(), "file");
                let name = unique_name(base.as_str(), used);
                let nc = chars_of(name.as_str());
                let dest = join_chars(&dir, &nc);
                let item = (p.clone(), string_of(&dest));
                out.push(item);
                assert(member_texts(out@) =~= member_texts(before_out).push((item.0@, item.1@)));
                assert(strs(used@) =~= strs(before_used).push(name@));
            } else if probes[i].is_dir {
                let pr = &probes[i];
                let base = base_name_chars(p.as_str(), "dir");
                let group = unique_name(base.as_str(), used);
                let gc = chars_of(group.as_str());
                let gdir = join_chars(&dir, &gc);
                add_walk_members(&pr.walk, p.as_str(), &gdir, project_root, out);
                assert(strs(used@) =~= strs(before_used).push(group@));
            }
            i = i + 1;
        }
    } else {
        assert(member_texts(out@) =~= member_texts(old_out) + seq![]);
    }
}


/// The members of the first `n` collected artifacts that were included, in
/// order, and the names taken after them; names are unique across all of
/// them.
pub open spec fn members_upto(
    arts: Seq<CollectedView>,
    listings: Seq<Vec<MatchedProbe>>,
    run_name: Seq<char>,
    project_root: Seq<char>,
    n: nat,
) -> (Seq<(Seq<char>, Seq<char>)>, Seq<Seq<char>>)
    decreases n,
{
    if n == 0 || n > arts.len() {
        (seq![], seq![])
    } else {
        let (prev, used) = members_upto(arts, listings, run_name, project_root, (n - 1) as nat);
        let a = arts[n - 1];
        if a.status != ArtifactStatus::Included {
            (prev, used)
        } else {
            let probes = if n <= listings.len() {
                listings[n - 1]@
            } else {
                seq![]
            };
            let (more, now_used) = artifact_members(a, probes, run_name, project_root, used);
            (prev + more, now_used)
        }
    }
}

/// Whether no text occurs twice in `s`.
pub open spec fn all_distinct(s: Seq<Seq<char>>) -> bool {
    forall|i: int, j: int| 0 <= i < j < s.len() ==> #[trigger] s[i] != #[trigger] s[j]
}

proof fn lemma_take_unique_name(base: Seq<char>, used: Seq<Seq<char>>)
    requires
        all_distinct(used),
    ensures
        all_distinct(used.push(unique_name_of(base, used))),
{
    let name = unique_name_of(base, used);
    lemma_unique_name_fresh(base, used);
    let u = used.push(name);
    assert forall|i: int, j: int| 0 <= i < j < u.len() implies #[trigger] u[i] != #[trigger] u[j] by {
        if j == used.len() {
            assert(u[i] == used[i]);
            assert(used.contains(used[i]));
        } else {
            assert(u[i] == used[i] && u[j] == used[j]);
        }
    }
}

proof fn lemma_glob_names_distinct(
    matched: Seq<Seq<char>>,
    probes: Seq<MatchedProbe>,
    n: nat,
    dir: Seq<char>,
    project_root: Seq<char>,
    used: Seq<Seq<char>>,
)
    requires
        all_distinct(used),
    ensures
        all_distinct(glob_members(matched, probes, n, dir, project_root, used).1),
    decreases n,
{
    if n > 0 && n <= matched.len() {
        lemma_glob_names_distinct(matched, probes, (n - 1) as nat, dir, project_root, used);
        let u = glob_members(matched, probes, (n - 1) as nat, dir, project_root, used).1;
        let p = matched[n - 1];
        if n <= probes.len() {
            if probes[n - 1].is_file {
                lemma_take_unique_name(base_name(p, "file"@), u);
            } else if probes[n - 1].is_dir {
                lemma_take_unique_name(base_name(p, "dir"@), u);
            }
        }
    }
}

proof fn lemma_artifact_names_distinct(
    a: CollectedView,
    probes: Seq<MatchedProbe>,
    run_name: Seq<char>,
    project_root: Seq<char>,
    used: Seq<Seq<char>>,
)
    requires
        all_distinct(used),
    ensures
        all_distinct(artifact_members(a, probes, run_name, project_root, used).1),
{
    if a.artifact_type == "file"@ && a.matched_paths.len() > 0 {
        lemma_take_unique_name(base_name(a.matched_paths[0], "file"@), used);
    } else if a.artifact_type != "file"@ && a.artifact_type != "directory"@ && a.artifact_type
        == "glob"@ {
        lemma_glob_names_distinct(
            a.matched_paths,
            probes,
            a.matched_paths.len(),
            artifact_dir(run_name, a.name),
            project_root,
            used,
        );
    }
}

/// Law: the file and group names that a run's archive hands out to the
/// files of `file` and `glob` artifacts and to the directories that globs
/// match are all different, across all artifacts of the run.
pub proof fn lemma_member_names_distinct(
    arts: Seq<CollectedView>,
    listings: Seq<Vec<MatchedProbe>>,
    run_name: Seq<char>,
    project_root: Seq<char>,
    n: nat,
)
    ensures
        all_distinct(members_upto(arts, listings, run_name, project_root, n).1),
    decreases n,
{
    if n > 0 && n <= arts.len() {
        lemma_member_names_distinct(arts, listings, run_name, project_root, (n - 1) as nat);
        let used = members_upto(arts, listings, run_name, project_root, (n - 1) as nat).1;
        let probes = if n <= listings.len() {
            listings[n - 1]@
        } else {
            seq![]
        };
        lemma_artifact_names_distinct(arts[n - 1], probes, run_name, project_root, used);
    }
}

proof fn lemma_glob_names_grow(
    matched: Seq<Seq<char>>,
    probes: Seq<MatchedProbe>,
    n: nat,
    dir: Seq<char>,
    project_root: Seq<char>,
    used: Seq<Seq<char>>,
)
    ensures
        is_prefix(used, glob_members(matched, probes, n, dir, project_root, used).1),
    decreases n,
{
    if n > 0 && n <= matched.len() {
        lemma_glob_names_grow(matched, probes, (n - 1) as nat, dir, project_root, used);
        let u = glob_members(matched, probes, (n - 1) as nat, dir, project_root, used).1;
        let u2 = glob_members(matched, probes, n, dir, project_root, used).1;
        assert(u2 == u || exists|x: Seq<char>| u2 == u.push(x));
        if u2 != u {
            let x = choose|x: Seq<char>| u2 == u.push(x);
            assert(u2.subrange(0, used.len() as int) =~= u.subrange(0, used.len() as int));
        }
    } else {
        assert(used.subrange(0, used.len() as int) =~= used);
    }
}

proof fn lemma_artifact_names_grow(
    a: CollectedView,
    probes: Seq<MatchedProbe>,
    run_name: Seq<char>,
    project_root: Seq<char>,
    used: Seq<Seq<char>>,
)
    ensures
        is_prefix(used, artifact_members(a, probes, run_name, project_root, used).1),
{
    assert(used.subrange(0, used.len() as int) =~= used);
    let u2 = artifact_members(a, probes, run_name, project_root, used).1;
    if a.artifact_type == "file"@ && a.matched_paths.len() > 0 {
        assert(u2.subrange(0, used.len() as int) =~= used);
    } else if a.artifact_type != "file"@ && a.artifact_type != "directory"@ && a.artifact_type
        == "glob"@ {
        lemma_glob_names_grow(
            a.matched_paths,
            probes,
            a.matched_paths.len(),
            artifact_dir(run_name, a.name),
            project_root,
            used,
        );
    }
}

/// Law: the names taken while laying out a run's archive only grow: those
/// taken for the first `m` artifacts stay taken, in order, for the first `n`
/// when `m <= n`.
pub proof fn lemma_taken_names_grow(
    arts: Seq<CollectedView>,
    listings: Seq<Vec<MatchedProbe>>,
    run_name: Seq<char>,
    project_root: Seq<char>,
    m: nat,
    n: nat,
)
    requires
        m <= n <= arts.len(),
    ensures
        is_prefix(
            members_upto(arts, listings, run_name, project_root, m).1,
            members_upto(arts, listings, run_name, project_root, n).1,
        ),
    decreases n,
{
    let um = members_upto(arts, listings, run_name, project_root, m).1;
    if m == n {
        assert(um.subrange(0, um.len() as int) =~= um);
    } else {
        lemma_taken_names_grow(arts, listings, run_name, project_root, m, (n - 1) as nat);
        let u1 = members_upto(arts, listings, run_name, project_root, (n - 1) as nat).1;
        let probes = if n <= listings.len() {
            listings[n - 1]@
        } else {
            seq![]
        };
        lemma_artifact_names_grow(arts[n - 1], probes, run_name, project_root, u1);
        let un = members_upto(arts, listings, run_name, project_root, n).1;
        assert(un.subrange(0, um.len() as int) =~= u1.subrange(0, um.len() as int));
    }
}

/// Whether `dest` lies inside the archive directory `dir`: it starts with
/// `dir` and a `/`.
pub open spec fn in_dir(dest: Seq<char>, dir: Seq<char>) -> bool {
    (dir + seq!['/']).is_prefix_of(dest)
}

proof fn lemma_join_extends(x: Seq<char>, t: Seq<char>)
    requires
        !is_absolute(t),
    ensures
        x.is_prefix_of(join(x, t)),
        x.len() > 0 && x.last() != '/' ==> in_dir(join(x, t), x),
{
    let j = join(x, t);
    assert(j.subrange(0, x.len() as int) =~= x);
    if x.len() > 0 && x.last() != '/' {
        assert(j.subrange(0, x.len() + 1int) =~= x + seq!['/']);
    }
}

proof fn lemma_in_dir_extends(x: Seq<char>, dir: Seq<char>, t: Seq<char>)
    requires
        in_dir(x, dir),
        !is_absolute(t),
    ensures
        in_dir(join(x, t), dir),
{
    lemma_join_extends(x, t);
    let d = dir + seq!['/'];
    let j = join(x, t);
    assert(j.subrange(0, d.len() as int) =~= x.subrange(0, d.len() as int));
}

proof fn lemma_components_text_relative(cs: Seq<Seq<char>>)
    requires
        forall|k: int| 0 <= k < cs.len() ==> is_plain_segment(#[trigger] cs[k]),
    ensures
        !is_absolute(components_text(cs)),
    decreases cs.len(),
{
    if cs.len() > 0 {
        lemma_components_text_relative(cs.drop_last());
        let b = components_text(cs.drop_last());
        let p = cs.last();
        assert(is_plain_segment(cs[cs.len() - 1]));
        assert(p[0] != '/');
        let j = join(b, p);
        if b.len() > 0 {
            assert(j[0] == b[0]);
        } else {
            assert(j[0] == p[0]);
        }
    }
}

proof fn lemma_relative_text_relative(path: Seq<char>, root: Seq<char>)
    requires
        path_starts_with(path, root),
        components(root).len() > 0,
    ensures
        !is_absolute(relative_text(path, root)),
{
    lemma_components_plain(path);
    lemma_components_plain(root);
    let c = components(path);
    let n = components(root).len() as int;
    let rel = relative_components(path, root);
    assert forall|k: int| 0 <= k < rel.len() implies is_plain_segment(#[trigger] rel[k]) by {
        assert(rel[k] == c[k + n]);
    }
    lemma_components_text_relative(rel);
}

proof fn lemma_base_name_relative(p: Seq<char>, fallback: Seq<char>)
    requires
        !is_absolute(fallback),
    ensures
        !is_absolute(base_name(p, fallback)),
{
    lemma_components_plain(p);
    let c = components(p);
    if c.len() > 0 && crate::paths::is_normal_component(c.last()) {
        assert(is_plain_segment(c[c.len() - 1]));
    }
}

proof fn lemma_last_dot_in(name: Seq<char>)
    ensures
        crate::paths::last_dot(name) matches Some(p) ==> 0 <= p < name.len(),
    decreases name.len(),
{
    if name.len() > 0 && name.last() != '.' {
        lemma_last_dot_in(name.drop_last());
    }
}

proof fn lemma_unique_name_relative(base: Seq<char>, used: Seq<Seq<char>>)
    requires
        !is_absolute(base),
    ensures
        !is_absolute(unique_name_of(base, used)),
{
    if used.contains(base) {
        let (stem, suffix) = stem_and_suffix(base);
        lemma_components_plain(base);
        let c = components(base);
        assert(stem.len() == 0 || stem[0] != '/') by {
            if c.len() > 0 && crate::paths::is_normal_component(c.last()) {
                let n = c.last();
                assert(is_plain_segment(c[c.len() - 1]));
                assert(n[0] != '/');
                lemma_last_dot_in(n);
                match crate::paths::last_dot(n) {
                    Some(q) => {
                        if q > 0 {
                            assert(n.subrange(0, q)[0] == n[0]);
                        }
                    },
                    None => {},
                }
            }
        }
        let k = choose|k: nat| is_first_free(stem, suffix, used, k);
        let nm = numbered_name(stem, suffix, k);
        if stem.len() > 0 {
            assert(nm[0] == stem[0]);
        } else {
            assert(nm[0] == '_');
        }
    }
}

proof fn lemma_artifact_dir_shape(run_name: Seq<char>, name: Seq<char>)
    requires
        is_valid_artifact_name(name),
    ensures
        artifact_dir(run_name, name).len() > 0,
        artifact_dir(run_name, name).last() != '/',
{
    let x = join(run_name, "artifacts"@);
    assert(crate::paths::is_name_char(name[0]));
    assert(crate::paths::is_name_char(name[name.len() - 1]));
    let j = join(x, name);
    assert(j.last() == name.last());
}

/// Whether walking under each matched path yields files under that path,
/// and no matched path is empty of components.
pub open spec fn walks_inside(probes: Seq<MatchedProbe>, matched: Seq<Seq<char>>) -> bool {
    forall|j: int|
        0 <= j < probes.len() && j < matched.len() ==> components(#[trigger] matched[j]).len() > 0
            && forall|i: int|
            0 <= i < probes[j].walk@.len() && !probes[j].walk@[i].is_dir ==> path_starts_with(
                #[trigger] probes[j].walk@[i].path@,
                matched[j],
            )
}

proof fn lemma_walk_members_in_dir(
    entries: Seq<WalkEntry>,
    n: nat,
    root: Seq<char>,
    dest_dir: Seq<char>,
    project_root: Seq<char>,
    dir: Seq<char>,
)
    requires
        dir.len() > 0,
        dir.last() != '/',
        dest_dir == dir || in_dir(dest_dir, dir),
        components(root).len() > 0,
        forall|i: int|
            0 <= i < entries.len() && !entries[i].is_dir ==> path_starts_with(
                #[trigger] entries[i].path@,
                root,
            ),
    ensures
        forall|i: int|
            0 <= i < walk_members(entries, n, root, dest_dir, project_root).len() ==> in_dir(
                #[trigger] walk_members(entries, n, root, dest_dir, project_root)[i].1,
                dir,
            ),
    decreases n,
{
    if n > 0 && n <= entries.len() {
        lemma_walk_members_in_dir(entries, (n - 1) as nat, root, dest_dir, project_root, dir);
        let prev = walk_members(entries, (n - 1) as nat, root, dest_dir, project_root);
        let e = entries[n - 1];
        let w = walk_members(entries, n, root, dest_dir, project_root);
        if !(e.is_dir || skip_file(project_root, root, e.path@)) {
            lemma_relative_text_relative(e.path@, root);
            let t = relative_text(e.path@, root);
            if dest_dir == dir {
                lemma_join_extends(dir, t);
            } else {
                lemma_in_dir_extends(dest_dir, dir, t);
            }
            assert forall|i: int| 0 <= i < w.len() implies in_dir(#[trigger] w[i].1, dir) by {
                if i < prev.len() {
                    assert(w[i] == prev[i]);
                }
            }
        }
    }
}

proof fn lemma_glob_members_in_dir(
    matched: Seq<Seq<char>>,
    probes: Seq<MatchedProbe>,
    n: nat,
    dir: Seq<char>,
    project_root: Seq<char>,
    used: Seq<Seq<char>>,
)
    requires
        dir.len() > 0,
        dir.last() != '/',
        walks_inside(probes, matched),
    ensures
        forall|i: int|
            0 <= i < glob_members(matched, probes, n, dir, project_root, used).0.len() ==> in_dir(
                #[trigger] glob_members(matched, probes, n, dir, project_root, used).0[i].1,
                dir,
            ),
    decreases n,
{
    if n > 0 && n <= matched.len() {
        lemma_glob_members_in_dir(matched, probes, (n - 1) as nat, dir, project_root, used);
        let (prev, u) = glob_members(matched, probes, (n - 1) as nat, dir, project_root, used);
        let w = glob_members(matched, probes, n, dir, project_root, used).0;
        let p = matched[n - 1];
        if n <= probes.len() {
            let pr = probes[n - 1];
            assert(components(matched[n - 1]).len() > 0);
            if pr.is_file {
                reveal_strlit("file");
                assert("file"@[0] == 'f');
                lemma_base_name_relative(p, "file"@);
                lemma_unique_name_relative(base_name(p, "file"@), u);
                lemma_join_extends(dir, unique_name_of(base_name(p, "file"@), u));
                assert forall|i: int| 0 <= i < w.len() implies in_dir(#[trigger] w[i].1, dir) by {
                    if i < prev.len() {
                        assert(w[i] == prev[i]);
                    }
                }
            } else if pr.is_dir {
                reveal_strlit("dir");
                assert("dir"@[0] == 'd');
                lemma_base_name_relative(p, "dir"@);
                let g = unique_name_of(base_name(p, "dir"@), u);
                lemma_unique_name_relative(base_name(p, "dir"@), u);
                lemma_join_extends(dir, g);
                let more = walk_members(pr.walk@, pr.walk@.len(), p, join(dir, g), project_root);
                assert forall|i: int|
                    0 <= i < pr.walk@.len() && !pr.walk@[i].is_dir implies path_starts_with(
                    #[trigger] pr.walk@[i].path@,
                    p,
                ) by {
                    assert(probes[n - 1].walk@[i] == pr.walk@[i]);
                }
                lemma_walk_members_in_dir(pr.walk@, pr.walk@.len(), p, join(dir, g), project_root, dir);
                assert forall|i: int| 0 <= i < w.len() implies in_dir(#[trigger] w[i].1, dir) by {
                    if i < prev.len() {
                        assert(w[i] == prev[i]);
                    } else {
                        assert(w[i] == more[i - prev.len()]);
                    }
                }
            }
        }
    }
}

proof fn lemma_artifact_members_in_dir(
    a: CollectedView,
    probes: Seq<MatchedProbe>,
    run_name: Seq<char>,
    project_root: Seq<char>,
    used: Seq<Seq<char>>,
)
    requires
        is_valid_artifact_name(a.name),
        walks_inside(probes, a.matched_paths),
    ensures
        forall|i: int|
            0 <= i < artifact_members(a, probes, run_name, project_root, used).0.len() ==> in_dir(
                #[trigger] artifact_members(a, probes, run_name, project_root, used).0[i].1,
                artifact_dir(run_name, a.name),
            ),
{
    let dir = artifact_dir(run_name, a.name);
    lemma_artifact_dir_shape(run_name, a.name);
    let w = artifact_members(a, probes, run_name, project_root, used).0;
    if a.artifact_type == "file"@ {
        if a.matched_paths.len() > 0 {
            let p = a.matched_paths[0];
            reveal_strlit("file");
            assert("file"@[0] == 'f');
            lemma_base_name_relative(p, "file"@);
            lemma_unique_name_relative(base_name(p, "file"@), used);
            lemma_join_extends(dir, unique_name_of(base_name(p, "file"@), used));
            assert(w[0] == (p, join(dir, unique_name_of(base_name(p, "file"@), used))));
        }
    } else if a.artifact_type == "directory"@ {
        if a.matched_paths.len() > 0 && probes.len() > 0 {
            let pr = probes[0];
            assert(components(a.matched_paths[0]).len() > 0);
            assert forall|i: int|
                0 <= i < pr.walk@.len() && !pr.walk@[i].is_dir implies path_starts_with(
                #[trigger] pr.walk@[i].path@,
                a.matched_paths[0],
            ) by {
                assert(probes[0].walk@[i] == pr.walk@[i]);
            }
            lemma_walk_members_in_dir(
                pr.walk@,
                pr.walk@.len(),
                a.matched_paths[0],
                dir,
                project_root,
                dir,
            );
        }
    } else if a.artifact_type == "glob"@ {
        lemma_glob_members_in_dir(a.matched_paths, probes, a.matched_paths.len(), dir, project_root, used);
    }
}

/// Law: the members of one artifact. A `file` artifact gives one member,
/// its first matched path, when it matched any, and none otherwise; a
/// `directory` artifact takes no name (its files keep their relative
/// paths); an artifact of another type gives nothing; and the names taken
/// only grow.
pub proof fn lemma_artifact_members_shape(
    a: CollectedView,
    probes: Seq<MatchedProbe>,
    run_name: Seq<char>,
    project_root: Seq<char>,
    used: Seq<Seq<char>>,
)
    ensures
        ({
            let (members, now_used) = artifact_members(a, probes, run_name, project_root, used);
            &&& is_prefix(used, now_used)
            &&& a.artifact_type == "file"@ ==> {
                &&& members.len() == if a.matched_paths.len() > 0 {
                    1int
                } else {
                    0int
                }
                &&& members.len() == 1 ==> members[0].0 == a.matched_paths[0]
            }
            &&& a.artifact_type == "directory"@ ==> now_used == used
            &&& a.artifact_type != "file"@ && a.artifact_type != "directory"@ && a.artifact_type
                != "glob"@ ==> members.len() == 0 && now_used == used
        }),
{
    lemma_artifact_names_grow(a, probes, run_name, project_root, used);
    reveal_strlit("file");
    reveal_strlit("directory");
    assert("file"@.len() != "directory"@.len());
}

/// What the file system says of the matched paths of the `k`-th artifact.
pub open spec fn listing_of(listings: Seq<Vec<MatchedProbe>>, k: int) -> Seq<MatchedProbe> {
    if 0 <= k < listings.len() {
        listings[k]@
    } else {
        seq![]
    }
}

/// Law: every member of a run's archive lands inside the directory
/// `{run_name}/artifacts/{name}/` of an included artifact, when the
/// artifacts have valid names and walking a matched directory yields files
/// under it (an entry outside it would keep its own absolute path).
pub proof fn lemma_members_in_artifact_dirs(
    arts: Seq<CollectedView>,
    listings: Seq<Vec<MatchedProbe>>,
    run_name: Seq<char>,
    project_root: Seq<char>,
    n: nat,
)
    requires
        n <= arts.len(),
        forall|k: int|
            0 <= k < n && (#[trigger] arts[k]).status == ArtifactStatus::Included ==> is_valid_artifact_name(arts[k].name)
                && walks_inside(listing_of(listings, k), arts[k].matched_paths),
    ensures
        forall|i: int|
            0 <= i < members_upto(arts, listings, run_name, project_root, n).0.len() ==> exists|k: int|
                0 <= k < n && (#[trigger] arts[k]).status == ArtifactStatus::Included && in_dir(
                    #[trigger] members_upto(arts, listings, run_name, project_root, n).0[i].1,
                    artifact_dir(run_name, arts[k].name),
                ),
    decreases n,
{
    if n > 0 {
        lemma_members_in_artifact_dirs(arts, listings, run_name, project_root, (n - 1) as nat);
        let (prev, used) = members_upto(arts, listings, run_name, project_root, (n - 1) as nat);
        let a = arts[n - 1];
        let m = members_upto(arts, listings, run_name, project_root, n).0;
        if a.status == ArtifactStatus::Included {
            let probes = listing_of(listings, n - 1);
            assert(probes == (if n <= listings.len() {
                listings[n - 1]@
            } else {
                seq![]
            }));
            lemma_artifact_members_in_dir(a, probes, run_name, project_root, used);
            let more = artifact_members(a, probes, run_name, project_root, used).0;
            assert forall|i: int| 0 <= i < m.len() implies exists|k: int|
                0 <= k < n && (#[trigger] arts[k]).status == ArtifactStatus::Included && in_dir(
                    #[trigger] m[i].1,
                    artifact_dir(run_name, arts[k].name),
                ) by {
                if i < prev.len() {
                    assert(m[i] == prev[i]);
                    let k = choose|k: int|
                        0 <= k < n - 1 && (#[trigger] arts[k]).status == ArtifactStatus::Included
                            && in_dir(prev[i].1, artifact_dir(run_name, arts[k].name));
                    assert(arts[k].status == ArtifactStatus::Included);
                } else {
                    assert(m[i] == more[i - prev.len()]);
                    assert(arts[n - 1].status == ArtifactStatus::Included);
                }
            }
        } else {
            assert forall|i: int| 0 <= i < m.len() implies exists|k: int|
                0 <= k < n && (#[trigger] arts[k]).status == ArtifactStatus::Included && in_dir(
                    #[trigger] m[i].1,
                    artifact_dir(run_name, arts[k].name),
                ) by {
                assert(m[i] == prev[i]);
                let k = choose|k: int|
                    0 <= k < n - 1 && (#[trigger] arts[k]).status == ArtifactStatus::Included
                        && in_dir(prev[i].1, artifact_dir(run_name, arts[k].name));
                assert(arts[k].status == ArtifactStatus::Included);
            }
        }
    }
}

/// A run file that is put into the archive beside the artifacts.
#[derive(Debug, Clone, Copy, PartialEq, Eq, Structural)]
pub enum ExtraFile {
    ManifestSnapshot,
    GitInfo,
    Metadata,
}

/// The name that an extra file has inside the archive.
pub open spec fn extra_dest(run_name: Seq<char>, kind: ExtraFile) -> Seq<char> {
    match kind {
        ExtraFile::ManifestSnapshot => run_name + "/manifest.yaml"@,
        ExtraFile::GitInfo => run_name + "/git_info.json"@,
        ExtraFile::Metadata => run_name + "/metadata.json"@,
    }
}

/// The error that adding an extra file to the archive fails with, before
/// the archive library's own message.
pub open spec fn extra_error_prefix(kind: ExtraFile) -> Seq<char> {
    match kind {
        ExtraFile::ManifestSnapshot => "append manifest failed: "@,
        ExtraFile::GitInfo => "append git_info failed: "@,
        ExtraFile::Metadata => "append metadata failed: "@,
    }
}

/// The error that adding an extra file to the archive fails with, before
/// the archive library's own message.
pub fn extra_error(kind: ExtraFile) -> (res: &'static str)
    ensures
        res@ == extra_error_prefix(kind),
{
    match kind {
        ExtraFile::ManifestSnapshot => "append manifest failed: ",
        ExtraFile::GitInfo => "append git_info failed: ",
        ExtraFile::Metadata => "append metadata failed: ",
    }
}

/// An extra file, when it is wanted and given.
pub open spec fn extra_member(
    wanted: bool,
    path: Option<&str>,
    run_name: Seq<char>,
    kind: ExtraFile,
) -> Seq<(Seq<char>, Seq<char>, ExtraFile)> {
    match path {
        Some(p) => if wanted {
            seq![(p@, extra_dest(run_name, kind), kind)]
        } else {
            seq![]
        },
        None => seq![],
    }
}

/// The extra files of a run's archive, in the order in which they are
/// added: the manifest snapshot, the git information and the metadata, each
/// when the manifest asks for it and its file is given.
pub open spec fn extras_plan(
    manifest: Manifest,
    run_name: Seq<char>,
    manifest_yaml_path: Option<&str>,
    git_info_path: Option<&str>,
    metadata_path: Option<&str>,
) -> Seq<(Seq<char>, Seq<char>, ExtraFile)> {
    extra_member(
        manifest.archive.include_manifest,
        manifest_yaml_path,
        run_name,
        ExtraFile::ManifestSnapshot,
    ) + extra_member(manifest.archive.include_git_info, git_info_path, run_name, ExtraFile::GitInfo)
        + extra_member(manifest.archive.include_metadata, metadata_path, run_name, ExtraFile::Metadata)
}

/// The texts of extra archive members.
pub open spec fn extra_texts(v: Seq<(String, String, ExtraFile)>) -> Seq<
    (Seq<char>, Seq<char>, ExtraFile),
> {
    v.map_values(|m: (String, String, ExtraFile)| (m.0@, m.1@, m.2))
}

fn add_extra(
    wanted: bool,
    path: Option<&str>,
    run_name: &str,
    kind: ExtraFile,
    out: &mut Vec<(String, String, ExtraFile)>,
)
    ensures
        extra_texts(final(out)@) == extra_texts(old(out)@) + extra_member(
            wanted,
            path,
            run_name@,
            kind,
        ),
{
    match path {
        Some(p) => {
            if wanted {
                let suffix = match kind {
                    ExtraFile::ManifestSnapshot => "/manifest.yaml",
                    ExtraFile::GitInfo => "/git_info.json",
                    ExtraFile::Metadata => "/metadata.json",
                };
                let item = (p.to_owned(), crate::text::concat2(run_name, suffix), kind);
                out.push(item);
                assert(extra_texts(out@) =~= extra_texts(old(out)@) + seq![
                    (item.0@, item.1@, item.2),
                ]);
            } else {
                assert(extra_texts(out@) =~= extra_texts(old(out)@) + seq![]);
            }
        },
        None => {
            assert(extra_texts(out@) =~= extra_texts(old(out)@) + seq![]);
        },
    }
}

/// Whether `extras` hold the extra file of one kind as asked: when it is
/// wanted and its path given, exactly one entry of that kind, taking the
/// path to `dest`; otherwise none of that kind.
pub open spec fn extra_as_asked(
    extras: Seq<(Seq<char>, Seq<char>, ExtraFile)>,
    kind: ExtraFile,
    wanted: bool,
    path: Option<&str>,
    dest: Seq<char>,
) -> bool {
    if wanted && path is Some {
        &&& exists|i: int| 0 <= i < extras.len() && extras[i] == (path->0@, dest, kind)
        &&& forall|i: int, j: int|
            0 <= i < extras.len() && 0 <= j < extras.len() && (#[trigger] extras[i]).2 == kind
                && (#[trigger] extras[j]).2 == kind ==> i == j
    } else {
        forall|i: int| 0 <= i < extras.len() ==> (#[trigger] extras[i]).2 != kind
    }
}

/// Law: the archive holds the manifest snapshot as `{run_name}/manifest.yaml`,
/// the git information as `{run_name}/git_info.json` and the metadata as
/// `{run_name}/metadata.json`, each exactly once when the manifest asks for
/// it and its file is given, and not at all otherwise.
pub proof fn lemma_extras_as_asked(
    manifest: Manifest,
    run_name: Seq<char>,
    manifest_yaml_path: Option<&str>,
    git_info_path: Option<&str>,
    metadata_path: Option<&str>,
)
    ensures
        ({
            let e = extras_plan(manifest, run_name, manifest_yaml_path, git_info_path, metadata_path);
            &&& extra_as_asked(
                e,
                ExtraFile::ManifestSnapshot,
                manifest.archive.include_manifest,
                manifest_yaml_path,
                run_name + "/manifest.yaml"@,
            )
            &&& extra_as_asked(
                e,
                ExtraFile::GitInfo,
                manifest.archive.include_git_info,
                git_info_path,
                run_name + "/git_info.json"@,
            )
            &&& extra_as_asked(
                e,
                ExtraFile::Metadata,
                manifest.archive.include_metadata,
                metadata_path,
                run_name + "/metadata.json"@,
            )
        }),
{
    let a = extra_member(manifest.archive.include_manifest, manifest_yaml_path, run_name, ExtraFile::ManifestSnapshot);
    let b = extra_member(manifest.archive.include_git_info, git_info_path, run_name, ExtraFile::GitInfo);
    let c = extra_member(manifest.archive.include_metadata, metadata_path, run_name, ExtraFile::Metadata);
    let e = extras_plan(manifest, run_name, manifest_yaml_path, git_info_path, metadata_path);
    assert(e == a + b + c);
    assert(forall|i: int| 0 <= i < a.len() ==> (#[trigger] a[i]).2 == ExtraFile::ManifestSnapshot);
    assert(forall|i: int| 0 <= i < b.len() ==> (#[trigger] b[i]).2 == ExtraFile::GitInfo);
    assert(forall|i: int| 0 <= i < c.len() ==> (#[trigger] c[i]).2 == ExtraFile::Metadata);
    assert forall|i: int| 0 <= i < e.len() implies {
        &&& (#[trigger] e[i]).2 == ExtraFile::ManifestSnapshot ==> i < a.len() && e[i] == a[i]
        &&& e[i].2 == ExtraFile::GitInfo ==> a.len() <= i < a.len() + b.len() && e[i] == b[i - a.len()]
        &&& e[i].2 == ExtraFile::Metadata ==> a.len() + b.len() <= i && e[i] == c[i - a.len() - b.len()]
    } by {
        if i < a.len() {
            assert(e[i] == a[i]);
        } else if i < a.len() + b.len() {
            assert(e[i] == b[i - a.len()]);
        } else {
            assert(e[i] == c[i - a.len() - b.len()]);
        }
    }
    if manifest.archive.include_manifest && manifest_yaml_path is Some {
        assert(e[0] == a[0]);
    }
    if manifest.archive.include_git_info && git_info_path is Some {
        assert(e[a.len() as int] == b[0]);
    }
    if manifest.archive.include_metadata && metadata_path is Some {
        assert(e[(a.len() + b.len()) as int] == c[0]);
    }
}

/// The run files put into the archive after the artifacts: the manifest
/// snapshot, git information and metadata under `{run_name}/`, each when
/// the manifest asks for it and its file is given.
pub fn archive_extras(
    manifest: &Manifest,
    run_name: &str,
    manifest_yaml_path: Option<&str>,
    git_info_path: Option<&str>,
    metadata_path: Option<&str>,
) -> (res: Vec<(String, String, ExtraFile)>)
    ensures
        extra_texts(res@) == extras_plan(
            *manifest,
            run_name@,
            manifest_yaml_path,
            git_info_path,
            metadata_path,
        ),
        extra_as_asked(
            extra_texts(res@),
            ExtraFile::ManifestSnapshot,
            manifest.archive.include_manifest,
            manifest_yaml_path,
            run_name@ + "/manifest.yaml"@,
        ),
        extra_as_asked(
            extra_texts(res@),
            ExtraFile::GitInfo,
            manifest.archive.include_git_info,
            git_info_path,
            run_name@ + "/git_info.json"@,
        ),
        extra_as_asked(
            extra_texts(res@),
            ExtraFile::Metadata,
            manifest.archive.include_metadata,
            metadata_path,
            run_name@ + "/metadata.json"@,
        ),
{
    proof {
        lemma_extras_as_asked(*manifest, run_name@, manifest_yaml_path, git_info_path, metadata_path);
    }
    let mut out: Vec<(String, String, ExtraFile)> = Vec::new();
    assert(extra_texts(out@) =~= seq![]);
    add_extra(
        manifest.archive.include_manifest,
        manifest_yaml_path,
        run_name,
        ExtraFile::ManifestSnapshot,
        &mut out,
    );
    add_extra(
        manifest.archive.include_git_info,
        git_info_path,
        run_name,
        ExtraFile::GitInfo,
        &mut out,
    );
    add_extra(
        manifest.archive.include_metadata,
        metadata_path,
        run_name,
        ExtraFile::Metadata,
        &mut out,
    );
    assert(extra_texts(out@) =~= extras_plan(
        *manifest,
        run_name@,
        manifest_yaml_path,
        git_info_path,
        metadata_path,
    ));
    out
}

/// The artifact members of a run's archive: for each included artifact
/// its files under `{run_name}/artifacts/{name}/`, with file and group
/// names unique across the run. `listings` gives, per artifact, what the
/// file system says of each matched path.
pub fn archive_members(
    artifacts: &Vec<CollectedArtifact>,
    run_name: &str,
    project_root: &str,
    listings: &Vec<Vec<MatchedProbe>>,
) -> (res: Vec<(String, String)>)
    ensures
        member_texts(res@) == members_upto(
            collected_views(artifacts@),
            listings@,
            run_name@,
            project_root@,
            artifacts@.len(),
        ).0,
{
    let ghost arts = collected_views(artifacts@);
    let mut out: Vec<(String, String)> = Vec::new();
    let mut used: Vec<String> = Vec::new();
    assert(member_texts(out@) =~= seq![]);
    assert(strs(used@) =~= seq![]);
    let mut i: usize = 0;
    while i < artifacts.len()
        invariant
            0 <= i <= artifacts@.len(),
            arts == collected_views(artifacts@),
            (member_texts(out@), strs(used@)) == members_upto(
                arts,
                listings@,
                run_name@,
                project_root@,
                i as nat,
            ),
        decreases artifacts@.len() - i,
    {
        let a = &artifacts[i];
        assert(arts[i as int] == a@);
        if a.status == ArtifactStatus::Included {
            if i < listings.len() {
                add_artifact_members(a, &listings[i], run_name, project_root, &mut used, &mut out);
            } else {
                let none: Vec<MatchedProbe> = Vec::new();
                assert(none@ =~= seq![]);
                add_artifact_members(a, &none, run_name, project_root, &mut used, &mut out);
            }
        }
        i = i + 1;
    }
    out
}

/// `dir` joined with `{run_id}{suffix}`.
pub open spec fn run_file(dir: Seq<char>, run_id: Seq<char>, suffix: Seq<char>) -> Seq<char> {
    join(dir, run_id + suffix)
}

/// `dir` joined with `{run_id}{suffix}`.
pub fn run_file_path(dir: &str, run_id: &str, suffix: &str) -> (res: String)
    ensures
        res@ == run_file(dir@, run_id@, suffix@),
{
    let d = chars_of(dir);
    let mut name: Vec<char> = Vec::new();
    push_str(&mut name, run_id);
    push_str(&mut name, suffix);
    let j = join_chars(&d, &name);
    string_of(&j)
}

/// Where a run's archive is written: `{run_id}.tar.gz` in the output
/// directory.
pub fn archive_path_for(output_dir: &str, run_id: &str) -> (res: String)
    ensures
        res@ == run_file(output_dir@, run_id@, ".tar.gz"@),
{
    run_file_path(output_dir, run_id, ".tar.gz")
}

/// Where the checksum file of a run's archive is written:
/// `{run_id}.tar.sha256` in the output directory.
pub fn checksum_path_for(output_dir: &str, run_id: &str) -> (res: String)
    ensures
        res@ == run_file(output_dir@, run_id@, ".tar.sha256"@),
{
    run_file_path(output_dir, run_id, ".tar.sha256")
}

/// Law: the checksum file sits beside the archive, named as the archive
/// with its last extension `gz` replaced by `sha256`.
pub proof fn lemma_checksum_beside_archive(output_dir: Seq<char>, run_id: Seq<char>)
    ensures
        ({
            let x = run_file(output_dir, run_id, ".tar"@);
            &&& run_file(output_dir, run_id, ".tar.gz"@) == x + ".gz"@
            &&& run_file(output_dir, run_id, ".tar.sha256"@) == x + ".sha256"@
        }),
{
    reveal_strlit(".tar");
    reveal_strlit(".tar.gz");
    reveal_strlit(".tar.sha256");
    reveal_strlit(".gz");
    reveal_strlit(".sha256");
    let q = run_id + ".tar"@;
    assert(run_id + ".tar.gz"@ =~= q + ".gz"@);
    assert(run_id + ".tar.sha256"@ =~= q + ".sha256"@);
    assert((q + ".gz"@)[0] == q[0]);
    assert((q + ".sha256"@)[0] == q[0]);
    assert(join(output_dir, q + ".gz"@) =~= join(output_dir, q) + ".gz"@);
    assert(join(output_dir, q + ".sha256"@) =~= join(output_dir, q) + ".sha256"@);
}

} // verus!
