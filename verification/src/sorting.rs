//! The order of paths (as `Ord for Path` has it on Unix) and the sorting of
//! glob candidates by it.

use vstd::prelude::*;

use crate::collect::GlobCandidate;
use crate::paths::{components, path_components, texts};
use crate::text::chars_of;

verus! {

/// The order of two characters: -1, 0 or 1 as `x` comes before, equals or
/// comes after `y` (on UTF-8 this is the order of their bytes).
pub open spec fn char_order(x: char, y: char) -> int {
    if (x as int) < (y as int) {
        -1
    } else if x == y {
        0
    } else {
        1
    }
}

/// The order of two texts, character by character; a proper prefix comes
/// first.
pub open spec fn text_order(a: Seq<char>, b: Seq<char>) -> int
    decreases a.len(),
{
    if a.len() == 0 {
        if b.len() == 0 {
            0
        } else {
            -1
        }
    } else if b.len() == 0 {
        1
    } else if a[0] != b[0] {
        char_order(a[0], b[0])
    } else {
        text_order(a.drop_first(), b.drop_first())
    }
}

/// The rank of a component's kind: the root, then `.`, then `..`, then
/// names.
pub open spec fn component_rank(c: Seq<char>) -> int {
    if c == seq!['/'] {
        0
    } else if c == seq!['.'] {
        1
    } else if c == seq!['.', '.'] {
        2
    } else {
        3
    }
}

/// The order of two components: by kind, then by text.
pub open spec fn component_order(a: Seq<char>, b: Seq<char>) -> int {
    if component_rank(a) < component_rank(b) {
        -1
    } else if component_rank(b) < component_rank(a) {
        1
    } else {
        text_order(a, b)
    }
}

/// The order of two component lists, one component after the other; a
/// proper prefix comes first.
pub open spec fn components_order(a: Seq<Seq<char>>, b: Seq<Seq<char>>) -> int
    decreases a.len(),
{
    if a.len() == 0 {
        if b.len() == 0 {
            0
        } else {
            -1
        }
    } else if b.len() == 0 {
        1
    } else if component_order(a[0], b[0]) != 0 {
        component_order(a[0], b[0])
    } else {
        components_order(a.drop_first(), b.drop_first())
    }
}

/// The order of two paths: -1, 0 or 1 as `a` comes before, equals (as a
/// path) or comes after `b`, comparing their components.
pub open spec fn path_order(a: Seq<char>, b: Seq<char>) -> int {
    components_order(components(a), components(b))
}

proof fn lemma_text_order(a: Seq<char>, b: Seq<char>)
    ensures
        -1 <= text_order(a, b) <= 1,
        text_order(a, b) == -text_order(b, a),
        (text_order(a, b) == 0) == (a == b),
    decreases a.len(),
{
    if a.len() > 0 && b.len() > 0 && a[0] == b[0] {
        lemma_text_order(a.drop_first(), b.drop_first());
        if a.drop_first() == b.drop_first() {
            assert(a =~= seq![a[0]] + a.drop_first());
            assert(b =~= seq![b[0]] + b.drop_first());
        } else if a == b {
            assert(a.drop_first() =~= b.drop_first());
        }
    } else if a.len() > 0 && b.len() > 0 {
        assert(a[0] != b[0]);
    } else if a.len() != b.len() {
        assert(a != b);
    } else {
        assert(a =~= b);
    }
}

proof fn lemma_text_order_trans(a: Seq<char>, b: Seq<char>, c: Seq<char>)
    requires
        text_order(a, b) < 0,
        text_order(b, c) < 0,
    ensures
        text_order(a, c) < 0,
    decreases a.len(),
{
    if a.len() > 0 && b.len() > 0 && c.len() > 0 && a[0] == b[0] && b[0] == c[0] {
        lemma_text_order_trans(a.drop_first(), b.drop_first(), c.drop_first());
    }
}

proof fn lemma_component_order(a: Seq<char>, b: Seq<char>)
    ensures
        -1 <= component_order(a, b) <= 1,
        component_order(a, b) == -component_order(b, a),
        (component_order(a, b) == 0) == (a == b),
{
    lemma_text_order(a, b);
}

proof fn lemma_component_order_trans(a: Seq<char>, b: Seq<char>, c: Seq<char>)
    requires
        component_order(a, b) < 0,
        component_order(b, c) < 0,
    ensures
        component_order(a, c) < 0,
{
    if component_rank(a) == component_rank(b) && component_rank(b) == component_rank(c) {
        lemma_text_order_trans(a, b, c);
    }
}

proof fn lemma_components_order(a: Seq<Seq<char>>, b: Seq<Seq<char>>)
    ensures
        -1 <= components_order(a, b) <= 1,
        components_order(a, b) == -components_order(b, a),
        (components_order(a, b) == 0) == (a == b),
    decreases a.len(),
{
    if a.len() > 0 && b.len() > 0 {
        lemma_component_order(a[0], b[0]);
        if component_order(a[0], b[0]) == 0 {
            lemma_components_order(a.drop_first(), b.drop_first());
            if a.drop_first() == b.drop_first() {
                assert(a =~= seq![a[0]] + a.drop_first());
                assert(b =~= seq![b[0]] + b.drop_first());
            } else if a == b {
                assert(a.drop_first() =~= b.drop_first());
            }
        }
    } else if a.len() != b.len() {
        assert(a != b);
    } else {
        assert(a =~= b);
    }
}

proof fn lemma_components_order_trans(a: Seq<Seq<char>>, b: Seq<Seq<char>>, c: Seq<Seq<char>>)
    requires
        components_order(a, b) < 0,
        components_order(b, c) < 0,
    ensures
        components_order(a, c) < 0,
    decreases a.len(),
{
    if a.len() > 0 && b.len() > 0 && c.len() > 0 {
        lemma_component_order(a[0], b[0]);
        lemma_component_order(b[0], c[0]);
        lemma_component_order(a[0], c[0]);
        if component_order(a[0], b[0]) == 0 && component_order(b[0], c[0]) == 0 {
            lemma_components_order_trans(a.drop_first(), b.drop_first(), c.drop_first());
        } else if component_order(a[0], b[0]) != 0 && component_order(b[0], c[0]) != 0 {
            lemma_component_order_trans(a[0], b[0], c[0]);
        }
    }
}

/// The order of paths is antisymmetric, and two paths are equal in it
/// exactly when their components are.
pub proof fn lemma_path_order(a: Seq<char>, b: Seq<char>)
    ensures
        -1 <= path_order(a, b) <= 1,
        path_order(a, b) == -path_order(b, a),
        (path_order(a, b) == 0) == (components(a) == components(b)),
{
    lemma_components_order(components(a), components(b));
}

/// The order of paths is transitive.
pub proof fn lemma_path_order_trans(a: Seq<char>, b: Seq<char>, c: Seq<char>)
    requires
        path_order(a, b) <= 0,
        path_order(b, c) <= 0,
    ensures
        path_order(a, c) <= 0,
        path_order(a, b) < 0 || path_order(b, c) < 0 ==> path_order(a, c) < 0,
{
    lemma_path_order(a, b);
    lemma_path_order(b, c);
    lemma_path_order(a, c);
    if path_order(a, b) < 0 && path_order(b, c) < 0 {
        lemma_components_order_trans(components(a), components(b), components(c));
    }
}

fn text_order_exec(a: &Vec<char>, b: &Vec<char>) -> (res: i8)
    ensures
        res as int == text_order(a@, b@),
{
    let mut i: usize = 0;
    assert(a@.skip(0) =~= a@);
    assert(b@.skip(0) =~= b@);
    while i < a.len() && i < b.len() && a[i] == b[i]
        invariant
            0 <= i <= a.len(),
            i <= b.len(),
            text_order(a@, b@) == text_order(a@.skip(i as int), b@.skip(i as int)),
        decreases a.len() - i,
    {
        assert(a@.skip(i as int).drop_first() =~= a@.skip(i + 1));
        assert(b@.skip(i as int).drop_first() =~= b@.skip(i + 1));
        i = i + 1;
    }
    if i == a.len() {
        if i == b.len() {
            0
        } else {
            -1
        }
    } else if i == b.len() {
        1
    } else {
        assert(a@.skip(i as int)[0] == a@[i as int]);
        assert(b@.skip(i as int)[0] == b@[i as int]);
        if a[i] < b[i] {
            -1
        } else {
            1
        }
    }
}

fn component_rank_exec(c: &Vec<char>) -> (res: u8)
    ensures
        res as int == component_rank(c@),
{
    if c.len() == 1 && c[0] == '/' {
        assert(c@ =~= seq!['/']);
        0
    } else if c.len() == 1 && c[0] == '.' {
        assert(c@ =~= seq!['.']);
        1
    } else if c.len() == 2 && c[0] == '.' && c[1] == '.' {
        assert(c@ =~= seq!['.', '.']);
        2
    } else {
        assert(c@ != seq!['/']) by {
            if c@ == seq!['/'] {
                assert(c@[0] == '/');
            }
        }
        assert(c@ != seq!['.']) by {
            if c@ == seq!['.'] {
                assert(c@[0] == '.');
            }
        }
        assert(c@ != seq!['.', '.']) by {
            if c@ == seq!['.', '.'] {
                assert(c@[0] == '.' && c@[1] == '.');
            }
        }
        3
    }
}

fn component_order_exec(a: &Vec<char>, b: &Vec<char>) -> (res: i8)
    ensures
        res as int == component_order(a@, b@),
{
    let ra = component_rank_exec(a);
    let rb = component_rank_exec(b);
    if ra < rb {
        -1
    } else if rb < ra {
        1
    } else {
        text_order_exec(a, b)
    }
}

/// The order of two component lists.
fn components_order_exec(a: &Vec<Vec<char>>, b: &Vec<Vec<char>>) -> (res: i8)
    ensures
        res as int == components_order(texts(a@), texts(b@)),
{
    let ghost ta = texts(a@);
    let ghost tb = texts(b@);
    let mut i: usize = 0;
    assert(ta.skip(0) =~= ta);
    assert(tb.skip(0) =~= tb);
    while i < a.len() && i < b.len()
        invariant
            0 <= i <= a.len(),
            i <= b.len(),
            ta == texts(a@),
            tb == texts(b@),
            components_order(ta, tb) == components_order(ta.skip(i as int), tb.skip(i as int)),
        decreases a.len() - i,
    {
        let c = component_order_exec(&a[i], &b[i]);
        assert(ta.skip(i as int)[0] == a@[i as int]@);
        assert(tb.skip(i as int)[0] == b@[i as int]@);
        if c != 0 {
            return c;
        }
        assert(ta.skip(i as int).drop_first() =~= ta.skip(i + 1));
        assert(tb.skip(i as int).drop_first() =~= tb.skip(i + 1));
        i = i + 1;
    }
    if i == a.len() {
        if i == b.len() {
            0
        } else {
            -1
        }
    } else {
        1
    }
}

/// The order of two path texts.
pub fn compare_paths(a: &str, b: &str) -> (res: i8)
    ensures
        res as int == path_order(a@, b@),
{
    let ac = chars_of(a);
    let bc = chars_of(b);
    let ak = path_components(&ac);
    let bk = path_components(&bc);
    components_order_exec(&ak, &bk)
}

/// Where `x` is inserted into `s`: right after the last element, counting
/// from the end, whose path does not come after that of `x`.
pub open spec fn insert_pos(s: Seq<GlobCandidate>, x: GlobCandidate) -> int
    decreases s.len(),
{
    if s.len() == 0 {
        0
    } else if path_order(s.last().path@, x.path@) > 0 {
        insert_pos(s.drop_last(), x)
    } else {
        s.len() as int
    }
}

/// The candidates sorted by path: each, in the order given, inserted into
/// the ones before it at its place.
pub open spec fn sort_by_path(s: Seq<GlobCandidate>) -> Seq<GlobCandidate>
    decreases s.len(),
{
    if s.len() == 0 {
        s
    } else {
        let t = sort_by_path(s.drop_last());
        t.insert(insert_pos(t, s.last()), s.last())
    }
}

/// Whether the paths of `s` come in order.
pub open spec fn paths_sorted(s: Seq<GlobCandidate>) -> bool {
    forall|i: int, j: int| 0 <= i < j < s.len() ==> path_order(#[trigger] s[i].path@, #[trigger] s[j].path@) <= 0
}

proof fn lemma_insert_pos(s: Seq<GlobCandidate>, x: GlobCandidate)
    requires
        paths_sorted(s),
    ensures
        0 <= insert_pos(s, x) <= s.len(),
        forall|k: int| 0 <= k < insert_pos(s, x) ==> path_order(#[trigger] s[k].path@, x.path@) <= 0,
        forall|k: int| insert_pos(s, x) <= k < s.len() ==> path_order(#[trigger] s[k].path@, x.path@) > 0,
    decreases s.len(),
{
    if s.len() > 0 {
        let t = s.drop_last();
        if path_order(s.last().path@, x.path@) > 0 {
            assert(paths_sorted(t)) by {
                assert forall|i: int, j: int| 0 <= i < j < t.len() implies path_order(
                    #[trigger] t[i].path@,
                    #[trigger] t[j].path@,
                ) <= 0 by {
                    assert(t[i] == s[i] && t[j] == s[j]);
                }
            }
            lemma_insert_pos(t, x);
            assert forall|k: int| 0 <= k < insert_pos(s, x) implies path_order(
                #[trigger] s[k].path@,
                x.path@,
            ) <= 0 by {
                assert(t[k] == s[k]);
            }
            assert forall|k: int| insert_pos(s, x) <= k < s.len() implies path_order(
                #[trigger] s[k].path@,
                x.path@,
            ) > 0 by {
                if k < t.len() {
                    assert(t[k] == s[k]);
                }
            }
        } else {
            assert forall|k: int| 0 <= k < s.len() implies path_order(#[trigger] s[k].path@, x.path@) <= 0 by {
                if k < s.len() - 1 {
                    lemma_path_order_trans(s[k].path@, s.last().path@, x.path@);
                }
            }
        }
    }
}

proof fn lemma_insert_sorted(s: Seq<GlobCandidate>, x: GlobCandidate)
    requires
        paths_sorted(s),
    ensures
        paths_sorted(s.insert(insert_pos(s, x), x)),
        s.insert(insert_pos(s, x), x).to_multiset() == s.to_multiset().insert(x),
        s.insert(insert_pos(s, x), x).len() == s.len() + 1,
{
    let p = insert_pos(s, x);
    lemma_insert_pos(s, x);
    let r = s.insert(p, x);
    s.insert_ensures(p, x);
    assert forall|i: int, j: int| 0 <= i < j < r.len() implies path_order(#[trigger] r[i].path@, #[trigger] r[j].path@) <= 0 by {
        if j < p {
            assert(r[i] == s[i] && r[j] == s[j]);
        } else if j == p {
            assert(r[i] == s[i]);
        } else if i < p {
            assert(r[i] == s[i] && r[j] == s[j - 1]);
        } else if i == p {
            assert(r[j] == s[j - 1]);
            lemma_path_order(s[j - 1].path@, x.path@);
        } else {
            assert(r[i] == s[i - 1] && r[j] == s[j - 1]);
        }
    }
    vstd::seq_lib::to_multiset_insert(s, p, x);
}

/// Whether a candidate's path has the components `key`.
pub open spec fn has_key(key: Seq<Seq<char>>) -> spec_fn(GlobCandidate) -> bool {
    |c: GlobCandidate| components(c.path@) == key
}

/// The candidates of `s` whose paths have the components `key`, in order.
pub open spec fn with_key(s: Seq<GlobCandidate>, key: Seq<Seq<char>>) -> Seq<GlobCandidate> {
    s.filter(has_key(key))
}

proof fn lemma_insert_with_key(t: Seq<GlobCandidate>, x: GlobCandidate, key: Seq<Seq<char>>)
    requires
        paths_sorted(t),
    ensures
        with_key(t.insert(insert_pos(t, x), x), key) == if components(x.path@) == key {
            with_key(t, key).push(x)
        } else {
            with_key(t, key)
        },
{
    let p = insert_pos(t, x);
    lemma_insert_pos(t, x);
    let pred = has_key(key);
    let a = t.take(p);
    let b = t.skip(p);
    assert(t =~= a + b);
    assert(t.insert(p, x) =~= a.push(x) + b);
    Seq::filter_distributes_over_add(a, b, pred);
    Seq::filter_distributes_over_add(a.push(x), b, pred);
    a.lemma_filter_push(x, pred);
    if components(x.path@) == key {
        assert forall|m: int| 0 <= m < b.len() implies !pred(#[trigger] b[m]) by {
            assert(b[m] == t[p + m]);
            lemma_path_order(t[p + m].path@, x.path@);
        }
        b.lemma_all_neg_filter_empty(pred);
        assert(b.filter(pred) =~= Seq::<GlobCandidate>::empty());
        assert(a.filter(pred) + b.filter(pred) =~= a.filter(pred));
        assert(a.filter(pred).push(x) + b.filter(pred) =~= a.filter(pred).push(x));
    }
}

/// Law: sorting by path puts the candidates in path order, keeps each
/// candidate as often as it was given, and keeps the candidates of one path
/// in the order given: it is the stable sort by path.
pub proof fn lemma_sort_by_path(s: Seq<GlobCandidate>)
    ensures
        paths_sorted(sort_by_path(s)),
        sort_by_path(s).to_multiset() == s.to_multiset(),
        sort_by_path(s).len() == s.len(),
        forall|key: Seq<Seq<char>>| #[trigger] with_key(sort_by_path(s), key) == with_key(s, key),
    decreases s.len(),
{
    if s.len() == 0 {
        assert(sort_by_path(s) == s);
    } else {
        let r = s.drop_last();
        let x = s.last();
        let t = sort_by_path(r);
        lemma_sort_by_path(r);
        lemma_insert_sorted(t, x);
        vstd::seq_lib::to_multiset_build(r, x);
        assert(r.push(x) =~= s);
        assert forall|key: Seq<Seq<char>>| #[trigger] with_key(sort_by_path(s), key) == with_key(s, key) by {
            lemma_insert_with_key(t, x, key);
            r.lemma_filter_push(x, has_key(key));
            assert(with_key(t, key) == with_key(r, key));
        }
    }
}

/// Sorts glob candidates by path, as a stable sort of `PathBuf`s does.
pub fn sort_candidates(v: &Vec<GlobCandidate>) -> (res: Vec<GlobCandidate>)
    ensures
        res@ == sort_by_path(v@),
{
    let mut out: Vec<GlobCandidate> = Vec::new();
    let mut keys: Vec<Vec<Vec<char>>> = Vec::new();
    let mut i: usize = 0;
    assert(v@.take(0) =~= Seq::<GlobCandidate>::empty());
    while i < v.len()
        invariant
            0 <= i <= v.len(),
            out@ == sort_by_path(v@.take(i as int)),
            keys@.len() == out@.len(),
            forall|k: int| 0 <= k < keys@.len() ==> texts(#[trigger] keys@[k]@) == components(out@[k].path@),
        decreases v.len() - i,
    {
        let x = GlobCandidate { path: v[i].path.clone(), exists: v[i].exists };
        assert(x == v@[i as int]);
        let xc = chars_of(x.path.as_str());
        let xk = path_components(&xc);
        let mut j: usize = out.len();
        assert(out@.take(j as int) =~= out@);
        let mut placed = false;
        while !placed && j > 0
            invariant
                0 <= j <= out@.len(),
                keys@.len() == out@.len(),
                forall|k: int| 0 <= k < keys@.len() ==> texts(#[trigger] keys@[k]@) == components(out@[k].path@),
                texts(xk@) == components(x.path@),
                insert_pos(out@, x) == if placed {
                    j as int
                } else {
                    insert_pos(out@.take(j as int), x)
                },
            decreases j + if placed {
                0int
            } else {
                1int
            },
        {
            let o = components_order_exec(&keys[j - 1], &xk);
            proof {
                let t = out@.take(j as int);
                assert(t.last() == out@[j - 1]);
                assert(t.drop_last() =~= out@.take(j - 1));
                assert(texts(keys@[j - 1]@) == components(out@[j - 1].path@));
            }
            if o > 0 {
                j = j - 1;
            } else {
                placed = true;
            }
        }
        proof {
            if !placed {
                assert(out@.take(0) =~= Seq::<GlobCandidate>::empty());
            }
            let s = v@.take(i + 1);
            assert(s.drop_last() =~= v@.take(i as int));
            assert(s.last() == x);
        }
        let ghost old_keys = keys@;
        let ghost old_out = out@;
        out.insert(j, x);
        keys.insert(j, xk);
        proof {
            old_out.insert_ensures(j as int, x);
            old_keys.insert_ensures(j as int, xk);
            assert forall|k: int| 0 <= k < keys@.len() implies texts(#[trigger] keys@[k]@) == components(out@[k].path@) by {
                if k < j {
                    assert(keys@[k] == old_keys[k] && out@[k] == old_out[k]);
                } else if k > j {
                    assert(keys@[k] == old_keys[k - 1] && out@[k] == old_out[k - 1]);
                }
            }
        }
        i = i + 1;
    }
    assert(v@.take(i as int) =~= v@);
    out
}

} // verus!
