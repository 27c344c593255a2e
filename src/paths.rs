//! Path text: joining, matching, ordering and relative forms.
use vstd::prelude::*;
use vstd::std_specs::iter::IteratorSpec;

verus! {

/// The characters of `s`, in order.
pub fn chars_of(s: &str) -> (v: Vec<char>)
    ensures
        v@ == s@,
{
    let mut v: Vec<char> = Vec::new();
    let chars = s.chars();
    for c in it: chars
        invariant
            it.seq() == s@,
            v@ == it.seq().take(it.index() as int),
    {
        v.push(c);
    }
    v
}

/// The separator of path components.
pub const SEPARATOR: char = '/';

pub open spec fn is_glob_char(c: char) -> bool {
    c == '*' || c == '?' || c == '[' || c == '{'
}

pub open spec fn has_glob_chars(s: Seq<char>) -> bool {
    exists|i: int| 0 <= i < s.len() && is_glob_char(#[trigger] s[i])
}

/// Whether `s` holds a character that makes it a glob pattern: `*`, `?`, `[` or `{`.
pub fn is_glob_pattern(s: &str) -> (r: bool)
    ensures
        r == has_glob_chars(s@),
{
    let v = chars_of(s);
    let mut i: usize = 0;
    while i < v.len()
        invariant
            v@ == s@,
            i <= v.len(),
            forall|k: int| 0 <= k < i ==> !is_glob_char(#[trigger] s@[k]),
        decreases v.len() - i,
    {
        if v[i] == '*' || v[i] == '?' || v[i] == '[' || v[i] == '{' {
            assert(is_glob_char(s@[i as int]));
            return true;
        }
        i = i + 1;
    }
    false
}

pub open spec fn has_separator(s: Seq<char>) -> bool {
    exists|i: int| 0 <= i < s.len() && #[trigger] s[i] == SEPARATOR
}

/// Whether `s` holds a path separator.
pub fn contains_separator(s: &str) -> (r: bool)
    ensures
        r == has_separator(s@),
{
    let v = chars_of(s);
    let mut i: usize = 0;
    while i < v.len()
        invariant
            v@ == s@,
            i <= v.len(),
            forall|k: int| 0 <= k < i ==> #[trigger] s@[k] != SEPARATOR,
        decreases v.len() - i,
    {
        if v[i] == SEPARATOR {
            return true;
        }
        i = i + 1;
    }
    false
}

pub open spec fn is_absolute(p: Seq<char>) -> bool {
    p.len() > 0 && p[0] == SEPARATOR
}

/// `base` joined with `p`: `p` itself when it is absolute or `base` is empty,
/// else the two with one separator between them.
pub open spec fn joined(base: Seq<char>, p: Seq<char>) -> Seq<char> {
    if is_absolute(p) || base.len() == 0 {
        p
    } else if base.last() == SEPARATOR {
        base + p
    } else {
        base + seq![SEPARATOR] + p
    }
}

/// The path that `p` names when it is read relative to `base`.
pub fn join_path(base: &str, p: &str) -> (r: String)
    ensures
        r@ == joined(base@, p@),
{
    let pv = chars_of(p);
    let bv = chars_of(base);
    if (pv.len() > 0 && pv[0] == SEPARATOR) || bv.len() == 0 {
        String::from_str(p)
    } else if bv[bv.len() - 1] == SEPARATOR {
        String::from_str(base).concat(p)
    } else {
        let r = String::from_str(base).concat("/");
        proof {
            reveal_strlit("/");
        }
        r.concat(p)
    }
}

pub open spec fn occurs_at(hay: Seq<char>, needle: Seq<char>, i: int) -> bool {
    0 <= i && i + needle.len() <= hay.len() && hay.subrange(i, i + needle.len()) == needle
}

pub open spec fn contains_text(hay: Seq<char>, needle: Seq<char>) -> bool {
    exists|i: int| occurs_at(hay, needle, i)
}

/// Whether `needle` occurs in `hay` as a run of consecutive characters.
pub fn text_contains(hay: &Vec<char>, needle: &Vec<char>) -> (r: bool)
    ensures
        r == contains_text(hay@, needle@),
{
    if needle.len() > hay.len() {
        assert forall|i: int| !occurs_at(hay@, needle@, i) by {}
        return false;
    }
    let last = hay.len() - needle.len();
    let mut i: usize = 0;
    while i <= last
        invariant
            last == hay.len() - needle.len(),
            needle.len() <= hay.len(),
            i <= last + 1,
            forall|k: int| 0 <= k < i ==> !occurs_at(hay@, needle@, k),
        decreases last + 1 - i,
    {
        let mut j: usize = 0;
        while j < needle.len() && hay[i + j] == needle[j]
            invariant
                i <= last,
                last == hay.len() - needle.len(),
                j <= needle.len(),
                forall|m: int| 0 <= m < j ==> hay@[i + m] == needle@[m],
            decreases needle.len() - j,
        {
            j = j + 1;
        }
        if j == needle.len() {
            assert(hay@.subrange(i as int, i + needle.len()) =~= needle@);
            assert(occurs_at(hay@, needle@, i as int));
            return true;
        }
        assert(!occurs_at(hay@, needle@, i as int)) by {
            if occurs_at(hay@, needle@, i as int) {
                assert(hay@.subrange(i as int, i + needle.len())[j as int] == hay@[i + j]);
            }
        }
        i = i + 1;
    }
    assert forall|k: int| !occurs_at(hay@, needle@, k) by {
        if occurs_at(hay@, needle@, k) {
            assert(0 <= k < i);
        }
    }
    false
}

/// The rank of a character in the order of paths: the separator comes first,
/// every other character after it by code point, so that paths order
/// component by component.
pub open spec fn char_rank(c: char) -> int {
    if c == SEPARATOR {
        0
    } else {
        (c as u32) as int + 1
    }
}

/// The order of paths: lexicographic over `char_rank`, a proper prefix first.
pub open spec fn path_before(a: Seq<char>, b: Seq<char>) -> bool
    decreases a.len(),
{
    if a.len() == 0 {
        b.len() > 0
    } else if b.len() == 0 {
        false
    } else if a[0] != b[0] {
        char_rank(a[0]) < char_rank(b[0])
    } else {
        path_before(a.drop_first(), b.drop_first())
    }
}

pub proof fn lemma_before_irreflexive(a: Seq<char>)
    ensures
        !path_before(a, a),
    decreases a.len(),
{
    if a.len() > 0 {
        lemma_before_irreflexive(a.drop_first());
    }
}

pub proof fn lemma_before_transitive(a: Seq<char>, b: Seq<char>, c: Seq<char>)
    requires
        path_before(a, b),
        path_before(b, c),
    ensures
        path_before(a, c),
    decreases a.len(),
{
    if a.len() > 0 && b.len() > 0 && c.len() > 0 && a[0] == b[0] && b[0] == c[0] {
        lemma_before_transitive(a.drop_first(), b.drop_first(), c.drop_first());
    }
}

pub proof fn lemma_before_total(a: Seq<char>, b: Seq<char>)
    requires
        a != b,
    ensures
        path_before(a, b) || path_before(b, a),
    decreases a.len(),
{
    if a.len() > 0 && b.len() > 0 {
        if a[0] == b[0] {
            if a.drop_first() == b.drop_first() {
                assert(a =~= seq![a[0]] + a.drop_first());
                assert(b =~= seq![b[0]] + b.drop_first());
            }
            lemma_before_total(a.drop_first(), b.drop_first());
        } else {
            if char_rank(a[0]) == char_rank(b[0]) {
                vstd::utf8::char_u32_cast(a[0], a[0] as u32);
                vstd::utf8::char_u32_cast(b[0], b[0] as u32);
            }
        }
    } else if a.len() == 0 && b.len() == 0 {
        assert(a =~= b);
    }
}

proof fn lemma_before_skip(a: Seq<char>, b: Seq<char>, i: int)
    requires
        0 <= i <= a.len(),
        i <= b.len(),
        a.take(i) == b.take(i),
    ensures
        path_before(a, b) == path_before(a.skip(i), b.skip(i)),
    decreases i,
{
    if i > 0 {
        assert(a[0] == a.take(i)[0]);
        assert(b[0] == b.take(i)[0]);
        assert(a.drop_first().take(i - 1) =~= a.take(i).drop_first());
        assert(b.drop_first().take(i - 1) =~= b.take(i).drop_first());
        lemma_before_skip(a.drop_first(), b.drop_first(), i - 1);
        assert(a.drop_first().skip(i - 1) =~= a.skip(i));
        assert(b.drop_first().skip(i - 1) =~= b.skip(i));
    } else {
        assert(a.skip(0) =~= a);
        assert(b.skip(0) =~= b);
    }
}

fn rank_of(c: char) -> (r: u32)
    ensures
        r == char_rank(c),
{
    if c == SEPARATOR {
        0
    } else {
        (c as u32) + 1
    }
}

/// Whether path `a` comes before path `b`.
pub fn path_precedes(a: &str, b: &str) -> (r: bool)
    ensures
        r == path_before(a@, b@),
{
    let av = chars_of(a);
    let bv = chars_of(b);
    let mut i: usize = 0;
    while i < av.len() && i < bv.len() && av[i] == bv[i]
        invariant
            av@ == a@,
            bv@ == b@,
            i <= av.len(),
            i <= bv.len(),
            av@.take(i as int) == bv@.take(i as int),
        decreases av.len() - i,
    {
        assert(av@.take(i + 1) =~= av@.take(i as int).push(av@[i as int]));
        assert(bv@.take(i + 1) =~= bv@.take(i as int).push(bv@[i as int]));
        i = i + 1;
    }
    proof {
        lemma_before_skip(a@, b@, i as int);
    }
    let ghost sa = a@.skip(i as int);
    let ghost sb = b@.skip(i as int);
    if i == av.len() {
        assert(sa.len() == 0);
        i < bv.len()
    } else if i == bv.len() {
        false
    } else {
        assert(sa[0] == av@[i as int] && sb[0] == bv@[i as int]);
        rank_of(av[i]) < rank_of(bv[i])
    }
}

/// Every path of `s` comes before those after it.
pub open spec fn strictly_ordered(s: Seq<Seq<char>>) -> bool {
    forall|i: int, j: int| 0 <= i < j < s.len() ==> path_before(#[trigger] s[i], #[trigger] s[j])
}

/// Two strictly ordered sequences that hold the same paths are equal.
pub proof fn lemma_ordered_unique(a: Seq<Seq<char>>, b: Seq<Seq<char>>)
    requires
        strictly_ordered(a),
        strictly_ordered(b),
        forall|x: Seq<char>| a.contains(x) <==> b.contains(x),
    ensures
        a == b,
    decreases a.len(),
{
    if a.len() == 0 {
        if b.len() > 0 {
            assert(b.contains(b[0]));
        }
        assert(a =~= b);
    } else {
        assert(a.contains(a[0]));
        assert(b.contains(a[0]));
        let k = choose|k: int| 0 <= k < b.len() && b[k] == a[0];
        assert(b.contains(b[0]));
        let m = choose|m: int| 0 <= m < a.len() && a[m] == b[0];
        if k > 0 {
            assert(path_before(b[0], b[k]));
            if m == 0 {
                lemma_before_irreflexive(a[0]);
            } else {
                assert(path_before(a[0], a[m]));
                lemma_before_transitive(a[0], a[m], a[0]);
                lemma_before_irreflexive(a[0]);
            }
        }
        assert(b[0] == a[0]);
        let a1 = a.drop_first();
        let b1 = b.drop_first();
        assert forall|x: Seq<char>| a1.contains(x) <==> b1.contains(x) by {
            if a1.contains(x) {
                let i = choose|i: int| 0 <= i < a1.len() && a1[i] == x;
                assert(path_before(a[0], a[i + 1]));
                lemma_before_irreflexive(x);
                assert(a.contains(x));
                let j = choose|j: int| 0 <= j < b.len() && b[j] == x;
                assert(j != 0);
                assert(b1[j - 1] == x);
            }
            if b1.contains(x) {
                let i = choose|i: int| 0 <= i < b1.len() && b1[i] == x;
                assert(path_before(b[0], b[i + 1]));
                lemma_before_irreflexive(x);
                assert(b.contains(x));
                let j = choose|j: int| 0 <= j < a.len() && a[j] == x;
                assert(j != 0);
                assert(a1[j - 1] == x);
            }
        }
        assert forall|i: int, j: int| 0 <= i < j < a1.len() implies path_before(a1[i], a1[j]) by {
            assert(a1[i] == a[i + 1] && a1[j] == a[j + 1]);
        }
        assert forall|i: int, j: int| 0 <= i < j < b1.len() implies path_before(b1[i], b1[j]) by {
            assert(b1[i] == b[i + 1] && b1[j] == b[j + 1]);
        }
        lemma_ordered_unique(a1, b1);
        assert(a =~= seq![a[0]] + a1);
        assert(b =~= seq![b[0]] + b1);
    }
}

/// The strictly ordered sequence of the paths in `s`, when `s` has one.
pub open spec fn ordered_paths(s: Set<Seq<char>>) -> Seq<Seq<char>> {
    choose|q: Seq<Seq<char>>| strictly_ordered(q) && forall|x: Seq<char>| q.contains(x) <==> s.contains(x)
}

/// Puts `p` into the strictly ordered `sorted`, unless it is there already.
pub fn insert_path(sorted: &mut Vec<String>, p: String)
    requires
        strictly_ordered(crate::types::strings_view(old(sorted)@)),
    ensures
        strictly_ordered(crate::types::strings_view(final(sorted)@)),
        forall|x: Seq<char>|
            crate::types::strings_view(final(sorted)@).contains(x) <==> (
            crate::types::strings_view(old(sorted)@).contains(x) || x == p@),
{
    let ghost before = crate::types::strings_view(sorted@);
    let mut i: usize = 0;
    while i < sorted.len() && path_precedes(sorted[i].as_str(), p.as_str())
        invariant
            crate::types::strings_view(sorted@) == before,
            strictly_ordered(before),
            i <= sorted.len(),
            forall|k: int| 0 <= k < i ==> path_before(#[trigger] before[k], p@),
        decreases sorted.len() - i,
    {
        i = i + 1;
    }
    if i < sorted.len() && sorted[i] == p {
        assert forall|x: Seq<char>| before.contains(x) <==> (before.contains(x) || x == p@) by {
            if x == p@ {
                assert(before[i as int] == x);
            }
        }
        return;
    }
    proof {
        assert forall|j: int| i <= j < before.len() implies path_before(p@, #[trigger] before[j]) by {
            assert(!path_before(before[i as int], p@));
            assert(before[i as int] != p@);
            lemma_before_total(before[i as int], p@);
            if j > i {
                lemma_before_transitive(p@, before[i as int], before[j]);
            }
        }
    }
    let ghost pv = p@;
    sorted.insert(i, p);
    let ghost after = crate::types::strings_view(sorted@);
    assert(after =~= before.take(i as int).push(pv) + before.skip(i as int));
    assert forall|a: int, b: int| 0 <= a < b < after.len() implies path_before(#[trigger] after[a], #[trigger] after[b]) by {
        if b < i {
        } else if a < i && b == i {
        } else if a < i {
            assert(after[b] == before[b - 1]);
        } else if a == i {
            assert(after[b] == before[b - 1]);
        } else {
            assert(after[a] == before[a - 1] && after[b] == before[b - 1]);
        }
    }
    assert forall|x: Seq<char>| after.contains(x) <==> (before.contains(x) || x == pv) by {
        if after.contains(x) {
            let k = choose|k: int| 0 <= k < after.len() && after[k] == x;
            if k < i {
                assert(before[k] == x);
            } else if k > i {
                assert(before[k - 1] == x);
            }
        }
        if before.contains(x) {
            let k = choose|k: int| 0 <= k < before.len() && before[k] == x;
            if k < i {
                assert(after[k] == x);
            } else {
                assert(after[k + 1] == x);
            }
        }
        if x == pv {
            assert(after[i as int] == x);
        }
    }
}

/// What pathdiff's `diff_paths` gives for `path` against `base`: the path
/// that leads from `base` to `path`, when one can be formed.
pub uninterp spec fn relative_path(path: Seq<char>, base: Seq<char>) -> Option<Seq<char>>;

/// Relies on pathdiff::diff_paths, a computation on the two paths alone that
/// touches no filesystem.
#[verifier::external_body]
fn diff_paths(path: &str, base: &str) -> (r: Option<String>)
    ensures
        match r {
            Some(s) => relative_path(path@, base@) == Some(s@),
            None => relative_path(path@, base@) is None,
        },
{
    pathdiff::diff_paths(path, base).map(|p| p.to_string_lossy().into_owned())
}

/// The form of `path` shown to the user: relative to `base` where it can be,
/// else `path` itself.
pub open spec fn display_of(path: Seq<char>, base: Seq<char>) -> Seq<char> {
    match relative_path(path, base) {
        Some(r) => r,
        None => path,
    }
}

/// `path` as the user sees it from `base`.
pub fn display_form(path: &str, base: &str) -> (r: String)
    ensures
        r@ == display_of(path@, base@),
{
    match diff_paths(path, base) {
        Some(r) => r,
        None => String::from_str(path),
    }
}

} // verus!
