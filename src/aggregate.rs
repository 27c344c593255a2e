//! Merging the outcomes of all input tokens: every resolved file once, in
//! the order of first appearance, and every failure in its bucket.
use vstd::prelude::*;
use vstd::string::StringExecFns;
use crate::types::{files_view, FileView, InputResolution, ResolutionView, ResolvedFile};

verus! {

/// The files of every successful outcome, one outcome after another.
pub open spec fn success_files(rs: Seq<InputResolution>) -> Seq<FileView>
    decreases rs.len(),
{
    if rs.len() == 0 {
        Seq::empty()
    } else {
        success_files(rs.drop_last()) + match rs.last() {
            InputResolution::Success(files) => files_view(files@),
            _ => Seq::empty(),
        }
    }
}

/// Whether some file of `s` has the canonical path `c`.
pub open spec fn has_canonical(s: Seq<FileView>, c: Seq<char>) -> bool {
    exists|k: int| 0 <= k < s.len() && (#[trigger] s[k]).canonical_path == c
}

/// `s` with every file dropped whose canonical path came earlier.
pub open spec fn first_occurrences(s: Seq<FileView>) -> Seq<FileView>
    decreases s.len(),
{
    if s.len() == 0 {
        Seq::empty()
    } else {
        let kept = first_occurrences(s.drop_last());
        if has_canonical(kept, s.last().canonical_path) {
            kept
        } else {
            kept.push(s.last())
        }
    }
}

/// The position of the first file of `s` whose canonical path is `c`;
/// `s.len()` when there is none.
pub open spec fn first_index(s: Seq<FileView>, c: Seq<char>) -> int
    decreases s.len(),
{
    if s.len() == 0 {
        0
    } else {
        let f = first_index(s.drop_last(), c);
        if f < s.len() - 1 {
            f
        } else if s.last().canonical_path == c {
            s.len() - 1
        } else {
            s.len() as int
        }
    }
}

/// A number for each kind of outcome; the buckets of failures are kept by it.
pub open spec fn kind_code(r: ResolutionView) -> int {
    match r {
        ResolutionView::Success(_) => 0,
        ResolutionView::InvalidGlobPattern(_, _) => 1,
        ResolutionView::PathDoesNotExist(_, _) => 2,
        ResolutionView::NotFound(_) => 3,
        ResolutionView::Ambiguous(_, _) => 4,
    }
}

/// The positions in `rs`, in order, of the outcomes of kind `code`.
pub open spec fn positions_of(rs: Seq<InputResolution>, code: int) -> Seq<int>
    decreases rs.len(),
{
    if rs.len() == 0 {
        Seq::empty()
    } else {
        let before = positions_of(rs.drop_last(), code);
        if kind_code(rs.last()@) == code {
            before.push(rs.len() - 1)
        } else {
            before
        }
    }
}

pub open spec fn positions_view(v: Seq<usize>) -> Seq<int> {
    v.map_values(|i: usize| i as int)
}

/// All outcomes merged.
#[derive(Debug, Clone)]
pub struct Aggregate {
    /// Every resolved file once, in the order in which it first appeared.
    pub files: Vec<ResolvedFile>,
    /// The positions of the inputs whose pattern did not compile.
    pub invalid_patterns: Vec<usize>,
    /// The positions of the inputs that named a path where nothing exists.
    pub missing_paths: Vec<usize>,
    /// The positions of the inputs that matched nothing.
    pub not_found: Vec<usize>,
    /// The positions of the inputs that matched several files.
    pub ambiguous: Vec<usize>,
}

impl Aggregate {
    /// Whether any input failed; then the run as a whole fails, whatever resolved.
    pub fn has_errors(&self) -> (r: bool)
        ensures
            r == (self.invalid_patterns.len() > 0 || self.missing_paths.len() > 0
                || self.not_found.len() > 0 || self.ambiguous.len() > 0),
    {
        self.invalid_patterns.len() > 0 || self.missing_paths.len() > 0 || self.not_found.len()
            > 0 || self.ambiguous.len() > 0
    }
}

fn seen_canonical(files: &Vec<ResolvedFile>, c: &str) -> (r: bool)
    ensures
        r == has_canonical(files_view(files@), c@),
{
    let target = String::from_str(c);
    let mut i: usize = 0;
    while i < files.len()
        invariant
            target@ == c@,
            i <= files.len(),
            forall|k: int| 0 <= k < i ==> (#[trigger] files@[k])@.canonical_path != c@,
        decreases files.len() - i,
    {
        let same = files[i].canonical_path == target;
        if same {
            assert(files_view(files@)[i as int].canonical_path == c@);
            return true;
        }
        i = i + 1;
    }
    assert forall|k: int| 0 <= k < files_view(files@).len() implies (#[trigger] files_view(
        files@,
    )[k]).canonical_path != c@ by {
        assert(files_view(files@)[k] == files@[k]@);
    }
    false
}

proof fn lemma_success_files_step(rs: Seq<InputResolution>, i: int)
    requires
        0 <= i < rs.len(),
    ensures
        success_files(rs.take(i + 1)) == success_files(rs.take(i)) + match rs[i] {
            InputResolution::Success(files) => files_view(files@),
            _ => Seq::empty(),
        },
{
    assert(rs.take(i + 1).drop_last() =~= rs.take(i));
}

proof fn lemma_positions_step(rs: Seq<InputResolution>, i: int, code: int)
    requires
        0 <= i < rs.len(),
    ensures
        positions_of(rs.take(i + 1), code) == if kind_code(rs[i]@) == code {
            positions_of(rs.take(i), code).push(i)
        } else {
            positions_of(rs.take(i), code)
        },
{
    assert(rs.take(i + 1).drop_last() =~= rs.take(i));
}

/// Merges the outcomes of all inputs, in input order: the files of each
/// success join the result unless a file with the same canonical path is
/// there already; each failure's position goes to the bucket of its kind.
pub fn aggregate_resolutions(rs: &Vec<InputResolution>) -> (r: Aggregate)
    ensures
        files_view(r.files@) == first_occurrences(success_files(rs@)),
        positions_view(r.invalid_patterns@) == positions_of(rs@, 1),
        positions_view(r.missing_paths@) == positions_of(rs@, 2),
        positions_view(r.not_found@) == positions_of(rs@, 3),
        positions_view(r.ambiguous@) == positions_of(rs@, 4),
{
    let mut files: Vec<ResolvedFile> = Vec::new();
    let mut invalid_patterns: Vec<usize> = Vec::new();
    let mut missing_paths: Vec<usize> = Vec::new();
    let mut not_found: Vec<usize> = Vec::new();
    let mut ambiguous: Vec<usize> = Vec::new();
    let mut i: usize = 0;
    while i < rs.len()
        invariant
            i <= rs.len(),
            files_view(files@) == first_occurrences(success_files(rs@.take(i as int))),
            positions_view(invalid_patterns@) == positions_of(rs@.take(i as int), 1),
            positions_view(missing_paths@) == positions_of(rs@.take(i as int), 2),
            positions_view(not_found@) == positions_of(rs@.take(i as int), 3),
            positions_view(ambiguous@) == positions_of(rs@.take(i as int), 4),
        decreases rs.len() - i,
    {
        proof {
            lemma_success_files_step(rs@, i as int);
            lemma_positions_step(rs@, i as int, 1);
            lemma_positions_step(rs@, i as int, 2);
            lemma_positions_step(rs@, i as int, 3);
            lemma_positions_step(rs@, i as int, 4);
        }
        let ghost prefix = success_files(rs@.take(i as int));
        match &rs[i] {
            InputResolution::Success(found) => {
                let mut j: usize = 0;
                while j < found.len()
                    invariant
                        j <= found.len(),
                        files_view(files@) == first_occurrences(
                            prefix + files_view(found@).take(j as int),
                        ),
                    decreases found.len() - j,
                {
                    let ghost s = prefix + files_view(found@).take(j as int);
                    let ghost s1 = prefix + files_view(found@).take(j + 1);
                    assert(s1.drop_last() =~= s);
                    assert(s1.last() == found@[j as int]@);
                    if !seen_canonical(&files, found[j].canonical_path()) {
                        let ghost prev = files@;
                        files.push(found[j].duplicate());
                        assert(files_view(files@) =~= files_view(prev).push(found@[j as int]@));
                    }
                    j = j + 1;
                }
                assert(files_view(found@).take(found.len() as int) =~= files_view(found@));
            },
            InputResolution::InvalidGlobPattern { .. } => {
                let ghost prev = invalid_patterns@;
                invalid_patterns.push(i);
                assert(positions_view(invalid_patterns@) =~= positions_view(prev).push(i as int));
                assert(prefix + Seq::<FileView>::empty() =~= prefix);
            },
            InputResolution::PathDoesNotExist { .. } => {
                let ghost prev = missing_paths@;
                missing_paths.push(i);
                assert(positions_view(missing_paths@) =~= positions_view(prev).push(i as int));
                assert(prefix + Seq::<FileView>::empty() =~= prefix);
            },
            InputResolution::NotFound { .. } => {
                let ghost prev = not_found@;
                not_found.push(i);
                assert(positions_view(not_found@) =~= positions_view(prev).push(i as int));
                assert(prefix + Seq::<FileView>::empty() =~= prefix);
            },
            InputResolution::Ambiguous { .. } => {
                let ghost prev = ambiguous@;
                ambiguous.push(i);
                assert(positions_view(ambiguous@) =~= positions_view(prev).push(i as int));
                assert(prefix + Seq::<FileView>::empty() =~= prefix);
            },
        }
        i = i + 1;
    }
    assert(rs@.take(rs.len() as int) =~= rs@);
    Aggregate { files, invalid_patterns, missing_paths, not_found, ambiguous }
}

proof fn lemma_first_index(s: Seq<FileView>, c: Seq<char>)
    ensures
        0 <= first_index(s, c) <= s.len(),
        (first_index(s, c) < s.len()) == has_canonical(s, c),
        first_index(s, c) < s.len() ==> s[first_index(s, c)].canonical_path == c,
        forall|m: int| 0 <= m < first_index(s, c) ==> (#[trigger] s[m]).canonical_path != c,
    decreases s.len(),
{
    if s.len() > 0 {
        let t = s.drop_last();
        lemma_first_index(t, c);
        if has_canonical(t, c) {
            let k = choose|k: int| 0 <= k < t.len() && (#[trigger] t[k]).canonical_path == c;
            assert(s[k] == t[k]);
        }
        if has_canonical(s, c) {
            let k = choose|k: int| 0 <= k < s.len() && (#[trigger] s[k]).canonical_path == c;
            if k < s.len() - 1 {
                assert(t[k] == s[k]);
            }
        }
        assert forall|m: int| 0 <= m < first_index(s, c) implies (#[trigger] s[m]).canonical_path
            != c by {
            if m < t.len() {
                assert(s[m] == t[m]);
            }
        }
    }
}

/// Every file in the merged list stands at the first appearance of its
/// canonical path: the list holds each canonical path of `s` exactly once,
/// each entry is the file of `s` at that path's first position, and the
/// entries follow those positions in order.
pub proof fn lemma_first_occurrences(s: Seq<FileView>)
    ensures
        forall|i: int, j: int|
            0 <= i < j < first_occurrences(s).len() ==> (#[trigger] first_occurrences(s)[i]).canonical_path
                != (#[trigger] first_occurrences(s)[j]).canonical_path,
        forall|k: int|
            0 <= k < s.len() ==> has_canonical(first_occurrences(s), (#[trigger] s[k]).canonical_path),
        forall|i: int|
            0 <= i < first_occurrences(s).len() ==> {
                let f = first_index(s, (#[trigger] first_occurrences(s)[i]).canonical_path);
                0 <= f < s.len() && s[f] == first_occurrences(s)[i]
            },
        forall|i: int, j: int|
            0 <= i < j < first_occurrences(s).len() ==> first_index(
                s,
                (#[trigger] first_occurrences(s)[i]).canonical_path,
            ) < first_index(s, (#[trigger] first_occurrences(s)[j]).canonical_path),
    decreases s.len(),
{
    if s.len() > 0 {
        let t = s.drop_last();
        let x = s.last();
        let rt = first_occurrences(t);
        let r = first_occurrences(s);
        lemma_first_occurrences(t);
        assert forall|c: Seq<char>| has_canonical(t, c) implies first_index(s, c) == first_index(t, c)
            && first_index(t, c) < t.len() by {
            lemma_first_index(t, c);
        }
        assert forall|i: int| 0 <= i < rt.len() implies {
            let f = first_index(s, (#[trigger] rt[i]).canonical_path);
            0 <= f < t.len() && s[f] == rt[i]
        } by {
            let f = first_index(t, rt[i].canonical_path);
            assert(t[f] == rt[i]);
            assert(has_canonical(t, rt[i].canonical_path));
            assert(s[f] == t[f]);
        }
        if has_canonical(rt, x.canonical_path) {
            assert(r == rt);
            assert forall|k: int| 0 <= k < s.len() implies has_canonical(r, (#[trigger] s[k]).canonical_path) by {
                if k < t.len() {
                    assert(t[k] == s[k]);
                }
            }
        } else {
            assert(r == rt.push(x));
            assert(!has_canonical(t, x.canonical_path)) by {
                if has_canonical(t, x.canonical_path) {
                    let k = choose|k: int| 0 <= k < t.len() && (#[trigger] t[k]).canonical_path == x.canonical_path;
                    assert(has_canonical(rt, t[k].canonical_path));
                }
            }
            lemma_first_index(t, x.canonical_path);
            assert(first_index(s, x.canonical_path) == s.len() - 1);
            assert forall|i: int, j: int| 0 <= i < j < r.len() implies (#[trigger] r[i]).canonical_path
                != (#[trigger] r[j]).canonical_path by {
                if j == r.len() - 1 {
                    assert(r[i] == rt[i]);
                    if rt[i].canonical_path == x.canonical_path {
                        assert(has_canonical(rt, x.canonical_path));
                    }
                } else {
                    assert(r[i] == rt[i] && r[j] == rt[j]);
                }
            }
            assert forall|k: int| 0 <= k < s.len() implies has_canonical(r, (#[trigger] s[k]).canonical_path) by {
                if k < t.len() {
                    assert(t[k] == s[k]);
                    let m = choose|m: int| 0 <= m < rt.len() && (#[trigger] rt[m]).canonical_path == t[k].canonical_path;
                    assert(r[m] == rt[m]);
                } else {
                    assert(r[r.len() - 1] == x);
                }
            }
            assert forall|i: int| 0 <= i < r.len() implies {
                let f = first_index(s, (#[trigger] r[i]).canonical_path);
                0 <= f < s.len() && s[f] == r[i]
            } by {
                if i < rt.len() {
                    assert(r[i] == rt[i]);
                }
            }
            assert forall|i: int, j: int| 0 <= i < j < r.len() implies first_index(
                s,
                (#[trigger] r[i]).canonical_path,
            ) < first_index(s, (#[trigger] r[j]).canonical_path) by {
                assert(r[i] == rt[i]);
                if j < rt.len() {
                    assert(r[j] == rt[j]);
                }
            }
        }
    }
}

/// Across all inputs, each resolved canonical file is kept exactly once, at
/// the position of its first appearance in input order.
pub proof fn lemma_merge_keeps_first_of_each(rs: Seq<InputResolution>)
    ensures
        forall|i: int, j: int|
            0 <= i < j < first_occurrences(success_files(rs)).len() ==> (
            #[trigger] first_occurrences(success_files(rs))[i]).canonical_path != (
            #[trigger] first_occurrences(success_files(rs))[j]).canonical_path,
        forall|k: int|
            0 <= k < success_files(rs).len() ==> has_canonical(
                first_occurrences(success_files(rs)),
                (#[trigger] success_files(rs)[k]).canonical_path,
            ),
        forall|i: int, j: int|
            0 <= i < j < first_occurrences(success_files(rs)).len() ==> first_index(
                success_files(rs),
                (#[trigger] first_occurrences(success_files(rs))[i]).canonical_path,
            ) < first_index(
                success_files(rs),
                (#[trigger] first_occurrences(success_files(rs))[j]).canonical_path,
            ),
{
    lemma_first_occurrences(success_files(rs));
}

proof fn lemma_positions_cover(rs: Seq<InputResolution>, i: int)
    requires
        0 <= i < rs.len(),
    ensures
        positions_of(rs, kind_code(rs[i]@)).contains(i),
    decreases rs.len(),
{
    let t = rs.drop_last();
    if i < rs.len() - 1 {
        assert(t[i] == rs[i]);
        lemma_positions_cover(t, i);
        let p = positions_of(t, kind_code(rs[i]@));
        let k = choose|k: int| 0 <= k < p.len() && p[k] == i;
        if kind_code(rs.last()@) == kind_code(rs[i]@) {
            assert(p.push(rs.len() - 1)[k] == i);
        }
    } else {
        let p = positions_of(t, kind_code(rs[i]@));
        assert(p.push(i)[p.len() as int] == i);
    }
}

/// One failing input is enough for the merged outcome to report it in the
/// bucket of its kind, so that the run fails, whatever else resolved.
pub proof fn lemma_any_failure_is_reported(rs: Seq<InputResolution>, i: int)
    requires
        0 <= i < rs.len(),
        !(rs[i] is Success),
    ensures
        1 <= kind_code(rs[i]@) <= 4,
        positions_of(rs, kind_code(rs[i]@)).contains(i),
{
    lemma_positions_cover(rs, i);
}

} // verus!
