//! Resolution of one input token: a literal path, a directory, a glob
//! pattern, or a fragment of a file name.
//!
//! The resolver decides; the caller looks at the filesystem. [`resolve_step`]
//! takes what has been observed so far and either names the next observation
//! it needs or gives the outcome. The caller performs the request, records
//! the answer in [`Observations`] and asks again.
use vstd::prelude::*;
use vstd::string::StringExecFns;
use crate::paths::{
    chars_of, contains_separator, contains_text, display_form, display_of, has_glob_chars,
    has_separator, insert_path, is_glob_pattern, join_path, joined, lemma_ordered_unique, path_before,
    ordered_paths, strictly_ordered, text_contains,
};
use crate::types::{
    files_view, result_view, strings_view, Config, FileView, InputResolution, ResolutionView, ResolvedFile,
};

verus! {

/// What stands at the path a token names directly.
#[derive(Debug, Clone, Copy, PartialEq, Eq)]
pub enum TargetKind {
    Missing,
    File,
    Directory,
    /// Something that is neither a regular file nor a directory.
    Other,
}

/// An observation of the filesystem that the resolver needs next.
#[derive(Debug, Clone)]
pub enum Request {
    /// What kind of entry stands at `path`.
    Inspect { path: String },
    /// The canonical form of the file that the token names, or why it has none.
    CanonicalizeTarget { path: String },
    /// The canonical form (or the failure to form it) of every regular file
    /// beneath the directory `path`, at any depth, following symbolic links.
    ListDirectory { path: String },
    /// The canonical form (or the failure to form it) of every regular file
    /// that `pattern` matches when it is read relative to `directory` (an
    /// absolute pattern stands alone), or the message of the pattern's
    /// compile error. The characters of `directory` match only themselves.
    ExpandGlob { directory: String, pattern: String },
    /// The path of every regular file beneath `root`, at any depth,
    /// following symbolic links.
    WalkWorkingDir { root: String },
    /// The canonical form of the one file that the token matched as a
    /// fragment of its name, or why it has none.
    CanonicalizeMatch { path: String },
}

pub enum RequestView {
    Inspect(Seq<char>),
    CanonicalizeTarget(Seq<char>),
    ListDirectory(Seq<char>),
    ExpandGlob(Seq<char>, Seq<char>),
    WalkWorkingDir(Seq<char>),
    CanonicalizeMatch(Seq<char>),
}

impl View for Request {
    type V = RequestView;

    open spec fn view(&self) -> RequestView {
        match self {
            Request::Inspect { path } => RequestView::Inspect(path@),
            Request::CanonicalizeTarget { path } => RequestView::CanonicalizeTarget(path@),
            Request::ListDirectory { path } => RequestView::ListDirectory(path@),
            Request::ExpandGlob { directory, pattern } => RequestView::ExpandGlob(directory@, pattern@),
            Request::WalkWorkingDir { root } => RequestView::WalkWorkingDir(root@),
            Request::CanonicalizeMatch { path } => RequestView::CanonicalizeMatch(path@),
        }
    }
}

/// The answers to the requests made so far; `None` where nothing was asked.
#[derive(Debug, Clone)]
pub struct Observations {
    /// The answer to `Inspect`.
    pub target: Option<TargetKind>,
    /// The answer to `CanonicalizeTarget`.
    pub target_canonical: Option<Result<String, String>>,
    /// The answer to `ListDirectory`.
    pub directory: Option<Vec<Result<String, String>>>,
    /// The answer to `ExpandGlob`.
    pub glob: Option<Result<Vec<Result<String, String>>, String>>,
    /// The answer to `WalkWorkingDir`.
    pub walk: Option<Vec<String>>,
    /// The answer to `CanonicalizeMatch`.
    pub match_canonical: Option<Result<String, String>>,
}

impl Observations {
    /// Nothing observed yet.
    pub fn new() -> (r: Observations)
        ensures
            r.target is None,
            r.target_canonical is None,
            r.directory is None,
            r.glob is None,
            r.walk is None,
            r.match_canonical is None,
    {
        Observations {
            target: None,
            target_canonical: None,
            directory: None,
            glob: None,
            walk: None,
            match_canonical: None,
        }
    }
}

/// What the resolver does next.
#[derive(Debug, Clone)]
pub enum Step {
    Need(Request),
    Done(InputResolution),
}

pub enum StepView {
    Need(RequestView),
    Done(ResolutionView),
}

impl View for Step {
    type V = StepView;

    open spec fn view(&self) -> StepView {
        match self {
            Step::Need(q) => StepView::Need(q@),
            Step::Done(r) => StepView::Done(r@),
        }
    }
}

/// The file whose canonical path is `canonical`, shown relative to `wd`.
pub open spec fn file_of(canonical: Seq<char>, wd: Seq<char>) -> FileView {
    FileView { display_path: display_of(canonical, wd), canonical_path: canonical }
}

/// The files of a listing whose canonical form was found, in listing order.
pub open spec fn kept_files(list: Seq<Result<String, String>>, wd: Seq<char>) -> Seq<FileView>
    decreases list.len(),
{
    if list.len() == 0 {
        Seq::empty()
    } else {
        let before = kept_files(list.drop_last(), wd);
        match list.last() {
            Ok(c) => before.push(file_of(c@, wd)),
            Err(_) => before,
        }
    }
}

/// The number of entries of a listing whose canonical form was found.
pub open spec fn count_found(list: Seq<Result<String, String>>) -> nat
    decreases list.len(),
{
    if list.len() == 0 {
        0
    } else {
        count_found(list.drop_last()) + if list.last() is Ok {
            1nat
        } else {
            0nat
        }
    }
}

/// Whether `x` is among the first `n` walked paths and its displayed form
/// holds `input`.
pub open spec fn matched_within(
    walk: Seq<String>,
    n: int,
    input: Seq<char>,
    wd: Seq<char>,
    x: Seq<char>,
) -> bool {
    exists|k: int|
        0 <= k < n && #[trigger] walk[k]@ == x && contains_text(display_of(x, wd), input)
}

/// The walked paths whose displayed form holds `input`.
pub open spec fn matching_paths(walk: Seq<String>, input: Seq<char>, wd: Seq<char>) -> Set<Seq<char>> {
    Set::new(|x: Seq<char>| matched_within(walk, walk.len() as int, input, wd, x))
}

/// The fuzzy candidates: the matching paths, ordered and without repeats.
pub open spec fn candidates(walk: Seq<String>, input: Seq<char>, wd: Seq<char>) -> Seq<Seq<char>> {
    ordered_paths(matching_paths(walk, input, wd))
}

/// The outcome of the glob phase for an expansion that compiled.
pub open spec fn glob_outcome(
    list: Seq<Result<String, String>>,
    input: Seq<char>,
    wd: Seq<char>,
) -> ResolutionView {
    if kept_files(list, wd).len() == 0 {
        ResolutionView::NotFound(input)
    } else {
        ResolutionView::Success(kept_files(list, wd))
    }
}

/// The fuzzy phase, once the working directory has been walked.
pub open spec fn fuzzy_step(
    input: Seq<char>,
    wd: Seq<char>,
    walk: Seq<String>,
    single: Option<Result<String, String>>,
) -> StepView {
    let cands = candidates(walk, input, wd);
    if cands.len() == 0 {
        if has_separator(input) {
            StepView::Done(ResolutionView::PathDoesNotExist(input, joined(wd, input)))
        } else {
            StepView::Done(ResolutionView::NotFound(input))
        }
    } else if cands.len() == 1 {
        match single {
            None => StepView::Need(RequestView::CanonicalizeMatch(cands[0])),
            Some(Ok(c)) => StepView::Done(ResolutionView::Success(seq![file_of(c@, wd)])),
            Some(Err(_)) => StepView::Done(ResolutionView::NotFound(input)),
        }
    } else {
        StepView::Done(
            ResolutionView::Ambiguous(input, cands.map_values(|p: Seq<char>| display_of(p, wd))),
        )
    }
}

/// The three phases of resolution, tried in order: a literal path, a glob
/// pattern, a fragment of a name.
pub open spec fn step_of(input: Seq<char>, wd: Seq<char>, obs: Observations) -> StepView {
    let target = joined(wd, input);
    match obs.target {
        None => StepView::Need(RequestView::Inspect(target)),
        Some(TargetKind::File) => match obs.target_canonical {
            None => StepView::Need(RequestView::CanonicalizeTarget(target)),
            Some(Ok(c)) => StepView::Done(ResolutionView::Success(seq![file_of(c@, wd)])),
            Some(Err(_)) => StepView::Done(ResolutionView::NotFound(input)),
        },
        Some(TargetKind::Directory) => match obs.directory {
            None => StepView::Need(RequestView::ListDirectory(target)),
            Some(list) => StepView::Done(ResolutionView::Success(kept_files(list@, wd))),
        },
        _ => if has_glob_chars(input) {
            match obs.glob {
                None => StepView::Need(RequestView::ExpandGlob(wd, input)),
                Some(Err(msg)) => StepView::Done(ResolutionView::InvalidGlobPattern(input, msg@)),
                Some(Ok(list)) => StepView::Done(glob_outcome(list@, input, wd)),
            }
        } else {
            match obs.walk {
                None => StepView::Need(RequestView::WalkWorkingDir(wd)),
                Some(walk) => fuzzy_step(input, wd, walk@, obs.match_canonical),
            }
        },
    }
}

/// The resolved file whose canonical path is `canonical`.
pub fn create_resolved_file(canonical: &str, config: &Config) -> (r: ResolvedFile)
    ensures
        r@ == file_of(canonical@, config.working_dir@),
{
    let display = display_form(canonical, config.working_dir.as_str());
    ResolvedFile::new(display, String::from_str(canonical))
}

/// The files of a listing whose canonical form was found, in listing order;
/// the others are dropped.
pub fn keep_found(list: &Vec<Result<String, String>>, config: &Config) -> (r: Vec<ResolvedFile>)
    ensures
        files_view(r@) == kept_files(list@, config.working_dir@),
        r.len() == count_found(list@),
{
    let ghost wd = config.working_dir@;
    let mut r: Vec<ResolvedFile> = Vec::new();
    let mut i: usize = 0;
    while i < list.len()
        invariant
            wd == config.working_dir@,
            i <= list.len(),
            files_view(r@) == kept_files(list@.take(i as int), wd),
            r.len() == count_found(list@.take(i as int)),
        decreases list.len() - i,
    {
        assert(list@.take(i + 1).drop_last() =~= list@.take(i as int));
        match &list[i] {
            Ok(c) => {
                let f = create_resolved_file(c.as_str(), config);
                let ghost prev = r@;
                r.push(f);
                assert(files_view(r@) =~= files_view(prev).push(f@));
            },
            Err(_) => {},
        }
        i = i + 1;
    }
    assert(list@.take(list.len() as int) =~= list@);
    r
}

/// The walked paths whose displayed form holds `input`, ordered and without
/// repeats.
pub fn fuzzy_candidates(walk: &Vec<String>, input: &str, config: &Config) -> (r: Vec<String>)
    ensures
        strings_view(r@) == candidates(walk@, input@, config.working_dir@),
{
    let ghost wd = config.working_dir@;
    let needle = chars_of(input);
    let mut cands: Vec<String> = Vec::new();
    let mut i: usize = 0;
    while i < walk.len()
        invariant
            wd == config.working_dir@,
            needle@ == input@,
            i <= walk.len(),
            strictly_ordered(strings_view(cands@)),
            forall|x: Seq<char>|
                strings_view(cands@).contains(x) <==> matched_within(walk@, i as int, input@, wd, x),
        decreases walk.len() - i,
    {
        let shown = display_form(walk[i].as_str(), config.working_dir.as_str());
        let hay = chars_of(shown.as_str());
        let hit = text_contains(&hay, &needle);
        let ghost before = strings_view(cands@);
        if hit {
            insert_path(&mut cands, walk[i].clone());
        }
        assert forall|x: Seq<char>|
            strings_view(cands@).contains(x) <==> matched_within(walk@, i + 1, input@, wd, x) by {
            if matched_within(walk@, i + 1, input@, wd, x) {
                let k = choose|k: int|
                    0 <= k < i + 1 && #[trigger] walk@[k]@ == x && contains_text(
                        display_of(x, wd),
                        input@,
                    );
                if k < i {
                    assert(matched_within(walk@, i as int, input@, wd, x));
                }
            }
            if strings_view(cands@).contains(x) && x != walk@[i as int]@ {
                assert(matched_within(walk@, i as int, input@, wd, x));
            }
            if hit && x == walk@[i as int]@ {
                assert(matched_within(walk@, i + 1, input@, wd, x));
            }
        }
        i = i + 1;
    }
    proof {
        let s = matching_paths(walk@, input@, wd);
        let q = strings_view(cands@);
        assert(forall|x: Seq<char>| q.contains(x) <==> s.contains(x));
        let c = ordered_paths(s);
        lemma_ordered_unique(c, q);
    }
    cands
}

/// The displayed form of each candidate.
fn displayed(cands: &Vec<String>, config: &Config) -> (r: Vec<String>)
    ensures
        strings_view(r@) == strings_view(cands@).map_values(
            |p: Seq<char>| display_of(p, config.working_dir@),
        ),
{
    let ghost wd = config.working_dir@;
    let mut r: Vec<String> = Vec::new();
    let mut i: usize = 0;
    while i < cands.len()
        invariant
            wd == config.working_dir@,
            i <= cands.len(),
            strings_view(r@) == strings_view(cands@).take(i as int).map_values(
                |p: Seq<char>| display_of(p, wd),
            ),
        decreases cands.len() - i,
    {
        let d = display_form(cands[i].as_str(), config.working_dir.as_str());
        let ghost prev = r@;
        r.push(d);
        proof {
            let want = strings_view(cands@).take(i + 1).map_values(|p: Seq<char>| display_of(p, wd));
            let have = strings_view(r@);
            assert(strings_view(prev).len() == prev.len());
            assert(strings_view(cands@).take(i as int).len() == i);
            assert(prev.len() == i);
            assert(strings_view(cands@).len() == cands@.len());
            assert(have.len() == want.len());
            assert forall|k: int| 0 <= k < have.len() implies have[k] == want[k] by {
                if k < i {
                    assert(have[k] == strings_view(prev)[k]);
                } else {
                    assert(have[k] == d@);
                    assert(want[k] == display_of(cands@[k]@, wd));
                }
            }
            assert(have =~= want);
        }
        i = i + 1;
    }
    assert(strings_view(cands@).take(cands.len() as int) =~= strings_view(cands@));
    r
}

/// Decides the next move in resolving `input`: the observation still missing,
/// or the outcome.
///
/// A literal path that exists wins: a file resolves to itself, a directory to
/// the regular files beneath it. Otherwise a token with a glob character is
/// expanded as a pattern, and a pattern that matches many files is not
/// ambiguous. Otherwise every file whose path relative to the working
/// directory holds the token is a candidate; one candidate resolves, several
/// are ambiguous, none is not found (or a missing path, when the token holds
/// a separator).
pub fn resolve_step(input: &str, config: &Config, obs: &Observations) -> (r: Step)
    ensures
        r@ == step_of(input@, config.working_dir@, *obs),
{
    let wd = config.working_dir.as_str();
    let target = join_path(wd, input);
    match obs.target {
        None => {
            return Step::Need(Request::Inspect { path: target });
        },
        Some(TargetKind::File) => {
            return match &obs.target_canonical {
                None => Step::Need(Request::CanonicalizeTarget { path: target }),
                Some(Ok(c)) => {
                    let f = create_resolved_file(c.as_str(), config);
                    let v = vec![f];
                    assert(files_view(v@) =~= seq![f@]);
                    Step::Done(InputResolution::Success(v))
                },
                Some(Err(_)) => Step::Done(
                    InputResolution::NotFound { input_string: String::from_str(input) },
                ),
            };
        },
        Some(TargetKind::Directory) => {
            return match &obs.directory {
                None => Step::Need(Request::ListDirectory { path: target }),
                Some(list) => Step::Done(InputResolution::Success(keep_found(list, config))),
            };
        },
        _ => {},
    }
    if is_glob_pattern(input) {
        return match &obs.glob {
            None => Step::Need(
                Request::ExpandGlob {
                    directory: config.working_dir.clone(),
                    pattern: String::from_str(input),
                },
            ),
            Some(Err(msg)) => Step::Done(
                InputResolution::InvalidGlobPattern {
                    input_string: String::from_str(input),
                    error: msg.clone(),
                },
            ),
            Some(Ok(list)) => {
                let files = keep_found(list, config);
                if files.len() == 0 {
                    Step::Done(InputResolution::NotFound { input_string: String::from_str(input) })
                } else {
                    Step::Done(InputResolution::Success(files))
                }
            },
        };
    }
    match &obs.walk {
        None => Step::Need(Request::WalkWorkingDir { root: config.working_dir.clone() }),
        Some(walk) => {
            let cands = fuzzy_candidates(walk, input, config);
            if cands.len() == 0 {
                if contains_separator(input) {
                    Step::Done(
                        InputResolution::PathDoesNotExist {
                            input_string: String::from_str(input),
                            path_tried: target,
                        },
                    )
                } else {
                    Step::Done(InputResolution::NotFound { input_string: String::from_str(input) })
                }
            } else if cands.len() == 1 {
                match &obs.match_canonical {
                    None => Step::Need(Request::CanonicalizeMatch { path: cands[0].clone() }),
                    Some(Ok(c)) => {
                        let f = create_resolved_file(c.as_str(), config);
                        let v = vec![f];
                        assert(files_view(v@) =~= seq![f@]);
                        Step::Done(InputResolution::Success(v))
                    },
                    Some(Err(_)) => Step::Done(
                        InputResolution::NotFound { input_string: String::from_str(input) },
                    ),
                }
            } else {
                let shown = displayed(&cands, config);
                Step::Done(
                    InputResolution::Ambiguous {
                        input_string: String::from_str(input),
                        conflicting_paths: shown,
                    },
                )
            }
        },
    }
}

/// A fragment that matches exactly two files, and no literal path or glob
/// pattern, is ambiguous between the two, listed in path order as the user
/// sees them.
pub proof fn lemma_two_matches_are_ambiguous(
    input: Seq<char>,
    wd: Seq<char>,
    obs: Observations,
    walk: Vec<String>,
    a: Seq<char>,
    b: Seq<char>,
)
    requires
        obs.target == Some(TargetKind::Missing) || obs.target == Some(TargetKind::Other),
        !has_glob_chars(input),
        obs.walk == Some(walk),
        path_before(a, b),
        forall|x: Seq<char>| #[trigger] matching_paths(walk@, input, wd).contains(x) <==> (x == a || x == b),
    ensures
        step_of(input, wd, obs) == StepView::Done(
            ResolutionView::Ambiguous(input, seq![display_of(a, wd), display_of(b, wd)]),
        ),
{
    let q = seq![a, b];
    let s = matching_paths(walk@, input, wd);
    assert forall|i: int, j: int| 0 <= i < j < q.len() implies path_before(#[trigger] q[i], #[trigger] q[j]) by {}
    assert forall|x: Seq<char>| q.contains(x) <==> s.contains(x) by {
        if x == a {
            assert(q[0] == x);
        }
        if x == b {
            assert(q[1] == x);
        }
    }
    assert(strictly_ordered(q));
    assert(forall|x: Seq<char>| q.contains(x) <==> s.contains(x));
    let c = ordered_paths(s);
    lemma_ordered_unique(c, q);
    assert(c.map_values(|p: Seq<char>| display_of(p, wd)) =~= seq![display_of(a, wd), display_of(b, wd)]);
}

proof fn lemma_kept_count(list: Seq<Result<String, String>>, wd: Seq<char>)
    ensures
        kept_files(list, wd).len() == count_found(list),
    decreases list.len(),
{
    if list.len() > 0 {
        lemma_kept_count(list.drop_last(), wd);
    }
}

/// A token that names an existing regular file resolves to exactly one file,
/// whose canonical path is the canonical form of the path the token names.
pub proof fn lemma_existing_file_resolves_to_itself(
    input: Seq<char>,
    wd: Seq<char>,
    obs: Observations,
    canonical: String,
)
    requires
        obs.target == Some(TargetKind::File),
        obs.target_canonical == Some(Ok::<String, String>(canonical)),
    ensures
        step_of(input, wd, obs) matches StepView::Done(ResolutionView::Success(files)) && files.len()
            == 1 && files[0].canonical_path == canonical@,
{
}

/// A token that names an existing directory resolves to one file for each
/// regular file beneath it, less those whose canonical form could not be had.
pub proof fn lemma_directory_resolves_to_each_file(
    input: Seq<char>,
    wd: Seq<char>,
    obs: Observations,
    list: Vec<Result<String, String>>,
)
    requires
        obs.target == Some(TargetKind::Directory),
        obs.directory == Some(list),
    ensures
        step_of(input, wd, obs) matches StepView::Done(ResolutionView::Success(files)) && files.len()
            == count_found(list@),
{
    lemma_kept_count(list@, wd);
}

/// Only the search for a fragment of a name can find a token ambiguous: it
/// takes a token with no glob character whose path does not exist as a file
/// or directory. A glob pattern that matches many files is never ambiguous.
pub proof fn lemma_only_fuzzy_search_is_ambiguous(input: Seq<char>, wd: Seq<char>, obs: Observations)
    ensures
        step_of(input, wd, obs) matches StepView::Done(ResolutionView::Ambiguous(_, _)) ==> {
            &&& !has_glob_chars(input)
            &&& obs.walk is Some
            &&& obs.target == Some(TargetKind::Missing) || obs.target == Some(TargetKind::Other)
        },
        has_glob_chars(input) ==> !(step_of(input, wd, obs) matches StepView::Done(
            ResolutionView::Ambiguous(_, _),
        )),
{
}

pub open spec fn answer_view(a: Option<Result<String, String>>) -> Option<Result<Seq<char>, Seq<char>>> {
    match a {
        Some(r) => Some(result_view(r)),
        None => None,
    }
}

pub open spec fn listing_view(a: Option<Vec<Result<String, String>>>) -> Option<Seq<Result<Seq<char>, Seq<char>>>> {
    match a {
        Some(v) => Some(v@.map_values(|r: Result<String, String>| result_view(r))),
        None => None,
    }
}

pub open spec fn glob_view(a: Option<Result<Vec<Result<String, String>>, String>>) -> Option<
    Result<Seq<Result<Seq<char>, Seq<char>>>, Seq<char>>,
> {
    match a {
        Some(Ok(v)) => Some(Ok(v@.map_values(|r: Result<String, String>| result_view(r)))),
        Some(Err(e)) => Some(Err(e@)),
        None => None,
    }
}

pub open spec fn walk_view(a: Option<Vec<String>>) -> Option<Seq<Seq<char>>> {
    match a {
        Some(v) => Some(strings_view(v@)),
        None => None,
    }
}

/// Whether two records of observations hold the same answers.
pub open spec fn same_answers(a: Observations, b: Observations) -> bool {
    &&& a.target == b.target
    &&& answer_view(a.target_canonical) == answer_view(b.target_canonical)
    &&& listing_view(a.directory) == listing_view(b.directory)
    &&& glob_view(a.glob) == glob_view(b.glob)
    &&& walk_view(a.walk) == walk_view(b.walk)
    &&& answer_view(a.match_canonical) == answer_view(b.match_canonical)
}

proof fn lemma_kept_same(a: Seq<Result<String, String>>, b: Seq<Result<String, String>>, wd: Seq<char>)
    requires
        a.map_values(|r: Result<String, String>| result_view(r)) == b.map_values(
            |r: Result<String, String>| result_view(r),
        ),
    ensures
        kept_files(a, wd) == kept_files(b, wd),
    decreases a.len(),
{
    let va = a.map_values(|r: Result<String, String>| result_view(r));
    let vb = b.map_values(|r: Result<String, String>| result_view(r));
    assert(va.len() == vb.len());
    if a.len() > 0 {
        assert(a.drop_last().map_values(|r: Result<String, String>| result_view(r)) =~= va.drop_last());
        assert(b.drop_last().map_values(|r: Result<String, String>| result_view(r)) =~= vb.drop_last());
        lemma_kept_same(a.drop_last(), b.drop_last(), wd);
        assert(va[a.len() - 1] == vb[b.len() - 1]);
    }
}

proof fn lemma_candidates_same(a: Seq<String>, b: Seq<String>, input: Seq<char>, wd: Seq<char>)
    requires
        strings_view(a) == strings_view(b),
    ensures
        candidates(a, input, wd) == candidates(b, input, wd),
{
    assert(strings_view(a).len() == a.len() && strings_view(b).len() == b.len());
    assert forall|x: Seq<char>| matched_within(a, a.len() as int, input, wd, x) == matched_within(
        b,
        b.len() as int,
        input,
        wd,
        x,
    ) by {
        if matched_within(a, a.len() as int, input, wd, x) {
            let k = choose|k: int|
                0 <= k < a.len() && #[trigger] a[k]@ == x && contains_text(display_of(x, wd), input);
            assert(strings_view(a)[k] == a[k]@ && strings_view(b)[k] == b[k]@);
            assert(b[k]@ == x);
        }
        if matched_within(b, b.len() as int, input, wd, x) {
            let k = choose|k: int|
                0 <= k < b.len() && #[trigger] b[k]@ == x && contains_text(display_of(x, wd), input);
            assert(strings_view(a)[k] == a[k]@ && strings_view(b)[k] == b[k]@);
            assert(a[k]@ == x);
        }
    }
    assert(matching_paths(a, input, wd) =~= matching_paths(b, input, wd));
}

/// Resolution has no memory: resolving the same token against the same
/// answers from the filesystem gives the same step, so resolving it twice
/// against an unchanged filesystem gives the same outcome.
pub proof fn lemma_same_answers_same_step(
    input: Seq<char>,
    wd: Seq<char>,
    a: Observations,
    b: Observations,
)
    requires
        same_answers(a, b),
    ensures
        step_of(input, wd, a) == step_of(input, wd, b),
{
    match (a.directory, b.directory) {
        (Some(x), Some(y)) => lemma_kept_same(x@, y@, wd),
        _ => {},
    }
    match (a.glob, b.glob) {
        (Some(Ok(x)), Some(Ok(y))) => lemma_kept_same(x@, y@, wd),
        _ => {},
    }
    match (a.walk, b.walk) {
        (Some(x), Some(y)) => lemma_candidates_same(x@, y@, input, wd),
        _ => {},
    }
}

} // verus!
