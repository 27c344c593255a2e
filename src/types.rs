use vstd::prelude::*;
use vstd::string::StringExecFns;

verus! {

/// The mathematical content of a resolved file: its two paths as text.
pub struct FileView {
    pub display_path: Seq<char>,
    pub canonical_path: Seq<char>,
}

/// A file that resolution found, ready for inclusion.
///
/// Identity is the canonical path; the display path is what the user sees.
#[derive(Debug, Clone)]
pub struct ResolvedFile {
    pub(crate) display_path: String,
    pub(crate) canonical_path: String,
}

impl View for ResolvedFile {
    type V = FileView;

    open(crate) spec fn view(&self) -> FileView {
        FileView { display_path: self.display_path@, canonical_path: self.canonical_path@ }
    }
}

impl ResolvedFile {
    pub fn new(display_path: String, canonical_path: String) -> (r: ResolvedFile)
        ensures
            r@.display_path == display_path@,
            r@.canonical_path == canonical_path@,
    {
        ResolvedFile { display_path, canonical_path }
    }

    /// The path to show to the user.
    pub fn display_path(&self) -> (r: &str)
        ensures
            r@ == self@.display_path,
    {
        self.display_path.as_str()
    }

    /// The absolute, symlink-free path that identifies the file.
    pub fn canonical_path(&self) -> (r: &str)
        ensures
            r@ == self@.canonical_path,
    {
        self.canonical_path.as_str()
    }

    /// A copy whose paths hold the same text.
    pub fn duplicate(&self) -> (r: ResolvedFile)
        ensures
            r@ == self@,
    {
        ResolvedFile {
            display_path: self.display_path.clone(),
            canonical_path: self.canonical_path.clone(),
        }
    }
}

/// The mathematical content of an [`InputResolution`].
pub enum ResolutionView {
    Success(Seq<FileView>),
    Ambiguous(Seq<char>, Seq<Seq<char>>),
    NotFound(Seq<char>),
    PathDoesNotExist(Seq<char>, Seq<char>),
    InvalidGlobPattern(Seq<char>, Seq<char>),
}

/// The outcome of resolving one input token.
#[derive(Debug, Clone)]
pub enum InputResolution {
    /// One or more files: a single match, or the expansion of a directory or pattern.
    Success(Vec<ResolvedFile>),
    /// A fragment of a name that matched several files.
    Ambiguous { input_string: String, conflicting_paths: Vec<String> },
    /// Nothing matched the token.
    NotFound { input_string: String },
    /// The token looked like a path, and nothing exists there.
    PathDoesNotExist { input_string: String, path_tried: String },
    /// The token is a glob pattern that does not compile.
    InvalidGlobPattern { input_string: String, error: String },
}

pub open spec fn files_view(files: Seq<ResolvedFile>) -> Seq<FileView> {
    files.map_values(|f: ResolvedFile| f@)
}

pub open spec fn strings_view(strings: Seq<String>) -> Seq<Seq<char>> {
    strings.map_values(|s: String| s@)
}

pub open spec fn result_view(r: Result<String, String>) -> Result<Seq<char>, Seq<char>> {
    match r {
        Ok(s) => Ok(s@),
        Err(e) => Err(e@),
    }
}

impl View for InputResolution {
    type V = ResolutionView;

    open spec fn view(&self) -> ResolutionView {
        match self {
            InputResolution::Success(files) => ResolutionView::Success(files_view(files@)),
            InputResolution::Ambiguous { input_string, conflicting_paths } =>
                ResolutionView::Ambiguous(input_string@, strings_view(conflicting_paths@)),
            InputResolution::NotFound { input_string } => ResolutionView::NotFound(input_string@),
            InputResolution::PathDoesNotExist { input_string, path_tried } =>
                ResolutionView::PathDoesNotExist(input_string@, path_tried@),
            InputResolution::InvalidGlobPattern { input_string, error } =>
                ResolutionView::InvalidGlobPattern(input_string@, error@),
        }
    }
}

/// A symbol definition found in a source file, ordered by where it starts.
#[derive(Debug, Clone, PartialEq, Eq)]
pub struct Tag {
    /// The name of the symbol.
    pub name: String,
    /// The kind of symbol ("function", "method", "class", ...).
    pub kind: String,
    /// The byte offset at which the definition starts.
    pub start_byte: usize,
    /// The first line of the definition.
    pub line_text: String,
    /// The documentation attached to the symbol, if any.
    pub doc_string: Option<String>,
}

pub open spec fn compare_offsets(a: usize, b: usize) -> core::cmp::Ordering {
    if a < b {
        core::cmp::Ordering::Less
    } else if a == b {
        core::cmp::Ordering::Equal
    } else {
        core::cmp::Ordering::Greater
    }
}

impl PartialOrd for Tag {
    fn partial_cmp(&self, other: &Tag) -> (r: Option<core::cmp::Ordering>)
        ensures
            r == Some(compare_offsets(self.start_byte, other.start_byte)),
    {
        if self.start_byte < other.start_byte {
            Some(core::cmp::Ordering::Less)
        } else if self.start_byte == other.start_byte {
            Some(core::cmp::Ordering::Equal)
        } else {
            Some(core::cmp::Ordering::Greater)
        }
    }
}

impl vstd::std_specs::cmp::PartialOrdSpecImpl for Tag {
    open spec fn obeys_partial_cmp_spec() -> bool {
        true
    }

    open spec fn partial_cmp_spec(&self, other: &Tag) -> Option<core::cmp::Ordering> {
        Some(compare_offsets(self.start_byte, other.start_byte))
    }
}

/// Settings shared by every resolution: the directory that relative input is anchored at.
#[derive(Debug, Clone)]
pub struct Config {
    pub working_dir: String,
}

impl Config {
    /// A configuration anchored at `working_dir`, the process's working directory.
    pub fn new(working_dir: String) -> (r: Config)
        ensures
            r.working_dir@ == working_dir@,
    {
        Config { working_dir }
    }
}

/// Failures of the program around the library.
#[derive(Debug)]
pub enum AppError {
    IoError(String),
}

impl AppError {
    /// The text that reports the error.
    pub fn message(&self) -> (r: String)
        ensures
            match self {
                AppError::IoError(detail) => r@ == "I/O error: "@ + detail@,
            },
    {
        match self {
            AppError::IoError(detail) => {
                let r = String::from_str("I/O error: ");
                r.concat(detail.as_str())
            },
        }
    }
}

/// A file's display path paired with the text that stands for it in the output.
#[derive(Debug, Clone)]
pub struct FileContext {
    pub display_path: String,
    pub content: String,
}

} // verus!
