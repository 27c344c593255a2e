//! The text that stands for each resolved file, and the Markdown document
//! that holds them all.
use vstd::prelude::*;
use vstd::string::{StrSliceExecFns, StringExecFns};
use crate::paths::{chars_of, SEPARATOR};
use crate::symbol_extractor::{create_skeleton_by_depth, skeleton_result};
use crate::text::{strip_trailing, trim_end};
use crate::types::{FileContext, ResolvedFile};

verus! {

/// What Rust's `Debug` formatting gives for the text `s`: the text quoted,
/// with special characters escaped.
pub uninterp spec fn debug_text(s: Seq<char>) -> Seq<char>;

/// Relies on the standard library's `Debug` formatting of `str`, whose
/// result depends on the text alone.
#[verifier::external_body]
fn debug_quoted(s: &str) -> (r: String)
    ensures
        r@ == debug_text(s@),
{
    format!("{:?}", s)
}

/// The position of the last `c` in `s`, or -1.
pub open spec fn last_index_of(s: Seq<char>, c: char) -> int
    decreases s.len(),
{
    if s.len() == 0 {
        -1
    } else if s.last() == c {
        s.len() - 1
    } else {
        last_index_of(s.drop_last(), c)
    }
}

fn find_last(v: &Vec<char>, c: char) -> (r: Option<usize>)
    ensures
        match r {
            Some(i) => i == last_index_of(v@, c) && i < v.len(),
            None => last_index_of(v@, c) == -1,
        },
{
    let mut i: usize = v.len();
    assert(v@.take(v.len() as int) =~= v@);
    while i > 0 && v[i - 1] != c
        invariant
            i <= v.len(),
            last_index_of(v@, c) == last_index_of(v@.take(i as int), c),
        decreases i,
    {
        assert(v@.take(i as int).drop_last() =~= v@.take(i - 1));
        i = i - 1;
    }
    if i == 0 {
        assert(v@.take(0) =~= Seq::<char>::empty());
        None
    } else {
        assert(v@.take(i as int).last() == c);
        Some(i - 1)
    }
}

/// The last component of a path: what follows its last separator.
pub open spec fn file_name_of(p: Seq<char>) -> Seq<char> {
    p.skip(last_index_of(p, SEPARATOR) + 1)
}

/// The extension of a path's file name: what follows the last dot of the
/// name, when that dot is not its first character; empty otherwise.
pub open spec fn extension_of(p: Seq<char>) -> Seq<char> {
    let name = file_name_of(p);
    let k = last_index_of(name, '.');
    if k > 0 {
        name.skip(k + 1)
    } else {
        Seq::empty()
    }
}

/// The extension of the file that `path` names, or "" when it has none.
pub fn file_extension(path: &str) -> (r: String)
    ensures
        r@ == extension_of(path@),
{
    let v = chars_of(path);
    let start: usize = match find_last(&v, SEPARATOR) {
        Some(s) => s + 1,
        None => 0,
    };
    let name = path.substring_char(start, v.len());
    assert(name@ =~= file_name_of(path@));
    let nv = chars_of(name);
    match find_last(&nv, '.') {
        Some(k) => {
            if k > 0 {
                let ext = name.substring_char(k + 1, nv.len());
                assert(ext@ =~= extension_of(path@));
                String::from_str(ext)
            } else {
                String::new()
            }
        },
        None => String::new(),
    }
}

/// The text that stands for a file whose skeleton could not be made: a
/// notice, then the full content.
pub open spec fn fallback_text(display: Seq<char>, detail: Seq<char>, content: Seq<char>) -> Seq<char> {
    "---\n-- ERROR: Could not extract symbols from "@ + debug_text(display) + ": "@ + detail
        + "\n-- Falling back to full file content.\n---\n\n"@ + content
}

/// The text that stands for the file shown as `display` whose content is
/// `content`: the content itself, or with a depth the skeleton made with the
/// grammar for the file's extension, or the fallback when there is none.
pub open spec fn context_text(display: Seq<char>, content: Seq<char>, depth: Option<usize>) -> Seq<char> {
    match depth {
        None => content,
        Some(d) => match skeleton_result(content, extension_of(display), d as nat) {
            Ok(s) => s,
            Err(e) => fallback_text(display, e, content),
        },
    }
}

/// The context of the file shown as `display_path` whose content is
/// `content`: the content in full, or with `depth` its skeleton, falling
/// back to the full content when no skeleton can be made.
pub fn file_context(display_path: &str, content: &str, depth: Option<usize>) -> (r: FileContext)
    ensures
        r.display_path@ == display_path@,
        r.content@ == context_text(display_path@, content@, depth),
{
    let text = match depth {
        None => String::from_str(content),
        Some(d) => {
            let ext = file_extension(display_path);
            match create_skeleton_by_depth(content, ext.as_str(), d) {
                Ok(s) => s,
                Err(e) => {
                    let m = String::from_str("---\n-- ERROR: Could not extract symbols from ");
                    let q = debug_quoted(display_path);
                    let m = m.concat(q.as_str()).concat(": ").concat(e.as_str());
                    let m = m.concat("\n-- Falling back to full file content.\n---\n\n");
                    m.concat(content)
                },
            }
        },
    };
    FileContext { display_path: String::from_str(display_path), content: text }
}

pub open spec fn contexts_view(cs: Seq<FileContext>) -> Seq<(Seq<char>, Seq<char>)> {
    cs.map_values(|c: FileContext| (c.display_path@, c.content@))
}

/// The contexts of the files whose reading succeeded, in file order;
/// `reads[i]` is what reading `files[i]` gave, and a file whose reading
/// failed has no context.
pub open spec fn expected_contexts(
    files: Seq<ResolvedFile>,
    reads: Seq<Result<String, String>>,
    depth: Option<usize>,
) -> Seq<(Seq<char>, Seq<char>)>
    decreases files.len(),
{
    if files.len() == 0 {
        Seq::empty()
    } else {
        let before = expected_contexts(files.drop_last(), reads.drop_last(), depth);
        let shown = files.last()@.display_path;
        match reads.last() {
            Ok(c) => before.push((shown, context_text(shown, c@, depth))),
            Err(_) => before,
        }
    }
}

/// The contexts of the resolved files that could be read, in order;
/// `reads[i]` is what reading `files[i]` gave. A file that could not be read
/// is skipped.
pub fn generate_file_contexts(
    files: &Vec<ResolvedFile>,
    reads: &Vec<Result<String, String>>,
    depth: Option<usize>,
) -> (r: Vec<FileContext>)
    requires
        files.len() == reads.len(),
    ensures
        contexts_view(r@) == expected_contexts(files@, reads@, depth),
{
    let mut r: Vec<FileContext> = Vec::new();
    let mut i: usize = 0;
    while i < files.len()
        invariant
            files.len() == reads.len(),
            i <= files.len(),
            contexts_view(r@) == expected_contexts(files@.take(i as int), reads@.take(i as int), depth),
        decreases files.len() - i,
    {
        assert(files@.take(i + 1).drop_last() =~= files@.take(i as int));
        assert(reads@.take(i + 1).drop_last() =~= reads@.take(i as int));
        match &reads[i] {
            Ok(content) => {
                let c = file_context(files[i].display_path(), content.as_str(), depth);
                let ghost prev = r@;
                r.push(c);
                assert(contexts_view(r@) =~= contexts_view(prev).push((c.display_path@, c.content@)));
            },
            Err(_) => {},
        }
        i = i + 1;
    }
    assert(files@.take(files.len() as int) =~= files@);
    assert(reads@.take(reads.len() as int) =~= reads@);
    r
}

/// The Markdown block of one file: its display path, then its content in a
/// fenced block whose language hint is the file's extension (none for a
/// skeleton).
pub open spec fn markdown_block(display: Seq<char>, content: Seq<char>, skeleton_mode: bool) -> Seq<char> {
    let hint = if skeleton_mode {
        Seq::empty()
    } else {
        extension_of(display)
    };
    display + "\n```"@ + hint + "\n"@ + strip_trailing(content) + "\n```\n\n"@
}

/// The blocks of all contexts, one after another.
pub open spec fn markdown_document(cs: Seq<FileContext>, skeleton_mode: bool) -> Seq<char>
    decreases cs.len(),
{
    if cs.len() == 0 {
        Seq::empty()
    } else {
        markdown_document(cs.drop_last(), skeleton_mode) + markdown_block(
            cs.last().display_path@,
            cs.last().content@,
            skeleton_mode,
        )
    }
}

/// The Markdown document for the contexts, in order.
pub fn generate_markdown_output(contexts: &Vec<FileContext>, skeleton_mode: bool) -> (r: String)
    ensures
        r@ == markdown_document(contexts@, skeleton_mode),
{
    let mut out = String::new();
    let mut i: usize = 0;
    while i < contexts.len()
        invariant
            i <= contexts.len(),
            out@ == markdown_document(contexts@.take(i as int), skeleton_mode),
        decreases contexts.len() - i,
    {
        assert(contexts@.take(i + 1).drop_last() =~= contexts@.take(i as int));
        let c = &contexts[i];
        let hint = if skeleton_mode {
            String::new()
        } else {
            file_extension(c.display_path.as_str())
        };
        let body = trim_end(c.content.as_str());
        out.append(c.display_path.as_str());
        out.append("\n```");
        out.append(hint.as_str());
        out.append("\n");
        out.append(body.as_str());
        out.append("\n```\n\n");
        i = i + 1;
    }
    assert(contexts@.take(contexts.len() as int) =~= contexts@);
    out
}

/// The most candidates of an ambiguous input that a report lists.
pub const MAX_AMBIGUOUS_PATHS_TO_SHOW: usize = 8;

/// How many of `count` candidates of an ambiguous input a report lists; the
/// rest are summed up in one line.
pub fn ambiguous_paths_shown(count: usize) -> (r: usize)
    ensures
        r == if count <= MAX_AMBIGUOUS_PATHS_TO_SHOW {
            count
        } else {
            MAX_AMBIGUOUS_PATHS_TO_SHOW
        },
{
    if count <= MAX_AMBIGUOUS_PATHS_TO_SHOW {
        count
    } else {
        MAX_AMBIGUOUS_PATHS_TO_SHOW
    }
}

} // verus!
