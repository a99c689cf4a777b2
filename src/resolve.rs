//! Where an entry is written: the destination root, an optional directory
//! named after the archive, then the entry's sanitised segments.
use vstd::prelude::*;
use crate::sanitize::{is_named, sanitize, sanitized_segments, texts};
use crate::text::{lemma_pieces_nonempty, pieces};

verus! {

/// How a run extracts.
pub struct ExtractionOptions {
    /// The directory written under; the working directory where absent.
    pub destination_root: Option<String>,
    /// Whether each archive gets a directory named after its base name.
    pub per_archive_subdir: bool,
    /// Filter rules, in order, each optionally negated with a leading `!`.
    pub exclude_rules: Vec<String>,
    /// Whether an existing file is replaced.
    pub overwrite: bool,
}

impl ExtractionOptions {
    /// No destination, no per-archive directory, no rules, and overwriting.
    pub fn new() -> (r: ExtractionOptions)
        ensures
            r.destination_root is None,
            !r.per_archive_subdir,
            r.exclude_rules@.len() == 0,
            r.overwrite,
    {
        ExtractionOptions {
            destination_root: None,
            per_archive_subdir: false,
            exclude_rules: Vec::new(),
            overwrite: true,
        }
    }
}

/// The place an entry is written to, as path parts to join in order.
pub struct ResolvedTarget {
    pub root: Option<String>,
    pub subdir: Option<String>,
    pub segments: Vec<String>,
}

/// Why a single entry cannot be extracted.
#[derive(Clone, Copy, PartialEq, Eq, Structural, Debug)]
pub enum EntryError {
    /// The logical path names no file: it is empty or ends in a directory.
    InvalidEntryPath,
}

/// The text of an optional string.
pub open spec fn opt_text(o: Option<String>) -> Option<Seq<char>> {
    match o {
        Some(s) => Some(s@),
        None => None,
    }
}

/// A logical path names a file when its last component carries a name.
pub open spec fn names_file(p: Seq<char>) -> bool {
    is_named(pieces(p, '/').last())
}

/// `t` is the target of the entry at `path` in the archive with base name
/// `stem`, under `options`.
pub open spec fn is_target_of(
    t: ResolvedTarget,
    options: ExtractionOptions,
    stem: Seq<char>,
    path: Seq<char>,
) -> bool {
    &&& opt_text(t.root) == opt_text(options.destination_root)
    &&& opt_text(t.subdir) == (if options.per_archive_subdir {
        Some(stem)
    } else {
        None::<Seq<char>>
    })
    &&& texts(t.segments@) == sanitized_segments(path)
}

/// Where the last component of `p` starts.
fn last_component_start(p: &str) -> (r: usize)
    ensures
        r <= p@.len(),
        pieces(p@, '/').last() == p@.subrange(r as int, p@.len() as int),
{
    let n = p.unicode_len();
    let mut start: usize = 0;
    let mut i: usize = 0;
    assert(p@.take(0) =~= Seq::<char>::empty());
    assert(p@.subrange(0, 0) =~= Seq::<char>::empty());
    while i < n
        invariant
            start <= i <= n,
            n == p@.len(),
            pieces(p@.take(i as int), '/').last() == p@.subrange(start as int, i as int),
        decreases n - i,
    {
        let ch = p.get_char(i);
        assert(p@.take(i + 1).drop_last() =~= p@.take(i as int));
        assert(p@.take(i + 1).last() == ch);
        proof {
            lemma_pieces_nonempty(p@.take(i as int), '/');
        }
        if ch == '/' {
            assert(p@.subrange(i + 1, i + 1) =~= Seq::<char>::empty());
            start = i + 1;
        } else {
            assert(p@.subrange(start as int, i + 1) =~= p@.subrange(start as int, i as int).push(ch));
        }
        i = i + 1;
    }
    assert(p@.take(n as int) =~= p@);
    start
}

/// Whether the logical path `p` names a file.
pub fn entry_names_file(p: &str) -> (r: bool)
    ensures
        r == names_file(p@),
{
    let start = last_component_start(p);
    let n = p.unicode_len();
    let last = p.substring_char(start, n);
    let len = last.unicode_len();
    if len == 0 {
        return false;
    }
    if len == 1 && last.get_char(0) == '.' {
        assert(last@ =~= seq!['.']);
        return false;
    }
    assert(last@ != seq!['.']) by {
        if len == 1 {
            assert(last@[0] != seq!['.'][0]);
        }
    }
    true
}

fn copy_text(o: &Option<String>) -> (r: Option<String>)
    ensures
        opt_text(r) == opt_text(*o),
{
    match o {
        Some(s) => Some(s.clone()),
        None => None,
    }
}

/// The target of the entry at `entry_path` in the archive whose base name
/// (without extension) is `archive_stem`: the destination root if any, the
/// archive's own directory if asked for, then the sanitised segments of the
/// path. A path that names no file is refused.
pub fn resolve(archive_stem: &str, entry_path: &str, options: &ExtractionOptions) -> (r: Result<
    ResolvedTarget,
    EntryError,
>)
    ensures
        r is Ok <==> names_file(entry_path@),
        r matches Ok(t) ==> is_target_of(t, *options, archive_stem@, entry_path@),
        r is Err ==> r == Err::<ResolvedTarget, EntryError>(EntryError::InvalidEntryPath),
{
    if !entry_names_file(entry_path) {
        return Err(EntryError::InvalidEntryPath);
    }
    let root = copy_text(&options.destination_root);
    let subdir = if options.per_archive_subdir {
        Some(archive_stem.to_string())
    } else {
        None
    };
    let segments = sanitize(entry_path);
    Ok(ResolvedTarget { root, subdir, segments })
}

} // verus!
