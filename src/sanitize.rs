//! Turning an untrusted logical path into segments that are safe to use as
//! file and directory names, one segment at a time.
use vstd::prelude::*;
use crate::text::{free_of, joined, pieces, lemma_pieces_of_joined};

verus! {

/// What sanitize_filename makes of `name` with the given options.
pub uninterp spec fn sanitized_name(
    name: Seq<char>,
    windows: bool,
    truncate: bool,
    replacement: Seq<char>,
) -> Seq<char>;

/// Relies on sanitize_filename::sanitize_with_options: strips characters
/// that are illegal in a file name (on Windows too, when asked), names made
/// only of dots, reserved device names and trailing dots or spaces, then
/// truncates to 255 bytes.
#[verifier::external_body]
fn sanitize_name(name: &str, windows: bool, truncate: bool, replacement: &str) -> (r: String)
    ensures
        r@ == sanitized_name(name@, windows, truncate, replacement@),
{
    sanitize_filename::sanitize_with_options(
        name,
        sanitize_filename::Options { windows, truncate, replacement },
    )
}

/// sanitize_filename's treatment with every platform's rules applied and
/// offending text removed.
pub open spec fn cleaned(c: Seq<char>) -> Seq<char> {
    sanitized_name(c, true, true, Seq::<char>::empty())
}

/// The segment put in place of one that cannot be made safe.
pub open spec fn fallback_segment() -> Seq<char> {
    seq!['_']
}

/// A non-empty name, neither `.` nor `..`, holding no path separator and
/// no `:`, which could make it a drive prefix.
pub open spec fn is_safe_segment(s: Seq<char>) -> bool {
    &&& s.len() > 0
    &&& s != seq!['.']
    &&& s != seq!['.', '.']
    &&& free_of(s, '/')
    &&& free_of(s, '\\')
    &&& free_of(s, ':')
}

/// The safe segment that stands for the logical component `c`: `c` cleaned,
/// where that is safe and cleaning it again changes nothing; otherwise the
/// fallback, which itself is kept as it is.
pub open spec fn safe_segment(c: Seq<char>) -> Seq<char> {
    if c == fallback_segment() {
        c
    } else if is_safe_segment(cleaned(c)) && cleaned(cleaned(c)) == cleaned(c) {
        cleaned(c)
    } else {
        fallback_segment()
    }
}

/// Components that carry a name: neither empty (from a doubled or outer
/// `/`) nor `.`.
pub open spec fn is_named(c: Seq<char>) -> bool {
    c.len() > 0 && c != seq!['.']
}

/// The named components of `xs`, in order.
pub open spec fn named(xs: Seq<Seq<char>>) -> Seq<Seq<char>>
    decreases xs.len(),
{
    if xs.len() == 0 {
        Seq::<Seq<char>>::empty()
    } else if is_named(xs.last()) {
        named(xs.drop_last()).push(xs.last())
    } else {
        named(xs.drop_last())
    }
}

/// The safe segments of the logical path `p`, one for each named component.
pub open spec fn sanitized_segments(p: Seq<char>) -> Seq<Seq<char>> {
    named(pieces(p, '/')).map_values(|c: Seq<char>| safe_segment(c))
}

/// The sanitised path: its segments joined with `/`.
pub open spec fn sanitized_path(p: Seq<char>) -> Seq<char> {
    joined(sanitized_segments(p), '/')
}

/// The text of each string.
pub open spec fn texts(v: Seq<String>) -> Seq<Seq<char>> {
    v.map_values(|s: String| s@)
}

pub proof fn lemma_fallback_safe()
    ensures
        is_safe_segment(fallback_segment()),
{
    assert(fallback_segment() != seq!['.']) by {
        assert(fallback_segment()[0] != seq!['.'][0]);
    }
    assert(fallback_segment() != seq!['.', '.']) by {
        assert(fallback_segment().len() != seq!['.', '.'].len());
    }
}

/// Every segment is safe, so none is `..`, and a safe segment is its own
/// replacement.
pub proof fn lemma_safe_segment(c: Seq<char>)
    ensures
        is_safe_segment(safe_segment(c)) || c == fallback_segment(),
        safe_segment(c) != seq!['.', '.'],
        safe_segment(safe_segment(c)) == safe_segment(c),
{
    lemma_fallback_safe();
}

proof fn lemma_named_all(xs: Seq<Seq<char>>)
    requires
        forall|i: int| 0 <= i < xs.len() ==> is_named(#[trigger] xs[i]),
    ensures
        named(xs) == xs,
    decreases xs.len(),
{
    if xs.len() > 0 {
        let ys = xs.drop_last();
        assert forall|i: int| 0 <= i < ys.len() implies is_named(#[trigger] ys[i]) by {
            assert(ys[i] == xs[i]);
        }
        lemma_named_all(ys);
        assert(is_named(xs[xs.len() - 1]));
        assert(ys.push(xs.last()) =~= xs);
    }
}

/// The segments of a path are all safe; in particular no `..` survives to
/// climb out of the destination.
pub proof fn lemma_segments_safe(p: Seq<char>)
    ensures
        forall|i: int| 0 <= i < sanitized_segments(p).len()
            ==> is_safe_segment(#[trigger] sanitized_segments(p)[i]),
{
    lemma_fallback_safe();
    assert forall|i: int| 0 <= i < sanitized_segments(p).len()
        implies is_safe_segment(#[trigger] sanitized_segments(p)[i]) by {
        lemma_safe_segment(named(pieces(p, '/'))[i]);
    }
}

/// Sanitising is idempotent: the sanitised path, sanitised again, has the
/// same segments and is the same text.
pub proof fn lemma_sanitize_idempotent(p: Seq<char>)
    ensures
        sanitized_segments(sanitized_path(p)) == sanitized_segments(p),
        sanitized_path(sanitized_path(p)) == sanitized_path(p),
{
    let xs = sanitized_segments(p);
    lemma_segments_safe(p);
    if xs.len() == 0 {
        assert(pieces(Seq::<char>::empty(), '/') == seq![Seq::<char>::empty()]);
        let e = seq![Seq::<char>::empty()];
        assert(e.drop_last() =~= Seq::<Seq<char>>::empty());
        assert(named(e) == named(e.drop_last()));
        assert(sanitized_segments(sanitized_path(p)) =~= xs);
    } else {
        assert forall|i: int| 0 <= i < xs.len() implies free_of(#[trigger] xs[i], '/') by {
            assert(is_safe_segment(xs[i]));
        }
        lemma_pieces_of_joined(xs, '/');
        assert forall|i: int| 0 <= i < xs.len() implies is_named(#[trigger] xs[i]) by {
            assert(is_safe_segment(xs[i]));
        }
        lemma_named_all(xs);
        assert forall|i: int| 0 <= i < xs.len() implies safe_segment(#[trigger] xs[i]) == xs[i] by {
            lemma_safe_segment(named(pieces(p, '/'))[i]);
        }
        assert(xs.map_values(|c: Seq<char>| safe_segment(c)) =~= xs);
    }
}

/// Whether `s` may stand as a segment as it is.
fn segment_is_safe(s: &str) -> (r: bool)
    ensures
        r == is_safe_segment(s@),
{
    let n = s.unicode_len();
    if n == 0 {
        return false;
    }
    if n == 1 && s.get_char(0) == '.' {
        assert(s@ =~= seq!['.']);
        return false;
    }
    if n == 2 && s.get_char(0) == '.' && s.get_char(1) == '.' {
        assert(s@ =~= seq!['.', '.']);
        return false;
    }
    assert(s@ != seq!['.']) by {
        if n == 1 {
            assert(s@[0] != seq!['.'][0]);
        }
    }
    assert(s@ != seq!['.', '.']) by {
        if n == 2 {
            assert(s@[0] != seq!['.', '.'][0] || s@[1] != seq!['.', '.'][1]);
        }
    }
    let mut i: usize = 0;
    while i < n
        invariant
            i <= n,
            n == s@.len(),
            forall|j: int| 0 <= j < i ==> s@[j] != '/' && s@[j] != '\\' && s@[j] != ':',
        decreases n - i,
    {
        let c = s.get_char(i);
        if c == '/' || c == '\\' || c == ':' {
            return false;
        }
        i = i + 1;
    }
    true
}

/// The safe segment for one logical component.
pub fn sanitize_segment(c: &str) -> (r: String)
    ensures
        r@ == safe_segment(c@),
{
    let fallback = "_";
    proof {
        reveal_strlit("_");
        reveal_strlit("");
        assert(fallback@ =~= fallback_segment());
    }
    let n = c.unicode_len();
    if n == 1 && c.get_char(0) == '_' {
        assert(c@ =~= fallback_segment());
        return c.to_string();
    }
    assert(c@ != fallback_segment()) by {
        if n == 1 {
            assert(c@[0] != fallback_segment()[0]);
        }
    }
    let once = sanitize_name(c, true, true, "");
    let twice = sanitize_name(once.as_str(), true, true, "");
    assert(""@ =~= Seq::<char>::empty());
    if segment_is_safe(once.as_str()) && twice == once {
        once
    } else {
        fallback.to_string()
    }
}

/// The segments that stand for the logical path `path`: it is split at `/`,
/// empty and `.` components are dropped, and every other component,
/// `..` included, is replaced by its safe segment.
pub fn sanitize(path: &str) -> (r: Vec<String>)
    ensures
        texts(r@) == sanitized_segments(path@),
{
    let n = path.unicode_len();
    let mut out: Vec<String> = Vec::new();
    let mut start: usize = 0;
    let mut i: usize = 0;
    let ghost mut done: Seq<Seq<char>> = Seq::empty();
    assert(path@.take(0) =~= Seq::<char>::empty());
    assert(path@.subrange(0, 0) =~= Seq::<char>::empty());
    assert(done.push(Seq::<char>::empty()) =~= seq![Seq::<char>::empty()]);
    assert(texts(out@) =~= named(done).map_values(|c: Seq<char>| safe_segment(c)));
    while i < n
        invariant
            start <= i <= n,
            n == path@.len(),
            pieces(path@.take(i as int), '/') == done.push(path@.subrange(start as int, i as int)),
            texts(out@) == named(done).map_values(|c: Seq<char>| safe_segment(c)),
        decreases n - i,
    {
        let ch = path.get_char(i);
        let ghost before = path@.take(i as int);
        assert(path@.take(i + 1).drop_last() =~= before);
        assert(path@.take(i + 1).last() == ch);
        if ch == '/' {
            let piece = path.substring_char(start, i);
            let ghost old_out = out@;
            if piece.unicode_len() > 0 && !(piece.unicode_len() == 1 && piece.get_char(0) == '.') {
                assert(piece@ != seq!['.']) by {
                    if piece@.len() == 1 {
                        assert(piece@[0] != seq!['.'][0]);
                    }
                }
                let seg = sanitize_segment(piece);
                out.push(seg);
                assert(texts(out@) =~= texts(old_out).push(safe_segment(piece@)));
            } else {
                assert(piece@.len() == 0 || piece@ =~= seq!['.']);
            }
            proof {
                assert(done.push(piece@).drop_last() =~= done);
                done = done.push(piece@);
                assert(texts(out@) =~= named(done).map_values(|c: Seq<char>| safe_segment(c)));
                assert(path@.subrange(i + 1, i + 1) =~= Seq::<char>::empty());
            }
            start = i + 1;
        } else {
            assert(path@.subrange(start as int, i + 1) =~= path@.subrange(start as int, i as int).push(ch));
        }
        i = i + 1;
    }
    let piece = path.substring_char(start, n);
    let ghost old_out = out@;
    assert(path@.take(n as int) =~= path@);
    let ghost all = done.push(piece@);
    assert(all.drop_last() =~= done);
    if piece.unicode_len() > 0 && !(piece.unicode_len() == 1 && piece.get_char(0) == '.') {
        assert(piece@ != seq!['.']) by {
            if piece@.len() == 1 {
                assert(piece@[0] != seq!['.'][0]);
            }
        }
        let seg = sanitize_segment(piece);
        out.push(seg);
        assert(texts(out@) =~= texts(old_out).push(safe_segment(piece@)));
    } else {
        assert(piece@.len() == 0 || piece@ =~= seq!['.']);
    }
    assert(texts(out@) =~= named(all).map_values(|c: Seq<char>| safe_segment(c)));
    out
}

} // verus!
