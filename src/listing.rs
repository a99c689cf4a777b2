//! The listing of an archive: each entry's logical path on a line of its
//! own, in the archive's stored order.
use vstd::prelude::*;
use crate::sanitize::texts;
use crate::text::{free_of, joined, pieces, lemma_pieces_of_joined};

verus! {

/// Each of `paths`, followed by a newline.
pub open spec fn listing_text(paths: Seq<Seq<char>>) -> Seq<char>
    decreases paths.len(),
{
    if paths.len() == 0 {
        Seq::<char>::empty()
    } else {
        listing_text(paths.drop_last()) + paths.last() + seq!['\n']
    }
}

/// The listing of the entries whose logical paths are `paths`.
pub fn listing(paths: &Vec<String>) -> (r: String)
    ensures
        r@ == listing_text(texts(paths@)),
{
    let mut out = String::new();
    let newline = "\n";
    proof {
        reveal_strlit("\n");
    }
    let mut i: usize = 0;
    while i < paths.len()
        invariant
            i <= paths@.len(),
            newline@ == seq!['\n'],
            out@ == listing_text(texts(paths@.take(i as int))),
        decreases paths@.len() - i,
    {
        let ghost before = texts(paths@.take(i as int));
        assert(texts(paths@.take(i + 1)).drop_last() =~= before);
        out.append(paths[i].as_str());
        out.append(newline);
        i = i + 1;
    }
    assert(paths@.take(i as int) =~= paths@);
    out
}

proof fn lemma_listing_is_joined(paths: Seq<Seq<char>>)
    requires
        paths.len() >= 1,
    ensures
        listing_text(paths) == joined(paths, '\n') + seq!['\n'],
    decreases paths.len(),
{
    if paths.len() == 1 {
        assert(listing_text(paths.drop_last()) =~= Seq::<char>::empty());
        assert(Seq::<char>::empty() + paths[0] =~= paths[0]);
    } else {
        lemma_listing_is_joined(paths.drop_last());
        assert(joined(paths.drop_last(), '\n') + seq!['\n'] + paths.last() + seq!['\n']
            =~= joined(paths, '\n') + seq!['\n']);
    }
}

/// A listing of N paths that hold no newline has exactly N lines, each one
/// of the paths, in order: split at newlines it gives back the paths,
/// followed by the empty rest after the final newline.
pub proof fn lemma_listing_lines(paths: Seq<Seq<char>>)
    requires
        forall|i: int| 0 <= i < paths.len() ==> free_of(#[trigger] paths[i], '\n'),
    ensures
        pieces(listing_text(paths), '\n') == paths.push(Seq::<char>::empty()),
{
    let all = paths.push(Seq::<char>::empty());
    if paths.len() == 0 {
        assert(pieces(Seq::<char>::empty(), '\n') =~= all);
    } else {
        lemma_listing_is_joined(paths);
        assert forall|i: int| 0 <= i < all.len() implies free_of(#[trigger] all[i], '\n') by {
            if i < paths.len() {
                assert(all[i] == paths[i]);
            }
        }
        assert(all.drop_last() =~= paths);
        assert(joined(all, '\n') =~= joined(paths, '\n') + seq!['\n'] + Seq::<char>::empty());
        assert(joined(paths, '\n') + seq!['\n'] + Seq::<char>::empty() =~= joined(paths, '\n')
            + seq!['\n']);
        lemma_pieces_of_joined(all, '\n');
    }
}

} // verus!
