//! Splitting a character sequence at a separator, and joining pieces back.
use vstd::prelude::*;

verus! {

/// The pieces of `p` between occurrences of `sep`, empty pieces included;
/// there is always at least one piece.
pub open spec fn pieces(p: Seq<char>, sep: char) -> Seq<Seq<char>>
    decreases p.len(),
{
    if p.len() == 0 {
        seq![Seq::<char>::empty()]
    } else {
        let rest = pieces(p.drop_last(), sep);
        if p.last() == sep {
            rest.push(Seq::<char>::empty())
        } else {
            rest.update(rest.len() - 1, rest.last().push(p.last()))
        }
    }
}

/// The pieces of `xs` written one after another, `sep` between each two.
pub open spec fn joined(xs: Seq<Seq<char>>, sep: char) -> Seq<char>
    decreases xs.len(),
{
    if xs.len() == 0 {
        Seq::<char>::empty()
    } else if xs.len() == 1 {
        xs[0]
    } else {
        joined(xs.drop_last(), sep) + seq![sep] + xs.last()
    }
}

/// `s` holds no `c`.
pub open spec fn free_of(s: Seq<char>, c: char) -> bool {
    forall|i: int| 0 <= i < s.len() ==> s[i] != c
}

pub proof fn lemma_pieces_nonempty(p: Seq<char>, sep: char)
    ensures
        pieces(p, sep).len() >= 1,
    decreases p.len(),
{
    if p.len() > 0 {
        lemma_pieces_nonempty(p.drop_last(), sep);
    }
}

/// Appending characters other than the separator extends the last piece.
pub proof fn lemma_pieces_extend(q: Seq<char>, b: Seq<char>, sep: char)
    requires
        free_of(b, sep),
    ensures
        pieces(q + b, sep) == pieces(q, sep).update(
            pieces(q, sep).len() - 1,
            pieces(q, sep).last() + b,
        ),
    decreases b.len(),
{
    lemma_pieces_nonempty(q, sep);
    if b.len() == 0 {
        assert(q + b =~= q);
        assert(pieces(q, sep).last() + b =~= pieces(q, sep).last());
        assert(pieces(q, sep).update(pieces(q, sep).len() - 1, pieces(q, sep).last())
            =~= pieces(q, sep));
    } else {
        let b0 = b.drop_last();
        lemma_pieces_extend(q, b0, sep);
        assert((q + b).drop_last() =~= q + b0);
        assert((q + b).last() == b.last());
        lemma_pieces_nonempty(q + b0, sep);
        assert(pieces(q, sep).last() + b0 + seq![b.last()] =~= pieces(q, sep).last() + b);
        assert((pieces(q, sep).last() + b0).push(b.last()) =~= pieces(q, sep).last() + b);
        assert(pieces(q + b, sep) =~= pieces(q, sep).update(
            pieces(q, sep).len() - 1,
            pieces(q, sep).last() + b,
        ));
    }
}

/// A separator followed by characters other than it opens one more piece.
pub proof fn lemma_pieces_sep_then(q: Seq<char>, b: Seq<char>, sep: char)
    requires
        free_of(b, sep),
    ensures
        pieces(q + seq![sep] + b, sep) == pieces(q, sep).push(b),
{
    let q1 = q + seq![sep];
    assert(q1.drop_last() =~= q);
    assert(pieces(q1, sep) == pieces(q, sep).push(Seq::<char>::empty()));
    lemma_pieces_extend(q1, b, sep);
    assert(Seq::<char>::empty() + b =~= b);
    assert(pieces(q1, sep).update(pieces(q1, sep).len() - 1, pieces(q1, sep).last() + b)
        =~= pieces(q, sep).push(b));
}

/// Joining pieces that hold no separator and splitting again gives them back.
pub proof fn lemma_pieces_of_joined(xs: Seq<Seq<char>>, sep: char)
    requires
        xs.len() >= 1,
        forall|i: int| 0 <= i < xs.len() ==> free_of(#[trigger] xs[i], sep),
    ensures
        pieces(joined(xs, sep), sep) == xs,
    decreases xs.len(),
{
    if xs.len() == 1 {
        lemma_pieces_extend(Seq::<char>::empty(), xs[0], sep);
        assert(Seq::<char>::empty() + xs[0] =~= xs[0]);
        assert(seq![Seq::<char>::empty()].update(0, Seq::<char>::empty() + xs[0]) =~= xs);
    } else {
        let ys = xs.drop_last();
        assert forall|i: int| 0 <= i < ys.len() implies free_of(#[trigger] ys[i], sep) by {
            assert(ys[i] == xs[i]);
        }
        lemma_pieces_of_joined(ys, sep);
        assert(free_of(xs[xs.len() - 1], sep));
        lemma_pieces_sep_then(joined(ys, sep), xs.last(), sep);
        assert(ys.push(xs.last()) =~= xs);
    }
}

} // verus!
