//! Texts cut into pieces at a delimiter.

use vstd::prelude::*;

verus! {

/// The views of a sequence of strings.
pub open spec fn views(v: Seq<String>) -> Seq<Seq<char>> {
    v.map_values(|s: String| s@)
}

/// The pieces of `s` that lie between occurrences of `sep`, in order.
///
/// There is always at least one piece; two adjacent delimiters enclose an empty piece.
pub open spec fn split(s: Seq<char>, sep: char) -> Seq<Seq<char>>
    decreases s.len(),
{
    if s.len() == 0 {
        seq![Seq::<char>::empty()]
    } else {
        let before = split(s.drop_last(), sep);
        if s.last() == sep {
            before.push(Seq::<char>::empty())
        } else {
            before.update(before.len() - 1, before.last().push(s.last()))
        }
    }
}

/// The pieces glued back together with `sep` between neighbours.
pub open spec fn join(pieces: Seq<Seq<char>>, sep: char) -> Seq<char>
    decreases pieces.len(),
{
    if pieces.len() == 0 {
        Seq::<char>::empty()
    } else if pieces.len() == 1 {
        pieces[0]
    } else {
        join(pieces.drop_last(), sep).push(sep) + pieces.last()
    }
}

/// Splitting never yields an empty list.
pub proof fn lemma_split_nonempty(s: Seq<char>, sep: char)
    ensures
        split(s, sep).len() >= 1,
    decreases s.len(),
{
    if s.len() > 0 {
        lemma_split_nonempty(s.drop_last(), sep);
    }
}

/// Splitting loses nothing: no piece holds the delimiter, and joining the pieces
/// with the delimiter gives the text back.
pub proof fn lemma_split_join(s: Seq<char>, sep: char)
    ensures
        split(s, sep).len() >= 1,
        forall|i: int, j: int|
            0 <= i < split(s, sep).len() && 0 <= j < split(s, sep)[i].len()
                ==> split(s, sep)[i][j] != sep,
        join(split(s, sep), sep) == s,
    decreases s.len(),
{
    if s.len() == 0 {
        assert(join(split(s, sep), sep) =~= s);
    } else {
        let t = s.drop_last();
        lemma_split_join(t, sep);
        let before = split(t, sep);
        let now = split(s, sep);
        if s.last() == sep {
            assert(now.drop_last() =~= before);
            assert(join(now, sep) =~= s);
        } else {
            let last = before.last().push(s.last());
            if before.len() == 1 {
                assert(join(before, sep) == before[0]);
                assert(now[0] == last);
                assert(join(now, sep) =~= s);
            } else {
                let glued = join(before.drop_last(), sep).push(sep);
                assert(now.drop_last() =~= before.drop_last());
                assert(now.last() == last);
                assert(join(now, sep) == glued + last);
                assert(join(before, sep) == glued + before.last());
                assert(glued + last =~= (glued + before.last()).push(s.last()));
                assert(t.push(s.last()) =~= s);
            }
        }
    }
}

/// Splits `s` at every occurrence of `sep`.
pub fn split_text(s: &str, sep: char) -> (pieces: Vec<String>)
    ensures
        views(pieces@) == split(s@, sep),
{
    let n: usize = s.unicode_len();
    let mut pieces: Vec<String> = Vec::new();
    let mut start: usize = 0;
    let mut i: usize = 0;
    proof {
        assert(s@.take(0) =~= Seq::<char>::empty());
        assert(views(pieces@).push(s@.subrange(0, 0)) =~= split(s@.take(0), sep));
    }
    for c in it: s.chars()
        invariant
            n == s@.len(),
            it.seq() == s@,
            i == it.index(),
            start <= i <= n,
            views(pieces@).push(s@.subrange(start as int, i as int)) == split(
                s@.take(i as int),
                sep,
            ),
    {
        proof {
            let grown = s@.take(i + 1);
            assert(grown.drop_last() =~= s@.take(i as int));
            assert(grown.last() == c);
            if c != sep {
                let open = s@.subrange(start as int, i as int);
                assert(s@.subrange(start as int, i + 1) =~= open.push(c));
                assert(views(pieces@).push(open).last() == open);
                assert(views(pieces@).push(s@.subrange(start as int, i + 1)) =~= split(
                    grown,
                    sep,
                ));
            }
        }
        if c == sep {
            let piece = s.substring_char(start, i).to_owned();
            proof {
                assert(views(pieces@.push(piece)) =~= views(pieces@).push(piece@));
                assert(s@.subrange(i + 1, i + 1) =~= Seq::<char>::empty());
            }
            pieces.push(piece);
            start = i + 1;
        }
        i = i + 1;
    }
    let piece = s.substring_char(start, i).to_owned();
    proof {
        assert(views(pieces@.push(piece)) =~= views(pieces@).push(piece@));
        assert(s@.take(i as int) =~= s@);
    }
    pieces.push(piece);
    pieces
}

} // verus!
