//! Splitting a shell command line into the program and its arguments.
use vstd::prelude::*;
use crate::text::{chars_of, string_of_range};

verus! {

broadcast use vstd::string::group_string_axioms;

/// The pieces of `s` between the occurrences of `sep` (as `str::split`
/// gives them): one more piece than there are separators, empty pieces
/// included.
pub open spec fn split_on(s: Seq<char>, sep: char) -> Seq<Seq<char>>
    decreases s.len(),
{
    if s.len() == 0 {
        seq![seq![]]
    } else {
        let rest = split_on(s.drop_last(), sep);
        if s.last() == sep {
            rest.push(seq![])
        } else {
            rest.update(rest.len() - 1, rest.last().push(s.last()))
        }
    }
}

proof fn lemma_split_nonempty(s: Seq<char>, sep: char)
    ensures
        split_on(s, sep).len() >= 1,
    decreases s.len(),
{
    if s.len() > 0 {
        lemma_split_nonempty(s.drop_last(), sep);
    }
}

/// The pieces of `a` between the occurrences of `sep` (`str::split`).
pub fn split_pieces(a: &str, sep: char) -> (r: Vec<String>)
    ensures
        r@.map_values(|x: String| x@) == split_on(a@, sep),
        r@.len() >= 1,
{
    let cs = chars_of(a);
    let mut pieces: Vec<String> = Vec::new();
    let mut start: usize = 0;
    let mut i: usize = 0;
    assert(cs@.subrange(0, 0) =~= Seq::<char>::empty());
    assert(pieces@.map_values(|x: String| x@).push(cs@.subrange(0, 0)) =~= seq![Seq::<char>::empty()]);
    while i < cs.len()
        invariant
            cs@ == a@,
            0 <= start <= i <= cs@.len(),
            pieces@.map_values(|x: String| x@).push(cs@.subrange(start as int, i as int)) == split_on(
                cs@.subrange(0, i as int),
                sep,
            ),
        decreases cs@.len() - i,
    {
        let ghost before = cs@.subrange(0, i as int);
        assert(cs@.subrange(0, i + 1).drop_last() == before);
        if cs[i] == sep {
            let piece = string_of_range(&cs, start, i);
            pieces.push(piece);
            start = i + 1;
            assert(cs@.subrange(start as int, i + 1) =~= seq![]);
        } else {
            assert(cs@.subrange(start as int, i + 1) == cs@.subrange(start as int, i as int).push(cs@[i as int]));
        }
        i = i + 1;
        assert(pieces@.map_values(|x: String| x@).push(cs@.subrange(start as int, i as int)) =~= split_on(
            cs@.subrange(0, i as int),
            sep,
        ));
    }
    let last = string_of_range(&cs, start, cs.len());
    pieces.push(last);
    assert(cs@.subrange(0, cs@.len() as int) == a@);
    assert(pieces@.map_values(|x: String| x@) =~= split_on(a@, sep));
    proof { lemma_split_nonempty(a@, sep); }
    pieces
}

/// The program and the arguments of a command line whose words are separated
/// by single spaces: the first piece, and the pieces after it.
pub fn split_command(a: &str) -> (r: (String, Vec<String>))
    ensures
        r.0@ == split_on(a@, ' ')[0],
        r.1@.map_values(|x: String| x@) == split_on(a@, ' ').drop_first(),
{
    let mut pieces = split_pieces(a, ' ');
    let ghost all = pieces@.map_values(|x: String| x@);
    let cmd = pieces.remove(0);
    assert(pieces@.map_values(|x: String| x@) =~= all.drop_first());
    (cmd, pieces)
}

} // verus!
