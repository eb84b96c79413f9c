//! The sources being read: a stack of files and their lines, so that an error
//! can show the line it points at; a file imported by another pushes its own
//! source, and popping it brings the outer one back.
use vstd::prelude::*;
use crate::ostools::split_on;
use crate::text::{chars_of, string_of_range};

verus! {

broadcast use vstd::string::group_string_axioms;

/// A line without the carriage return that ended it, if any.
pub open spec fn strip_cr(l: Seq<char>) -> Seq<char> {
    if l.len() > 0 && l.last() == '\r' { l.drop_last() } else { l }
}

/// The lines of a text, as `str::lines` gives them: split at line feeds,
/// a carriage return before a line feed dropped, no empty last line after a
/// final line feed.
pub open spec fn lines_of(s: Seq<char>) -> Seq<Seq<char>> {
    let pieces = split_on(s, '\n');
    let n = if pieces.last().len() == 0 { pieces.len() - 1 } else { pieces.len() as int };
    Seq::new(n as nat, |i: int| if i < pieces.len() - 1 { strip_cr(pieces[i]) } else { pieces[i] })
}

/// The file being read and its lines.
#[derive(Debug)]
pub struct SourceContext {
    pub filename: String,
    pub lines: Vec<String>,
}

impl SourceContext {
    /// A copy of this context.
    pub fn duplicate(&self) -> (r: SourceContext)
        ensures
            r.filename@ == self.filename@,
            r.lines@.map_values(|l: String| l@) == self.lines@.map_values(|l: String| l@),
    {
        SourceContext { filename: self.filename.clone(), lines: crate::ast::clone_strings(&self.lines) }
    }
}

proof fn lemma_split_nonempty(s: Seq<char>, sep: char)
    ensures
        split_on(s, sep).len() >= 1,
    decreases s.len(),
{
    if s.len() > 0 {
        lemma_split_nonempty(s.drop_last(), sep);
    }
}

/// The lines of `code` (see `lines_of`).
pub fn split_lines(code: &str) -> (r: Vec<String>)
    ensures
        r@.map_values(|l: String| l@) == lines_of(code@),
{
    let cs = chars_of(code);
    let mut pieces: Vec<String> = Vec::new();
    let mut start: usize = 0;
    let mut i: usize = 0;
    assert(cs@.subrange(0, 0) =~= Seq::<char>::empty());
    while i < cs.len()
        invariant
            cs@ == code@,
            0 <= start <= i <= cs@.len(),
            pieces@.len() + 1 == split_on(cs@.subrange(0, i as int), '\n').len(),
            forall|j: int| 0 <= j < pieces@.len() ==> #[trigger] pieces@[j]@ == strip_cr(split_on(cs@.subrange(0, i as int), '\n')[j]),
            split_on(cs@.subrange(0, i as int), '\n').last() == cs@.subrange(start as int, i as int),
        decreases cs@.len() - i,
    {
        let ghost before = split_on(cs@.subrange(0, i as int), '\n');
        assert(cs@.subrange(0, i + 1).drop_last() =~= cs@.subrange(0, i as int));
        if cs[i] == '\n' {
            let mut end = i;
            if end > start && cs[end - 1] == '\r' {
                end = end - 1;
            }
            let piece = string_of_range(&cs, start, end);
            proof {
                let l = cs@.subrange(start as int, i as int);
                if i > start && cs@[i - 1] == '\r' {
                    assert(l.drop_last() =~= cs@.subrange(start as int, end as int));
                } else {
                    assert(end == i);
                }
            }
            pieces.push(piece);
            start = i + 1;
            assert(cs@.subrange(start as int, i + 1) =~= Seq::<char>::empty());
        } else {
            assert(cs@.subrange(start as int, i + 1) =~= cs@.subrange(start as int, i as int).push(cs@[i as int]));
        }
        i = i + 1;
        proof {
            let after = split_on(cs@.subrange(0, i as int), '\n');
            assert forall|j: int| 0 <= j < pieces@.len() implies #[trigger] pieces@[j]@ == strip_cr(after[j]) by {
                if j < pieces@.len() - 1 || cs@[i - 1] != '\n' {
                    assert(after[j] == before[j]);
                }
            }
        }
    }
    assert(cs@.subrange(0, cs@.len() as int) =~= code@);
    proof { lemma_split_nonempty(code@, '\n'); }
    if start < cs.len() {
        let last = string_of_range(&cs, start, cs.len());
        pieces.push(last);
    }
    proof {
        let p = split_on(code@, '\n');
        let want = lines_of(code@);
        assert(pieces@.map_values(|l: String| l@).len() == want.len());
        let got = pieces@.map_values(|l: String| l@);
        assert forall|j: int| 0 <= j < want.len() implies got[j] == #[trigger] want[j] by {
            if j == p.len() - 1 {
                assert(pieces@[j]@ == p[j]);
            }
        }
        assert(pieces@.map_values(|l: String| l@) =~= want);
    }
    pieces
}

/// A stack of sources, the one being read last.
pub struct SourceStack {
    contexts: Vec<SourceContext>,
}

impl SourceStack {
    /// The sources, outermost first.
    pub closed spec fn contexts(&self) -> Seq<SourceContext> {
        self.contexts@
    }

    /// No source yet.
    pub fn new() -> (r: Self)
        ensures
            r.contexts().len() == 0,
    {
        SourceStack { contexts: Vec::new() }
    }

    /// The source being read, if any.
    pub fn current_source(&self) -> (r: Option<SourceContext>)
        ensures
            self.contexts().len() == 0 ==> r is None,
            self.contexts().len() > 0 ==> r is Some && r->Some_0.filename@ == self.contexts().last().filename@
                && r->Some_0.lines@.map_values(|l: String| l@) == self.contexts().last().lines@.map_values(|l: String| l@),
    {
        let n = self.contexts.len();
        if n == 0 {
            None
        } else {
            Some(self.contexts[n - 1].duplicate())
        }
    }

    /// Starts reading `filename`, whose text is `code`.
    pub fn push_source_context(&mut self, filename: String, code: &str)
        ensures
            final(self).contexts().len() == old(self).contexts().len() + 1,
            final(self).contexts().drop_last() == old(self).contexts(),
            final(self).contexts().last().filename == filename,
            final(self).contexts().last().lines@.map_values(|l: String| l@) == lines_of(code@),
    {
        let lines = split_lines(code);
        self.contexts.push(SourceContext { filename, lines });
        assert(self.contexts@.drop_last() =~= old(self).contexts@);
    }

    /// Stops reading the current source; the one before it comes back.
    pub fn pop_source_context(&mut self)
        ensures
            old(self).contexts().len() > 0 ==> final(self).contexts() == old(self).contexts().drop_last(),
            old(self).contexts().len() == 0 ==> final(self).contexts() == old(self).contexts(),
    {
        let _ = self.contexts.pop();
    }
}

/// Reading a source and then leaving it gives back the sources as they were.
pub proof fn law_push_then_pop(before: SourceStack, pushed: SourceStack, popped: SourceStack)
    requires
        pushed.contexts().len() == before.contexts().len() + 1,
        pushed.contexts().drop_last() == before.contexts(),
        pushed.contexts().len() > 0 ==> popped.contexts() == pushed.contexts().drop_last(),
    ensures
        popped.contexts() == before.contexts(),
{
}

} // verus!
