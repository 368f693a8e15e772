//! The line source: one logical line at a time, where one physical line may
//! hold several logical lines separated by `;`.
use vstd::prelude::*;

use crate::command::Cmd;
use crate::text::{
    chars_of, lemma_split_nonempty, lemma_split_without, occurs_at, split_chars, split_on, trim,
    trim_all, views,
};

verus! {

/// The separator between logical lines.
pub open spec fn line_separator() -> Seq<char> {
    seq![';']
}

/// The next logical line and the pending lines after it, given the pending
/// lines and the text of the physical line read when none is pending.
///
/// A pending line is served first, and the physical line is then not used.
/// Otherwise the physical line is cut at each `;`: the first piece is the
/// line, untrimmed; when there are more, they become the pending lines,
/// each trimmed.
pub open spec fn next_line(buffer: Seq<char>, pending: Seq<Seq<char>>) -> (
    Seq<char>,
    Seq<Seq<char>>,
) {
    if pending.len() > 0 {
        (pending[0], pending.drop_first())
    } else {
        let parts = split_on(buffer, line_separator());
        if parts.len() > 1 {
            (parts[0], trim_all(parts.drop_first()))
        } else {
            (parts[0], pending)
        }
    }
}

impl Cmd {
    /// Whether a physical line must be read before the next logical line
    /// can be had: only when none is pending.
    pub fn needs_read(line_stack: &Vec<String>) -> (r: bool)
        ensures
            r == (line_stack@.len() == 0),
    {
        line_stack.len() == 0
    }

    /// The next logical line. `buffer` is the physical line, read only when
    /// `needs_read` said so (any text otherwise: it is then not looked at).
    /// A read that failed is handed in as the empty string.
    ///
    /// The first piece of a physical line is returned untrimmed while the
    /// pending pieces are trimmed. The `&&` and `||` splitting trims each
    /// segment again, which hides the difference for most lines; whether the
    /// first piece should be trimmed as well is an open question.
    pub fn read_line(buffer: &str, line_stack: &mut Vec<String>) -> (r: String)
        ensures
            (r@, views(final(line_stack)@)) == next_line(buffer@, views(old(line_stack)@)),
    {
        if line_stack.len() > 0 {
            let ghost before = line_stack@;
            let r = line_stack.remove(0);
            assert(views(line_stack@) =~= views(before).drop_first());
            return r;
        }
        let v = chars_of(buffer);
        let sep = vec![';'];
        let mut parts = split_chars(&v, &sep, false);
        proof {
            lemma_split_nonempty(v@, sep@);
            assert(sep@ =~= line_separator());
        }
        let first = parts.remove(0);
        if parts.len() > 0 {
            let mut rest: Vec<String> = Vec::new();
            let mut i: usize = 0;
            while i < parts.len()
                invariant
                    i <= parts@.len(),
                    views(rest@) == trim_all(views(parts@).take(i as int)),
                decreases parts@.len() - i,
            {
                let t = crate::text::trimmed(&parts[i]);
                let ghost before = rest@;
                rest.push(t);
                assert(views(rest@) =~= views(before).push(t@));
                let ghost done = views(parts@).take(i as int);
                assert(views(parts@).take(i + 1) =~= done.push(parts@[i as int]@));
                assert(trim_all(done.push(parts@[i as int]@)) =~= trim_all(done).push(
                    trim(parts@[i as int]@),
                ));
                i = i + 1;
            }
            assert(views(parts@).take(i as int) =~= views(parts@));
            *line_stack = rest;
        }
        proof {
            let all = split_on(buffer@, line_separator());
            assert(views(parts@) =~= all.drop_first());
        }
        first
    }
}

/// With nothing pending, a physical line without `;` is itself the next
/// logical line, verbatim, and nothing is left pending.
pub proof fn lemma_line_without_separator(buffer: Seq<char>)
    requires
        forall|i: int| 0 <= i < buffer.len() ==> buffer[i] != ';',
    ensures
        next_line(buffer, Seq::empty()) == (buffer, Seq::<Seq<char>>::empty()),
{
    assert forall|j: int| !occurs_at(buffer, line_separator(), j) by {
        if occurs_at(buffer, line_separator(), j) {
            assert(buffer.subrange(j, j + 1)[0] == buffer[j]);
        }
    }
    lemma_split_without(buffer, line_separator());
}

/// With nothing pending, a physical line with a `;` gives its first piece
/// as the next logical line; the call after that serves the second piece,
/// trimmed, whatever physical line it is handed, and leaves the remaining
/// pieces, trimmed, pending.
pub proof fn lemma_pending_served_first(first: Seq<char>, later: Seq<char>)
    requires
        split_on(first, line_separator()).len() > 1,
    ensures
        ({
            let parts = split_on(first, line_separator());
            let (line1, pending1) = next_line(first, Seq::empty());
            let (line2, pending2) = next_line(later, pending1);
            &&& line1 == parts[0]
            &&& pending1 == trim_all(parts.drop_first())
            &&& line2 == trim(parts[1])
            &&& pending2 == trim_all(parts.subrange(2, parts.len() as int))
        }),
{
    let parts = split_on(first, line_separator());
    let pending1 = trim_all(parts.drop_first());
    assert(pending1.drop_first() =~= trim_all(parts.subrange(2, parts.len() as int)));
}

} // verus!
