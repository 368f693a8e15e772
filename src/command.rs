//! Commands: a binary name and its arguments, and the splitting of a
//! logical line at the `&&` and `||` operators.
use vstd::prelude::*;

use crate::text::{chars_of, lemma_split_nonempty, split_chars, split_on, trim_all, views};

verus! {

/// The operator that runs its right side only after its left side succeeded.
pub open spec fn and_token() -> Seq<char> {
    seq!['&', '&']
}

/// The operator that runs its right side only after its left side failed.
pub open spec fn or_token() -> Seq<char> {
    seq!['|', '|']
}

/// The separator between the words of a command.
pub open spec fn word_separator() -> Seq<char> {
    seq![' ']
}

/// `s` with every newline character removed.
pub open spec fn without_newlines(s: Seq<char>) -> Seq<char>
    decreases s.len(),
{
    if s.len() == 0 {
        s
    } else if s.last() == '\n' {
        without_newlines(s.drop_last())
    } else {
        without_newlines(s.drop_last()).push(s.last())
    }
}

/// The binary that a command segment names: its first word.
pub open spec fn binary_of(segment: Seq<char>) -> Seq<char> {
    split_on(segment, word_separator())[0]
}

/// The arguments of a command segment: its words after the first, without
/// newline characters.
pub open spec fn arguments_of(segment: Seq<char>) -> Seq<Seq<char>> {
    split_on(segment, word_separator()).drop_first().map_values(|w: Seq<char>| without_newlines(w))
}

/// A command to run: a binary and the arguments handed to it.
pub struct Cmd {
    pub binary: String,
    pub arguments: Vec<String>,
}

impl Cmd {
    /// Whether this command is the one that `segment` describes.
    pub open spec fn parsed_from(&self, segment: Seq<char>) -> bool {
        &&& self.binary@ == binary_of(segment)
        &&& views(self.arguments@) == arguments_of(segment)
    }
}

/// A copy of `s` without its newline characters.
fn strip_newlines(s: &String) -> (r: String)
    ensures
        r@ == without_newlines(s@),
{
    let v = chars_of(s.as_str());
    let mut r = String::new();
    let mut i: usize = 0;
    while i < v.len()
        invariant
            i <= v@.len(),
            v@ == s@,
            r@ == without_newlines(v@.take(i as int)),
        decreases v@.len() - i,
    {
        assert(v@.take(i + 1).drop_last() == v@.take(i as int));
        if v[i] != '\n' {
            crate::text::push(&mut r, v[i]);
        }
        i = i + 1;
    }
    assert(v@.take(v@.len() as int) == v@);
    r
}

impl Cmd {
    /// Parses a command segment: its first word (split at each single space)
    /// is the binary, the other words, without newline characters, are the
    /// arguments. An empty segment gives an empty binary and no arguments.
    pub fn new(command: &str) -> (r: Cmd)
        ensures
            r.parsed_from(command@),
    {
        let v = chars_of(command);
        let sep = vec![' '];
        let mut words = split_chars(&v, &sep, false);
        proof {
            lemma_split_nonempty(v@, sep@);
        }
        let ghost all = views(words@);
        assert(sep@ =~= word_separator());
        assert(all == split_on(command@, word_separator()));
        assert(all[0] == words@[0]@);
        let binary = words.remove(0);
        assert(forall|k: int| 0 <= k < words@.len() ==> #[trigger] words@[k]@ == all[k + 1]);
        let mut arguments: Vec<String> = Vec::new();
        let mut i: usize = 0;
        while i < words.len()
            invariant
                i <= words@.len(),
                all.len() == words@.len() + 1,
                forall|k: int| 0 <= k < words@.len() ==> #[trigger] words@[k]@ == all[k + 1],
                views(arguments@) == all.drop_first().take(i as int).map_values(
                    |w: Seq<char>| without_newlines(w),
                ),
            decreases words@.len() - i,
        {
            let a = strip_newlines(&words[i]);
            let ghost before = arguments@;
            arguments.push(a);
            assert(views(arguments@) =~= views(before).push(a@));
            assert(all.drop_first().take(i + 1) =~= all.drop_first().take(i as int).push(
                all[i + 1],
            ));
            i = i + 1;
        }
        assert(all.drop_first().take(i as int) =~= all.drop_first());
        assert(views(arguments@) =~= arguments_of(command@));
        Cmd { binary, arguments }
    }

    /// The segments of `line` between the `||` operators, each trimmed.
    pub fn split_or(line: &str) -> (r: Vec<String>)
        ensures
            views(r@) == trim_all(split_on(line@, or_token())),
    {
        let v = chars_of(line);
        let sep = vec!['|', '|'];
        split_chars(&v, &sep, true)
    }

    /// The segments of `line` between the `&&` operators, each trimmed.
    pub fn split_and(line: &str) -> (r: Vec<String>)
        ensures
            views(r@) == trim_all(split_on(line@, and_token())),
    {
        let v = chars_of(line);
        let sep = vec!['&', '&'];
        split_chars(&v, &sep, true)
    }
}

} // verus!
