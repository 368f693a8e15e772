//! The evaluation of one logical line: AND-segments run in order while they
//! succeed; within one, OR-segments run in order until one succeeds.
//!
//! Running a command is left to the caller: `next_command` names the command
//! to run, `record` takes whether it succeeded, and `succeeded` gives the
//! outcome of the whole line once no command is left.
use vstd::prelude::*;

use crate::command::{and_token, arguments_of, binary_of, or_token, word_separator, Cmd};
use crate::text::{lemma_split_nonempty, lemma_split_without, split_on, trim, trim_all, views};

verus! {

/// The command segments of `line`: cut at each `&&` first, then each
/// AND-segment at each `||`, every segment trimmed.
pub open spec fn segments(line: Seq<char>) -> Seq<Seq<Seq<char>>> {
    trim_all(split_on(line, and_token())).map_values(
        |a: Seq<char>| trim_all(split_on(a, or_token())),
    )
}

/// The state of the evaluation of one logical line.
pub struct Evaluation {
    /// The commands, one list of OR-alternatives per AND-segment.
    pub groups: Vec<Vec<Cmd>>,
    /// The AND-segment reached.
    pub and_idx: usize,
    /// The OR-alternative reached within it.
    pub or_idx: usize,
    /// Whether every AND-segment evaluated so far succeeded.
    pub and_ok: bool,
}

impl Evaluation {
    /// Every AND-segment has at least one alternative, the position is
    /// within the groups, and their sizes fit the position's integers.
    pub open spec fn wf(&self) -> bool {
        &&& 1 <= self.groups@.len() <= usize::MAX
        &&& forall|a: int|
            0 <= a < self.groups@.len() ==> 1 <= #[trigger] self.groups@[a]@.len() <= usize::MAX
        &&& self.and_idx <= self.groups@.len()
        &&& self.and_idx < self.groups@.len() ==> self.or_idx < self.current_group_len()
    }

    /// The number of alternatives of the AND-segment reached.
    pub open spec fn current_group_len(&self) -> int {
        self.groups@[self.and_idx as int]@.len() as int
    }

    /// Whether a command is still to run.
    pub open spec fn running(&self) -> bool {
        self.and_ok && self.and_idx < self.groups@.len()
    }

    /// The command to run next.
    pub open spec fn current(&self) -> Cmd
        recommends
            self.running(),
    {
        self.groups@[self.and_idx as int]@[self.or_idx as int]
    }

    /// The state after the current command ran with the given outcome.
    /// A success ends its AND-segment successfully and moves on to the next
    /// one; a failure moves on to the next alternative, or, after the last,
    /// fails the AND-segment, and with it the line.
    pub open spec fn stepped(self, outcome: bool) -> Evaluation {
        if outcome {
            Evaluation { and_idx: (self.and_idx + 1) as usize, or_idx: 0, and_ok: true, ..self }
        } else if self.or_idx + 1 < self.groups@[self.and_idx as int]@.len() {
            Evaluation { or_idx: (self.or_idx + 1) as usize, ..self }
        } else {
            Evaluation { and_idx: (self.and_idx + 1) as usize, or_idx: 0, and_ok: false, ..self }
        }
    }

    /// Whether `self` holds, at its start, the commands that `line` gives.
    pub open spec fn started_on(&self, line: Seq<char>) -> bool {
        let segs = segments(line);
        &&& self.and_idx == 0
        &&& self.or_idx == 0
        &&& self.and_ok
        &&& self.groups@.len() == segs.len()
        &&& forall|a: int|
            0 <= a < segs.len() ==> {
                &&& #[trigger] self.groups@[a]@.len() == segs[a].len()
                &&& forall|o: int|
                    0 <= o < segs[a].len() ==> #[trigger] self.groups@[a]@[o].parsed_from(
                        segs[a][o],
                    )
            }
    }
}

impl Evaluation {
    /// The evaluation of `line`, before any command ran.
    pub fn new(line: &str) -> (r: Evaluation)
        ensures
            r.wf(),
            r.started_on(line@),
    {
        let ands = Cmd::split_and(line);
        let ghost segs = segments(line@);
        proof {
            lemma_split_nonempty(line@, and_token());
        }
        let mut groups: Vec<Vec<Cmd>> = Vec::new();
        let mut a: usize = 0;
        while a < ands.len()
            invariant
                a <= ands@.len(),
                segs == segments(line@),
                views(ands@) == trim_all(split_on(line@, and_token())),
                groups@.len() == a,
                forall|k: int| 0 <= k < a ==> 1 <= #[trigger] groups@[k]@.len() <= usize::MAX,
                forall|k: int|
                    0 <= k < a ==> {
                        &&& #[trigger] groups@[k]@.len() == segs[k].len()
                        &&& forall|o: int|
                            0 <= o < segs[k].len() ==> #[trigger] groups@[k]@[o].parsed_from(
                                segs[k][o],
                            )
                    },
            decreases ands@.len() - a,
        {
            assert(ands@[a as int]@ == views(ands@)[a as int]);
            let ors = Cmd::split_or(ands[a].as_str());
            proof {
                lemma_split_nonempty(ands@[a as int]@, or_token());
            }
            assert(views(ors@) == segs[a as int]);
            let mut group: Vec<Cmd> = Vec::new();
            let mut o: usize = 0;
            while o < ors.len()
                invariant
                    o <= ors@.len(),
                    views(ors@) == segs[a as int],
                    group@.len() == o,
                    forall|j: int|
                        0 <= j < o ==> #[trigger] group@[j].parsed_from(segs[a as int][j]),
                decreases ors@.len() - o,
            {
                assert(ors@[o as int]@ == views(ors@)[o as int]);
                let c = Cmd::new(ors[o].as_str());
                group.push(c);
                o = o + 1;
            }
            groups.push(group);
            a = a + 1;
        }
        Evaluation { groups, and_idx: 0, or_idx: 0, and_ok: true }
    }

    /// The command to run next, or `None` when the line is done.
    pub fn next_command(&self) -> (r: Option<&Cmd>)
        requires
            self.wf(),
        ensures
            r is Some <==> self.running(),
            r matches Some(c) ==> *c == self.current(),
    {
        if self.and_ok && self.and_idx < self.groups.len() {
            Some(&self.groups[self.and_idx][self.or_idx])
        } else {
            None
        }
    }

    /// Takes the outcome of the command that `next_command` named: whether
    /// it succeeded.
    pub fn record(&mut self, outcome: bool)
        requires
            old(self).wf(),
            old(self).running(),
        ensures
            final(self).wf(),
            *final(self) == old(self).stepped(outcome),
    {
        let n = self.groups.len();
        let m = self.groups[self.and_idx].len();
        assert(self.and_idx < n && self.or_idx < m);
        if outcome {
            self.and_idx = self.and_idx + 1;
            self.or_idx = 0;
            self.and_ok = true;
        } else if self.or_idx + 1 < m {
            self.or_idx = self.or_idx + 1;
        } else {
            self.and_idx = self.and_idx + 1;
            self.or_idx = 0;
            self.and_ok = false;
        }
    }

    /// Whether the line succeeded: every AND-segment had an alternative that
    /// succeeded. Meaningful once `next_command` gives `None`.
    pub fn succeeded(&self) -> (r: bool)
        ensures
            r == self.and_ok,
    {
        self.and_ok
    }
}

/// Each step moves forward: to a later alternative of the same AND-segment
/// or to a later AND-segment, so no command runs twice and none is returned to.
pub proof fn lemma_steps_advance(e: Evaluation, outcome: bool)
    requires
        e.wf(),
        e.running(),
    ensures
        e.stepped(outcome).wf(),
        e.stepped(outcome).groups == e.groups,
        e.stepped(outcome).and_idx > e.and_idx || (e.stepped(outcome).and_idx == e.and_idx
            && e.stepped(outcome).or_idx > e.or_idx),
{
}

/// `&&`: the evaluation reaches a later AND-segment, still running, only
/// when the command that just ran succeeded; when an AND-segment has failed
/// (its last alternative failed), nothing more runs and the line fails.
pub proof fn lemma_and_short_circuit(e: Evaluation, outcome: bool)
    requires
        e.wf(),
        e.running(),
    ensures
        e.stepped(outcome).running() && e.stepped(outcome).and_idx > e.and_idx ==> outcome,
        !outcome && e.or_idx + 1 == e.groups@[e.and_idx as int]@.len() ==> {
            &&& !e.stepped(outcome).running()
            &&& !e.stepped(outcome).and_ok
        },
{
}

/// `||`: after an alternative succeeds, the evaluation leaves its
/// AND-segment, so no later alternative of it runs; after one fails, the
/// next alternative, if there is one, is the command that runs next.
pub proof fn lemma_or_short_circuit(e: Evaluation, outcome: bool)
    requires
        e.wf(),
        e.running(),
    ensures
        outcome ==> e.stepped(outcome).and_idx == e.and_idx + 1 && e.stepped(outcome).and_ok,
        !outcome && e.or_idx + 1 < e.groups@[e.and_idx as int]@.len() ==> {
            &&& e.stepped(outcome).running()
            &&& e.stepped(outcome).and_idx == e.and_idx
            &&& e.stepped(outcome).or_idx == e.or_idx + 1
        },
{
}

proof fn lemma_split_empty(sep: Seq<char>)
    requires
        sep.len() > 0,
    ensures
        split_on(Seq::empty(), sep) == seq![Seq::<char>::empty()],
{
    lemma_split_without(Seq::empty(), sep);
}

/// An empty line gives one command, with an empty binary and no arguments;
/// when that command fails to run, nothing else runs and the line fails.
pub proof fn lemma_empty_line(e: Evaluation)
    requires
        e.wf(),
        e.started_on(Seq::empty()),
    ensures
        binary_of(Seq::empty()) == Seq::<char>::empty(),
        arguments_of(Seq::empty()) == Seq::<Seq<char>>::empty(),
        e.groups@.len() == 1,
        e.groups@[0]@.len() == 1,
        e.running(),
        e.current().binary@ == Seq::<char>::empty(),
        e.current().arguments@.len() == 0,
        !e.stepped(false).running(),
        !e.stepped(false).and_ok,
{
    let empty = Seq::<char>::empty();
    lemma_split_empty(word_separator());
    lemma_split_empty(and_token());
    lemma_split_empty(or_token());
    assert(trim(empty) == empty);
    assert(trim_all(seq![empty]) =~= seq![empty]);
    assert(segments(empty) =~= seq![seq![empty]]);
    assert(arguments_of(empty) =~= Seq::<Seq<char>>::empty());
    assert(e.groups@[0]@[0].parsed_from(empty));
    assert(views(e.current().arguments@).len() == 0);
}

} // verus!
