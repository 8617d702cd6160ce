use vstd::prelude::*;
use vstd::string::*;
use crate::commands::ask::{entries_of, names_of, Target};
use crate::commands::CommandResult;
use crate::entry::PasswordEntry;
use crate::state::State;

verus! {

/// Where a round of questions stands.
#[derive(Clone, Copy, Debug, PartialEq, Eq, Structural)]
pub enum Phase {
    /// The entry at `index` is being asked for; `failures` wrong answers
    /// were given for it so far.
    Asking { index: usize, failures: usize },
    /// The questions for the entry at `index` are over, and the user is
    /// told how it went.
    Telling { index: usize, outcome: bool },
    /// All entries were asked for.
    Over,
}

/// What a round of questions is made of: the entries to ask for, the number
/// of extra tries for each, where it stands, and whether every entry that
/// was dealt with so far was answered.
pub struct Run {
    pub names: Seq<Seq<char>>,
    pub entries: Seq<PasswordEntry>,
    pub retries: nat,
    pub phase: Phase,
    pub success: bool,
}

/// What is to be done next in a round of questions, as a value of the
/// model.
pub enum Pending {
    Prompt(Seq<char>),
    Report(Seq<char>, bool),
    Done(CommandResult),
}

impl Run {
    /// What holds in every round: an entry that is being dealt with exists,
    /// every entry has a name, the numbers of entries and of extra tries are
    /// such as a machine can hold, and no more wrong answers were counted
    /// than there are extra tries.
    pub open spec fn wf(self) -> bool {
        &&& self.names.len() == self.entries.len()
        &&& self.names.len() <= usize::MAX
        &&& self.retries <= usize::MAX
        &&& match self.phase {
            Phase::Asking { index, failures } => index < self.names.len() && failures
                <= self.retries,
            Phase::Telling { index, outcome } => index < self.names.len(),
            Phase::Over => true,
        }
    }

    /// The round at its start: the first entry is asked for, or the round is
    /// over where there is none.
    pub open spec fn started(names: Seq<Seq<char>>, entries: Seq<PasswordEntry>, retries: nat) -> Run {
        Run {
            names,
            entries,
            retries,
            phase: if names.len() > 0 {
                Phase::Asking { index: 0, failures: 0 }
            } else {
                Phase::Over
            },
            success: true,
        }
    }

    /// The round with another phase.
    pub open spec fn at(self, phase: Phase) -> Run {
        Run { phase, ..self }
    }

    /// The round after an answer. The right answer ends the questions for
    /// the entry with a success. A wrong one counts: where the extra tries
    /// are used up it ends them with a failure, and else the entry is asked
    /// for again. An answer that nobody asked for changes nothing.
    pub open spec fn answered(self, answer: Seq<char>) -> Run {
        match self.phase {
            Phase::Asking { index, failures } => if self.entries[index as int].accepts(answer) {
                self.at(Phase::Telling { index, outcome: true })
            } else if failures >= self.retries {
                self.at(Phase::Telling { index, outcome: false })
            } else {
                self.at(Phase::Asking { index, failures: (failures + 1) as usize })
            },
            _ => self,
        }
    }

    /// The round after the user was told how an entry went: its outcome is
    /// taken into the whole, and the next entry is asked for, or the round is
    /// over where there is none.
    pub open spec fn reported(self) -> Run {
        match self.phase {
            Phase::Telling { index, outcome } => Run {
                phase: if index + 1 < self.names.len() {
                    Phase::Asking { index: (index + 1) as usize, failures: 0 }
                } else {
                    Phase::Over
                },
                success: outcome && self.success,
                ..self
            },
            _ => self,
        }
    }

    /// What is to be done next: ask for the entry, tell how it went, or
    /// end with the outcome of the whole round, which is always to be saved.
    pub open spec fn pending(self) -> Pending {
        match self.phase {
            Phase::Asking { index, failures } => Pending::Prompt(self.names[index as int]),
            Phase::Telling { index, outcome } => Pending::Report(self.names[index as int], outcome),
            Phase::Over => Pending::Done(
                CommandResult { save_config: true, success: self.success },
            ),
        }
    }

    /// Whether the step from `self` to `next` begins or ends the questions
    /// for an entry. These are the steps at which the time is recorded.
    pub open spec fn marks(self, next: Run) -> bool {
        ||| self.phase is Asking && next.phase is Telling
        ||| self.phase is Telling && next.phase is Asking
    }

    /// The round after a row of answers, taken one after the other.
    pub open spec fn fed(self, answers: Seq<Seq<char>>) -> Run
        decreases answers.len(),
    {
        if answers.len() == 0 {
            self
        } else {
            self.answered(answers[0]).fed(answers.drop_first())
        }
    }

    /// The round after it was played through: for one entry after the other,
    /// the answers of the script were taken and the user was told how it
    /// went.
    pub open spec fn played(self, script: Seq<Seq<Seq<char>>>) -> Run
        decreases script.len(),
    {
        if script.len() == 0 {
            self
        } else {
            self.fed(script[0]).reported().played(script.drop_first())
        }
    }
}

/// Whether one of the first `tries` of some answers is accepted by an entry.
pub open spec fn accepted_within(entry: PasswordEntry, answers: Seq<Seq<char>>, tries: nat) -> bool {
    exists|k: int| 0 <= k < answers.len() && k < tries && entry.accepts(#[trigger] answers[k])
}

/// What is to be done next in a round of questions.
#[derive(Debug)]
pub enum Action {
    /// Ask for the password of the entry under this name.
    Prompt { name: String },
    /// Tell the user how the questions for the entry under this name went.
    Report { name: String, success: bool },
    /// Nothing more: the command ends with this outcome.
    Done(CommandResult),
}

impl View for Action {
    type V = Pending;

    open spec fn view(&self) -> Pending {
        match *self {
            Action::Prompt { name } => Pending::Prompt(name@),
            Action::Report { name, success } => Pending::Report(name@, success),
            Action::Done(result) => Pending::Done(result),
        }
    }
}

/// One step of a round of questions: what is to be done next, and whether
/// the time of asking was recorded and has to be written out first.
#[derive(Debug)]
pub struct Step {
    pub action: Action,
    pub persist: bool,
}

/// The time of asking after a step that marks it or does not.
pub open spec fn stamped(before: State, marks: bool, now: u64) -> State {
    if marks {
        State { last_asked: Some(now) }
    } else {
        before
    }
}

/// A round of questions: the entries to ask for, and how far it has come.
#[derive(Debug)]
pub struct Session {
    targets: Vec<Target>,
    retries: usize,
    phase: Phase,
    success: bool,
}

impl View for Session {
    type V = Run;

    closed spec fn view(&self) -> Run {
        Run {
            names: names_of(self.targets@),
            entries: entries_of(self.targets@),
            retries: self.retries as nat,
            phase: self.phase,
            success: self.success,
        }
    }
}

impl Session {
    #[verifier::type_invariant]
    spec fn sound(&self) -> bool {
        self@.wf()
    }

    /// What is to be done next.
    pub fn pending(&self) -> (r: Action)
        ensures
            r@ == self@.pending(),
            self@.wf(),
    {
        proof {
            use_type_invariant(self);
        }
        match self.phase {
            Phase::Asking { index, failures } => Action::Prompt {
                name: self.targets[index].name.clone(),
            },
            Phase::Telling { index, outcome } => Action::Report {
                name: self.targets[index].name.clone(),
                success: outcome,
            },
            Phase::Over => Action::Done(
                CommandResult { save_config: true, success: self.success },
            ),
        }
    }

    /// Begins a round of questions for `targets`, with `retries` extra tries
    /// for each.
    ///
    /// Where there is an entry to ask for, the time of asking is recorded
    /// before the first question.
    pub fn start(targets: Vec<Target>, retries: usize, state: &mut State, now: u64) -> (r: (
        Session,
        Step,
    ))
        ensures
            r.0@ == Run::started(names_of(targets@), entries_of(targets@), retries as nat),
            r.0@.wf(),
            r.1.action@ == r.0@.pending(),
            r.1.persist == (targets@.len() > 0),
            *final(state) == stamped(*old(state), targets@.len() > 0, now),
    {
        let asking = targets.len() > 0;
        let phase = if asking {
            Phase::Asking { index: 0, failures: 0 }
        } else {
            Phase::Over
        };
        let session = Session { targets, retries, phase, success: true };
        if asking {
            state.mark_asked(now);
        }
        let action = session.pending();
        (session, Step { action, persist: asking })
    }

    /// Takes an answer to the question that is pending.
    ///
    /// The round goes on as `Run::answered` says. Where the answer ends the
    /// questions for the entry, the time of asking is recorded once more.
    pub fn answer(&mut self, answer: String, state: &mut State, now: u64) -> (r: Step)
        ensures
            final(self)@ == old(self)@.answered(answer@),
            final(self)@.wf(),
            r.action@ == final(self)@.pending(),
            r.persist == old(self)@.marks(final(self)@),
            *final(state) == stamped(*old(state), r.persist, now),
    {
        proof {
            use_type_invariant(&*self);
        }
        let mut persist = false;
        match self.phase {
            Phase::Asking { index, failures } => {
                if self.targets[index].entry.matches(answer) {
                    self.phase = Phase::Telling { index, outcome: true };
                    persist = true;
                } else if failures >= self.retries {
                    self.phase = Phase::Telling { index, outcome: false };
                    persist = true;
                } else {
                    self.phase = Phase::Asking { index, failures: failures + 1 };
                }
            },
            _ => {},
        }
        if persist {
            state.mark_asked(now);
        }
        let action = self.pending();
        Step { action, persist }
    }

    /// Takes note that the user was told how the entry went.
    ///
    /// The round goes on as `Run::reported` says. Where another entry is
    /// asked for, the time of asking is recorded before its first question.
    pub fn reported(&mut self, state: &mut State, now: u64) -> (r: Step)
        ensures
            final(self)@ == old(self)@.reported(),
            final(self)@.wf(),
            r.action@ == final(self)@.pending(),
            r.persist == old(self)@.marks(final(self)@),
            *final(state) == stamped(*old(state), r.persist, now),
    {
        proof {
            use_type_invariant(&*self);
        }
        let mut persist = false;
        match self.phase {
            Phase::Telling { index, outcome } => {
                let success = outcome && self.success;
                let count = self.targets.len();
                assert(index < count);
                if index + 1 < count {
                    self.phase = Phase::Asking { index: index + 1, failures: 0 };
                    persist = true;
                } else {
                    self.phase = Phase::Over;
                }
                self.success = success;
            },
            _ => {},
        }
        if persist {
            state.mark_asked(now);
        }
        let action = self.pending();
        Step { action, persist }
    }
}

/// Every step leaves a round as sound as it found it.
pub proof fn lemma_steps_keep_wf(run: Run, answer: Seq<char>)
    requires
        run.wf(),
    ensures
        run.answered(answer).wf(),
        run.reported().wf(),
{
}

/// The retry budget: an entry that is asked for with `failures` wrong
/// answers behind it gets as many further tries as there are extra tries
/// left, and one more. After that many answers the questions for it are over,
/// with a success exactly when one of those answers was accepted. Nothing
/// else in the round has changed.
pub proof fn lemma_attempts(run: Run, index: usize, failures: usize, answers: Seq<Seq<char>>)
    requires
        run.wf(),
        run.phase == (Phase::Asking { index, failures }),
        answers.len() == run.retries + 1 - failures,
    ensures
        run.fed(answers) == run.at(
            Phase::Telling {
                index,
                outcome: accepted_within(run.entries[index as int], answers, answers.len()),
            },
        ),
    decreases answers.len(),
{
    let entry = run.entries[index as int];
    let next = run.answered(answers[0]);
    let rest = answers.drop_first();
    if entry.accepts(answers[0]) {
        lemma_told_stays(next, rest);
    } else if failures >= run.retries {
        assert(rest.len() == 0);
        assert(next.fed(rest) == next);
        assert(!accepted_within(entry, answers, answers.len())) by {
            if accepted_within(entry, answers, answers.len()) {
                let k = choose|k: int|
                    0 <= k < answers.len() && k < answers.len() && entry.accepts(
                        #[trigger] answers[k],
                    );
                assert(k == 0);
            }
        }
    } else {
        lemma_attempts(next, index, (failures + 1) as usize, rest);
        assert(accepted_within(entry, answers, answers.len()) == accepted_within(
            entry,
            rest,
            rest.len(),
        )) by {
            if accepted_within(entry, answers, answers.len()) {
                let k = choose|k: int|
                    0 <= k < answers.len() && k < answers.len() && entry.accepts(
                        #[trigger] answers[k],
                    );
                assert(rest[k - 1] == answers[k]);
            }
            if accepted_within(entry, rest, rest.len()) {
                let k = choose|k: int|
                    0 <= k < rest.len() && k < rest.len() && entry.accepts(#[trigger] rest[k]);
                assert(answers[k + 1] == rest[k]);
            }
        }
    }
}

/// Once the questions for an entry are over, further answers change nothing.
proof fn lemma_told_stays(run: Run, answers: Seq<Seq<char>>)
    requires
        !(run.phase is Asking),
    ensures
        run.fed(answers) == run,
    decreases answers.len(),
{
    if answers.len() > 0 {
        lemma_told_stays(run, answers.drop_first());
    }
}

/// Whether every entry from `from` on is answered within its tries, where
/// `script` holds the answers for those entries in turn.
pub open spec fn all_accepted(
    entries: Seq<PasswordEntry>,
    from: int,
    script: Seq<Seq<Seq<char>>>,
) -> bool {
    forall|i: int|
        0 <= i < script.len() ==> accepted_within(
            entries[from + i],
            #[trigger] script[i],
            script[i].len(),
        )
}

/// Playing a round from one of its entries on: with a full set of answers
/// for that entry and each one behind it, the round is over, and it remains
/// a success exactly when it was one so far and each of those entries was
/// answered within its tries.
pub proof fn lemma_played_from(run: Run, index: usize, script: Seq<Seq<Seq<char>>>)
    requires
        run.wf(),
        run.phase == (Phase::Asking { index, failures: 0 }),
        script.len() == run.names.len() - index,
        forall|i: int| 0 <= i < script.len() ==> (#[trigger] script[i]).len() == run.retries + 1,
    ensures
        run.played(script) == (Run {
            phase: Phase::Over,
            success: run.success && all_accepted(run.entries, index as int, script),
            ..run
        }),
    decreases script.len(),
{
    let rest = script.drop_first();
    let outcome = accepted_within(run.entries[index as int], script[0], script[0].len());
    lemma_attempts(run, index, 0, script[0]);
    let next = run.fed(script[0]).reported();
    assert forall|i: int| 0 <= i < rest.len() implies (#[trigger] rest[i]).len() == run.retries
        + 1 by {
        assert(rest[i] == script[i + 1]);
    }
    if index + 1 < run.names.len() {
        lemma_played_from(next, (index + 1) as usize, rest);
        assert(all_accepted(run.entries, index as int, script) == (outcome && all_accepted(
            run.entries,
            index + 1,
            rest,
        ))) by {
            if all_accepted(run.entries, index as int, script) {
                assert(script[0] == script[0]);
                assert forall|i: int| 0 <= i < rest.len() implies accepted_within(
                    run.entries[index + 1 + i],
                    #[trigger] rest[i],
                    rest[i].len(),
                ) by {
                    assert(rest[i] == script[i + 1]);
                }
            }
            if outcome && all_accepted(run.entries, index + 1, rest) {
                assert forall|i: int| 0 <= i < script.len() implies accepted_within(
                    run.entries[index + i],
                    #[trigger] script[i],
                    script[i].len(),
                ) by {
                    if i > 0 {
                        assert(script[i] == rest[i - 1]);
                    }
                }
            }
        }
    } else {
        assert(rest.len() == 0);
        assert(next.played(rest) == next);
        assert(all_accepted(run.entries, index as int, script) == outcome) by {
            if outcome {
                assert forall|i: int| 0 <= i < script.len() implies accepted_within(
                    run.entries[index + i],
                    #[trigger] script[i],
                    script[i].len(),
                ) by {
                    assert(i == 0);
                }
            } else if all_accepted(run.entries, index as int, script) {
                assert(script[0] == script[0]);
            }
        }
    }
}

/// A whole round: with a full set of answers for every entry, the round ends
/// as a success exactly when every entry was answered within its tries, and
/// its outcome is to be saved.
pub proof fn lemma_round(
    names: Seq<Seq<char>>,
    entries: Seq<PasswordEntry>,
    retries: nat,
    script: Seq<Seq<Seq<char>>>,
)
    requires
        names.len() == entries.len(),
        retries <= usize::MAX,
        names.len() <= usize::MAX,
        script.len() == names.len(),
        forall|i: int| 0 <= i < script.len() ==> (#[trigger] script[i]).len() == retries + 1,
    ensures
        Run::started(names, entries, retries).played(script).pending() == Pending::Done(
            CommandResult { save_config: true, success: all_accepted(entries, 0, script) },
        ),
{
    let run = Run::started(names, entries, retries);
    if names.len() > 0 {
        lemma_played_from(run, 0, script);
    }
}

} // verus!
