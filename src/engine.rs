use vstd::prelude::*;

verus! {

/// Unicode's White_Space characters, which `char::is_whitespace` accepts.
pub open spec fn is_white_space(c: char) -> bool {
    ('\u{9}' <= c && c <= '\u{d}') || c == ' ' || c == '\u{85}' || c == '\u{a0}' || c == '\u{1680}'
        || ('\u{2000}' <= c && c <= '\u{200a}') || c == '\u{2028}' || c == '\u{2029}' || c
        == '\u{202f}' || c == '\u{205f}' || c == '\u{3000}'
}

/// `s` without its leading white space.
pub open spec fn trim_start(s: Seq<char>) -> Seq<char>
    decreases s.len(),
{
    if s.len() > 0 && is_white_space(s[0]) {
        trim_start(s.drop_first())
    } else {
        s
    }
}

/// `s` without its trailing white space.
pub open spec fn trim_end(s: Seq<char>) -> Seq<char>
    decreases s.len(),
{
    if s.len() > 0 && is_white_space(s.last()) {
        trim_end(s.drop_last())
    } else {
        s
    }
}

/// `s` without leading and trailing white space.
pub open spec fn trim_chars(s: Seq<char>) -> Seq<char> {
    trim_end(trim_start(s))
}

/// Relies on `str::trim`: the text without leading and trailing White_Space.
#[verifier::external_body]
fn trim_text(s: &str) -> (r: &str)
    ensures
        r@ == trim_chars(s@),
{
    s.trim()
}

/// An answer to the confirmation prompt.
#[derive(Debug, Clone, Copy, PartialEq, Eq, Structural)]
pub enum Reply {
    Yes,
    No,
    Unrecognized,
}

/// `y` or `Y` accepts; `n`, `N` or nothing declines; anything else is asked again.
pub open spec fn reply_of(t: Seq<char>) -> Reply {
    if t == seq!['y'] || t == seq!['Y'] {
        Reply::Yes
    } else if t == seq!['n'] || t == seq!['N'] || t.len() == 0 {
        Reply::No
    } else {
        Reply::Unrecognized
    }
}

/// Reads an already trimmed answer.
pub fn classify_trimmed(t: &str) -> (r: Reply)
    ensures
        r == reply_of(t@),
{
    let n = t.unicode_len();
    if n == 0 {
        return Reply::No;
    }
    if n > 1 {
        assert(t@ != seq!['y'] && t@ != seq!['Y'] && t@ != seq!['n'] && t@ != seq!['N']);
        return Reply::Unrecognized;
    }
    let c = t.get_char(0);
    if c == 'y' || c == 'Y' {
        assert(t@ =~= seq![c]);
        Reply::Yes
    } else if c == 'n' || c == 'N' {
        assert(t@ =~= seq![c]);
        Reply::No
    } else {
        assert(t@ != seq!['y'] && t@ != seq!['Y'] && t@ != seq!['n'] && t@ != seq!['N']);
        Reply::Unrecognized
    }
}

/// Reads a line typed at the confirmation prompt, ignoring surrounding whitespace.
pub fn classify_reply(line: &str) -> (r: Reply)
    ensures
        r == reply_of(trim_chars(line@)),
{
    classify_trimmed(trim_text(line))
}

/// Where a run stands after planning.
#[derive(Debug, Clone, Copy, PartialEq, Eq, Structural)]
pub enum Stage {
    /// Waiting for the user to confirm.
    Confirming,
    /// Renaming; the index of the next pair to rename.
    Renaming(usize),
    /// Nothing more is to be done.
    Done,
}

/// What the caller is to do next.
#[derive(Debug, Clone, Copy, PartialEq, Eq, Structural)]
pub enum Action {
    /// Ask for confirmation and hand the answer back.
    Prompt,
    /// Rename the pair at this index and hand back whether it worked.
    Rename(usize),
    /// Stop.
    Finish,
}

/// Drives the preview, confirmation and renaming of a planned batch of `total`
/// pairs, one event at a time.
pub struct Engine {
    pub total: usize,
    pub stage: Stage,
}

pub open spec fn stage_action(total: nat, stage: Stage) -> Action {
    match stage {
        Stage::Confirming => Action::Prompt,
        Stage::Renaming(i) => if i < total {
            Action::Rename(i)
        } else {
            Action::Finish
        },
        Stage::Done => Action::Finish,
    }
}

/// The stage after an answer: only a waiting prompt takes one.
pub open spec fn reply_step(stage: Stage, reply: Reply) -> Stage {
    match stage {
        Stage::Confirming => match reply {
            Reply::Yes => Stage::Renaming(0),
            Reply::No => Stage::Done,
            Reply::Unrecognized => Stage::Confirming,
        },
        _ => stage,
    }
}

/// Feeds the results of successive renames to a run that is renaming: the
/// stage reached, and the indices of the pairs reported as failed.
pub open spec fn feed_renames(start: nat, outcomes: Seq<bool>) -> (Seq<nat>, nat)
    decreases outcomes.len(),
{
    if outcomes.len() == 0 {
        (Seq::empty(), start)
    } else {
        let (reports, next) = feed_renames(start, outcomes.drop_last());
        (if outcomes.last() {
            reports
        } else {
            reports.push(next)
        }, next + 1)
    }
}

/// The number of renames that failed.
pub open spec fn failure_count(outcomes: Seq<bool>) -> nat
    decreases outcomes.len(),
{
    if outcomes.len() == 0 {
        0
    } else {
        failure_count(outcomes.drop_last()) + if outcomes.last() {
            0nat
        } else {
            1nat
        }
    }
}

impl Engine {
    pub open spec fn wf(&self) -> bool {
        self.stage matches Stage::Renaming(i) ==> i <= self.total
    }

    /// A run over `total` pairs; it starts renaming at once where confirmation
    /// is skipped.
    pub fn new(total: usize, skip_confirmation: bool) -> (r: Engine)
        ensures
            r.wf(),
            r.total == total,
            r.stage == (if skip_confirmation {
                Stage::Renaming(0)
            } else {
                Stage::Confirming
            }),
    {
        Engine { total, stage: if skip_confirmation { Stage::Renaming(0) } else { Stage::Confirming } }
    }

    pub fn next_action(&self) -> (r: Action)
        ensures
            r == stage_action(self.total as nat, self.stage),
    {
        match self.stage {
            Stage::Confirming => Action::Prompt,
            Stage::Renaming(i) => if i < self.total {
                Action::Rename(i)
            } else {
                Action::Finish
            },
            Stage::Done => Action::Finish,
        }
    }

    /// Takes an answer to the prompt.
    pub fn on_reply(&mut self, reply: Reply)
        requires
            old(self).wf(),
        ensures
            final(self).wf(),
            final(self).total == old(self).total,
            final(self).stage == reply_step(old(self).stage, reply),
    {
        if let Stage::Confirming = self.stage {
            self.stage = match reply {
                Reply::Yes => Stage::Renaming(0),
                Reply::No => Stage::Done,
                Reply::Unrecognized => Stage::Confirming,
            };
        }
    }

    /// The prompt could not be read: the run ends without renaming.
    pub fn on_read_error(&mut self)
        ensures
            final(self).total == old(self).total,
            final(self).stage == Stage::Done,
            final(self).wf(),
    {
        self.stage = Stage::Done;
    }

    /// Takes the result of the rename that was asked for, and moves on to the
    /// next pair whatever it was; returns whether a failure is to be reported.
    pub fn on_renamed(&mut self, succeeded: bool) -> (report: bool)
        requires
            old(self).wf(),
            old(self).stage matches Stage::Renaming(i) && i < old(self).total,
        ensures
            final(self).wf(),
            final(self).total == old(self).total,
            report == !succeeded,
            old(self).stage matches Stage::Renaming(i) && final(self).stage == Stage::Renaming(
                (i + 1) as usize,
            ),
    {
        if let Stage::Renaming(i) = self.stage {
            self.stage = Stage::Renaming(i + 1);
        }
        !succeeded
    }
}

/// A batch is renamed in full whatever fails: from the first pair, after the
/// results of the first `k` renames the next action renames pair `k`, after all
/// of them the run finishes, and the pairs reported are failed ones, each
/// once, as many as there were failures.
pub proof fn lemma_every_rename_attempted(total: nat, outcomes: Seq<bool>)
    requires
        outcomes.len() == total,
    ensures
        forall|k: int|
            0 <= k < total ==> stage_action(
                total,
                Stage::Renaming(#[trigger] feed_renames(0, outcomes.take(k)).1 as usize),
            ) == Action::Rename(k as usize),
        feed_renames(0, outcomes).1 == total,
        feed_renames(0, outcomes).0.len() == failure_count(outcomes),
        forall|i: int|
            0 <= i < feed_renames(0, outcomes).0.len() ==> !outcomes[#[trigger] feed_renames(
                0,
                outcomes,
            ).0[i] as int],
        forall|i: int, j: int|
            0 <= i < j < feed_renames(0, outcomes).0.len() ==> #[trigger] feed_renames(
                0,
                outcomes,
            ).0[i] < #[trigger] feed_renames(0, outcomes).0[j],
{
    lemma_feed_renames(0, outcomes);
    assert forall|k: int| 0 <= k < total implies stage_action(
        total,
        Stage::Renaming(#[trigger] feed_renames(0, outcomes.take(k)).1 as usize),
    ) == Action::Rename(k as usize) by {
        lemma_feed_renames(0, outcomes.take(k));
    }
}

proof fn lemma_feed_renames(start: nat, outcomes: Seq<bool>)
    ensures
        feed_renames(start, outcomes).1 == start + outcomes.len(),
        feed_renames(start, outcomes).0.len() == failure_count(outcomes),
        forall|i: int|
            0 <= i < feed_renames(start, outcomes).0.len() ==> start <= #[trigger] feed_renames(
                start,
                outcomes,
            ).0[i] < start + outcomes.len() && !outcomes[feed_renames(start, outcomes).0[i] - start],
        forall|i: int, j: int|
            0 <= i < j < feed_renames(start, outcomes).0.len() ==> #[trigger] feed_renames(
                start,
                outcomes,
            ).0[i] < #[trigger] feed_renames(start, outcomes).0[j],
    decreases outcomes.len(),
{
    if outcomes.len() > 0 {
        let rest = outcomes.drop_last();
        lemma_feed_renames(start, rest);
        let r = feed_renames(start, outcomes).0;
        let p = feed_renames(start, rest).0;
        assert forall|i: int| 0 <= i < r.len() implies start <= #[trigger] r[i] < start
            + outcomes.len() && !outcomes[r[i] - start] by {
            if i < p.len() {
                assert(r[i] == p[i]);
                assert(outcomes[p[i] - start] == rest[p[i] - start]);
            }
        }
        assert forall|i: int, j: int| 0 <= i < j < r.len() implies #[trigger] r[i] < #[trigger] r[j] by {
            assert(r[i] == p[i]);
            if j < p.len() {
                assert(r[j] == p[j]);
            }
        }
    }
}

/// Declining leaves every file alone: `n`, `N` or an empty answer (as typed,
/// with its line end) ends the run,
/// and a run that has ended asks for no rename, whatever answers follow.
pub proof fn lemma_decline_renames_nothing(total: nat, reply: Reply)
    ensures
        reply_of(seq!['n']) == Reply::No,
        reply_of(seq!['N']) == Reply::No,
        reply_of(Seq::empty()) == Reply::No,
        reply_of(trim_chars(seq!['n', '\n'])) == Reply::No,
        reply_of(trim_chars(seq!['\n'])) == Reply::No,
        reply_step(Stage::Confirming, Reply::No) == Stage::Done,
        reply_step(Stage::Done, reply) == Stage::Done,
        stage_action(total, Stage::Done) == Action::Finish,
{
    assert(trim_start(seq!['n', '\n']) == seq!['n', '\n']);
    assert(seq!['n', '\n'].drop_last() =~= seq!['n']);
    assert(trim_end(seq!['n']) == seq!['n']);
    assert(trim_chars(seq!['n', '\n']) == seq!['n']);
    assert(seq!['\n'].drop_first() =~= Seq::<char>::empty());
    assert(seq!['\n'][0] == '\n');
    assert(trim_start(Seq::<char>::empty()) == Seq::<char>::empty());
    assert(trim_start(seq!['\n']) == Seq::<char>::empty());
    assert(trim_end(Seq::<char>::empty()) == Seq::<char>::empty());
    assert(trim_chars(seq!['\n']) =~= Seq::<char>::empty());
    assert(seq!['n'][0] == 'n' && seq!['N'][0] == 'N');
    assert(seq!['y'][0] == 'y' && seq!['Y'][0] == 'Y');
    assert(seq!['n'] != seq!['y'] && seq!['n'] != seq!['Y']);
    assert(seq!['N'] != seq!['y'] && seq!['N'] != seq!['Y']);
    assert(Seq::<char>::empty() != seq!['y'] && Seq::<char>::empty() != seq!['Y']);
}

} // verus!
