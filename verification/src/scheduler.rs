//! The replication scheduler.
//!
//! A run starts from the watermark that the façade holds. Every commit at or
//! after that starting point is replicated, in the order in which the sources
//! are configured and, within a source, in the order in which its commits
//! were enumerated. Whenever a commit is later than the watermark, the
//! watermark moves to the commit's time and is persisted before the commit is
//! written.

use crate::commit::{commit_views, SourceCommit, SourceCommitView};
use crate::facade::{facade_message, message_for};
use crate::timestamp::Timestamp;
use vstd::prelude::*;

verus! {

/// One thing for the caller to do on the façade repository.
#[derive(Debug, PartialEq, Eq)]
pub enum Action {
    /// Write this time to the watermark file.
    PersistWatermark(Timestamp),
    /// Make the façade commit for `commit`, with this message.
    WriteCommit { message: String, commit: SourceCommit },
}

/// An action as contracts speak of it.
pub enum ActionView {
    PersistWatermark(Timestamp),
    WriteCommit { message: Seq<char>, commit: SourceCommitView },
}

impl View for Action {
    type V = ActionView;

    open spec fn view(&self) -> ActionView {
        match self {
            Action::PersistWatermark(t) => ActionView::PersistWatermark(*t),
            Action::WriteCommit { message, commit } => ActionView::WriteCommit {
                message: message@,
                commit: commit@,
            },
        }
    }
}

/// The views of a sequence of actions, in the same order.
pub open spec fn action_views(actions: Seq<Action>) -> Seq<ActionView> {
    actions.map_values(|a: Action| a@)
}

/// The time from which a run replicates: the persisted watermark, or the
/// lowest time of all where none was persisted yet.
pub open spec fn starting_point(persisted: Option<Timestamp>) -> Timestamp {
    match persisted {
        Some(w) => w,
        None => Timestamp::lowest(),
    }
}

/// A commit is due in a run when it is not older than the run's starting
/// point. The watermark as it moves during the run plays no part in this.
pub open spec fn is_due(start: Timestamp, commit: SourceCommitView) -> bool {
    start.at_most(commit.time())
}

/// The watermark after one commit was seen.
pub open spec fn watermark_after_commit(
    start: Timestamp,
    watermark: Timestamp,
    commit: SourceCommitView,
) -> Timestamp {
    if is_due(start, commit) {
        watermark.later(commit.time())
    } else {
        watermark
    }
}

/// What one commit asks for: nothing where it is not due; else the façade
/// commit, after the new watermark where the commit is later than the old.
pub open spec fn commit_actions(
    start: Timestamp,
    watermark: Timestamp,
    message: Seq<char>,
    commit: SourceCommitView,
) -> Seq<ActionView> {
    if !is_due(start, commit) {
        Seq::empty()
    } else if watermark.precedes(commit.time()) {
        seq![
            ActionView::PersistWatermark(commit.time()),
            ActionView::WriteCommit { message, commit },
        ]
    } else {
        seq![ActionView::WriteCommit { message, commit }]
    }
}

/// The watermark after the commits of one source were seen in order.
pub open spec fn watermark_after(
    start: Timestamp,
    watermark: Timestamp,
    commits: Seq<SourceCommitView>,
) -> Timestamp
    decreases commits.len(),
{
    if commits.len() == 0 {
        watermark
    } else {
        watermark_after_commit(
            start,
            watermark_after(start, watermark, commits.drop_last()),
            commits.last(),
        )
    }
}

/// What the commits of one source ask for, in order.
pub open spec fn source_actions(
    start: Timestamp,
    watermark: Timestamp,
    message: Seq<char>,
    commits: Seq<SourceCommitView>,
) -> Seq<ActionView>
    decreases commits.len(),
{
    if commits.len() == 0 {
        Seq::empty()
    } else {
        source_actions(start, watermark, message, commits.drop_last()) + commit_actions(
            start,
            watermark_after(start, watermark, commits.drop_last()),
            message,
            commits.last(),
        )
    }
}

/// The state of a run: where it started, and the watermark as it stands.
#[derive(Clone, Copy, Debug, PartialEq, Eq, Structural)]
pub struct Scheduler {
    pub start: Timestamp,
    pub watermark: Timestamp,
}

impl Scheduler {
    /// The watermark never lies before the starting point.
    pub open spec fn wf(self) -> bool {
        self.start.at_most(self.watermark)
    }

    /// The state at the beginning of a run, given the watermark that was
    /// read from the façade (`None` where there is none yet).
    pub fn new(persisted: Option<Timestamp>) -> (s: Scheduler)
        ensures
            s.start == starting_point(persisted),
            s.watermark == s.start,
            s.wf(),
    {
        let start = match persisted {
            Some(w) => w,
            None => Timestamp::minimum(),
        };
        Scheduler { start, watermark: start }
    }

    /// Decides on one commit of the source called `name`.
    pub fn observe(&mut self, name: &str, commit: &SourceCommit) -> (actions: Vec<Action>)
        ensures
            action_views(actions@) == commit_actions(
                old(self).start,
                old(self).watermark,
                message_for(name@),
                commit@,
            ),
            final(self).start == old(self).start,
            final(self).watermark == watermark_after_commit(
                old(self).start,
                old(self).watermark,
                commit@,
            ),
            old(self).wf() ==> final(self).wf(),
    {
        let mut actions: Vec<Action> = Vec::new();
        let time = commit.time();
        if time.is_at_least(&self.start) {
            if time.is_after(&self.watermark) {
                self.watermark = time;
                actions.push(Action::PersistWatermark(time));
            }
            actions.push(Action::WriteCommit { message: facade_message(name), commit: commit.clone() });
        }
        assert(action_views(actions@) =~= commit_actions(
            old(self).start,
            old(self).watermark,
            message_for(name@),
            commit@,
        ));
        actions
    }

    /// Decides on the enumerated commits of the source called `name`, in
    /// their order.
    pub fn replicate(&mut self, name: &str, commits: &Vec<SourceCommit>) -> (actions: Vec<Action>)
        ensures
            action_views(actions@) == source_actions(
                old(self).start,
                old(self).watermark,
                message_for(name@),
                commit_views(commits@),
            ),
            final(self).start == old(self).start,
            final(self).watermark == watermark_after(
                old(self).start,
                old(self).watermark,
                commit_views(commits@),
            ),
            old(self).wf() ==> final(self).wf(),
    {
        let ghost start = self.start;
        let ghost before = self.watermark;
        let ghost all = commit_views(commits@);
        let mut actions: Vec<Action> = Vec::new();
        let mut i: usize = 0;
        while i < commits.len()
            invariant
                i <= commits.len(),
                all == commit_views(commits@),
                self.start == start,
                self.watermark == watermark_after(start, before, all.take(i as int)),
                action_views(actions@) == source_actions(
                    start,
                    before,
                    message_for(name@),
                    all.take(i as int),
                ),
                old(self).wf() ==> self.wf(),
                start == old(self).start,
                before == old(self).watermark,
            decreases commits.len() - i,
        {
            let ghost seen = action_views(actions@);
            let mut step = self.observe(name, &commits[i]);
            let ghost added = action_views(step@);
            actions.append(&mut step);
            proof {
                assert(all.take(i + 1).drop_last() =~= all.take(i as int));
                assert(action_views(actions@) =~= seen + added);
            }
            i += 1;
        }
        assert(all.take(commits.len() as int) =~= all);
        actions
    }
}

} // verus!
