//! A whole run over the configured sources.

use crate::commit::{commit_views, non_merge_commits, without_merges, SourceCommit, SourceCommitView};
use crate::facade::message_for;
use crate::scheduler::{
    action_views, source_actions, starting_point, watermark_after, Action, ActionView, Scheduler,
};
use crate::timestamp::Timestamp;
use vstd::prelude::*;

verus! {

/// A configured source with the walk of its history: every commit that is
/// reachable from its head, merge commits included.
#[derive(Debug, PartialEq, Eq)]
pub struct SourceHistory {
    pub name: String,
    pub walk: Vec<SourceCommit>,
}

/// A source with its walk as contracts speak of it.
pub struct SourceHistoryView {
    pub name: Seq<char>,
    pub walk: Seq<SourceCommitView>,
}

impl View for SourceHistory {
    type V = SourceHistoryView;

    open spec fn view(&self) -> SourceHistoryView {
        SourceHistoryView { name: self.name@, walk: commit_views(self.walk@) }
    }
}

/// The views of a sequence of sources, in the same order.
pub open spec fn history_views(sources: Seq<SourceHistory>) -> Seq<SourceHistoryView> {
    sources.map_values(|s: SourceHistory| s@)
}

/// The watermark after the sources were replicated one after the other.
pub open spec fn run_watermark(
    start: Timestamp,
    watermark: Timestamp,
    sources: Seq<SourceHistoryView>,
) -> Timestamp
    decreases sources.len(),
{
    if sources.len() == 0 {
        watermark
    } else {
        watermark_after(
            start,
            run_watermark(start, watermark, sources.drop_last()),
            without_merges(sources.last().walk),
        )
    }
}

/// What a run asks for: the actions of the first source, then those of the
/// second, and so on. Merge commits ask for nothing.
pub open spec fn run_actions(
    start: Timestamp,
    watermark: Timestamp,
    sources: Seq<SourceHistoryView>,
) -> Seq<ActionView>
    decreases sources.len(),
{
    if sources.len() == 0 {
        Seq::empty()
    } else {
        run_actions(start, watermark, sources.drop_last()) + source_actions(
            start,
            run_watermark(start, watermark, sources.drop_last()),
            message_for(sources.last().name),
            without_merges(sources.last().walk),
        )
    }
}

/// The outcome of planning a run: what to do on the façade, in order, and
/// the watermark that the façade holds once all of it is done.
#[derive(Debug, PartialEq, Eq)]
pub struct RunPlan {
    pub actions: Vec<Action>,
    pub watermark: Timestamp,
}

/// Plans a run from the watermark that the façade holds (`None` where it
/// holds none yet) over the sources in their configured order.
pub fn plan_run(persisted: Option<Timestamp>, sources: &Vec<SourceHistory>) -> (plan: RunPlan)
    ensures
        action_views(plan.actions@) == run_actions(
            starting_point(persisted),
            starting_point(persisted),
            history_views(sources@),
        ),
        plan.watermark == run_watermark(
            starting_point(persisted),
            starting_point(persisted),
            history_views(sources@),
        ),
{
    let mut scheduler = Scheduler::new(persisted);
    let ghost start = starting_point(persisted);
    let ghost all = history_views(sources@);
    let mut actions: Vec<Action> = Vec::new();
    let mut i: usize = 0;
    while i < sources.len()
        invariant
            i <= sources.len(),
            all == history_views(sources@),
            start == starting_point(persisted),
            scheduler.start == start,
            scheduler.watermark == run_watermark(start, start, all.take(i as int)),
            action_views(actions@) == run_actions(start, start, all.take(i as int)),
        decreases sources.len() - i,
    {
        let ghost seen = action_views(actions@);
        let commits = non_merge_commits(&sources[i].walk);
        let mut batch = scheduler.replicate(sources[i].name.as_str(), &commits);
        let ghost added = action_views(batch@);
        actions.append(&mut batch);
        proof {
            assert(all.take(i + 1).drop_last() =~= all.take(i as int));
            assert(action_views(actions@) =~= seen + added);
        }
        i += 1;
    }
    assert(all.take(sources.len() as int) =~= all);
    RunPlan { actions, watermark: scheduler.watermark }
}

} // verus!
