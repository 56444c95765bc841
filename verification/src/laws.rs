//! What holds of every run.

use crate::commit::{not_a_merge, without_merges, SourceCommitView};
use crate::facade::message_for;
use crate::run::{run_actions, run_watermark, SourceHistoryView};
use crate::scheduler::{
    commit_actions, is_due, source_actions, starting_point, watermark_after,
    watermark_after_commit, ActionView,
};
use crate::timestamp::Timestamp;
use vstd::prelude::*;

verus! {

/// Every commit of `commits` is at or before `bound`.
pub open spec fn none_later(commits: Seq<SourceCommitView>, bound: Timestamp) -> bool {
    forall|i: int| 0 <= i < commits.len() ==> (#[trigger] commits[i]).time().at_most(bound)
}

/// While the commits of one source are seen the watermark does not recede,
/// and it ends at or after every commit that was due.
pub proof fn law_watermark_covers_source(
    start: Timestamp,
    watermark: Timestamp,
    commits: Seq<SourceCommitView>,
)
    ensures
        watermark.at_most(watermark_after(start, watermark, commits)),
        forall|i: int|
            0 <= i < commits.len() && is_due(start, #[trigger] commits[i]) ==> commits[i].time().at_most(
                watermark_after(start, watermark, commits),
            ),
    decreases commits.len(),
{
    if commits.len() > 0 {
        law_watermark_covers_source(start, watermark, commits.drop_last());
        let after = watermark_after(start, watermark, commits);
        assert forall|i: int|
            0 <= i < commits.len() && is_due(start, #[trigger] commits[i]) implies commits[i].time().at_most(
            after,
        ) by {
            if i < commits.len() - 1 {
                assert(commits.drop_last()[i] == commits[i]);
            }
        }
    }
}

/// The watermark that one source leaves is the one it found or the time of
/// one of its due commits: with `law_watermark_covers_source`, the latest of
/// them all.
pub proof fn law_watermark_is_reached(
    start: Timestamp,
    watermark: Timestamp,
    commits: Seq<SourceCommitView>,
)
    ensures
        watermark_after(start, watermark, commits) == watermark || exists|i: int|
            0 <= i < commits.len() && is_due(start, #[trigger] commits[i]) && commits[i].time()
                == watermark_after(start, watermark, commits),
    decreases commits.len(),
{
    if commits.len() > 0 {
        let before = watermark_after(start, watermark, commits.drop_last());
        let after = watermark_after(start, watermark, commits);
        law_watermark_is_reached(start, watermark, commits.drop_last());
        if after == before {
            if before != watermark {
                let i = choose|i: int|
                    0 <= i < commits.drop_last().len() && is_due(
                        start,
                        #[trigger] commits.drop_last()[i],
                    ) && commits.drop_last()[i].time() == before;
            }
        } else {
            assert(commits[commits.len() - 1].time() == after);
        }
    }
}

/// During a run the watermark does not recede: it ends at or after the
/// value it began with, whatever the sources hold.
pub proof fn law_watermark_never_recedes(
    start: Timestamp,
    watermark: Timestamp,
    sources: Seq<SourceHistoryView>,
)
    ensures
        watermark.at_most(run_watermark(start, watermark, sources)),
    decreases sources.len(),
{
    if sources.len() > 0 {
        law_watermark_never_recedes(start, watermark, sources.drop_last());
        law_watermark_covers_source(
            start,
            run_watermark(start, watermark, sources.drop_last()),
            without_merges(sources.last().walk),
        );
    }
}

/// The watermark that the façade holds once `actions` were carried out in
/// order, where it held `persisted` before: the last one that was written.
pub open spec fn persisted_after(persisted: Option<Timestamp>, actions: Seq<ActionView>) -> Option<
    Timestamp,
>
    decreases actions.len(),
{
    if actions.len() == 0 {
        persisted
    } else {
        match actions.last() {
            ActionView::PersistWatermark(w) => Some(w),
            ActionView::WriteCommit { .. } => persisted_after(persisted, actions.drop_last()),
        }
    }
}

/// The watermark that the façade holds after a run over `sources`.
pub open spec fn persisted_after_run(
    persisted: Option<Timestamp>,
    sources: Seq<SourceHistoryView>,
) -> Option<Timestamp> {
    persisted_after(
        persisted,
        run_actions(starting_point(persisted), starting_point(persisted), sources),
    )
}

/// The watermark that the façade holds after one run for each entry of
/// `runs`, which lists the sources as each run found them.
pub open spec fn persisted_after_runs(
    persisted: Option<Timestamp>,
    runs: Seq<Seq<SourceHistoryView>>,
) -> Option<Timestamp>
    decreases runs.len(),
{
    if runs.len() == 0 {
        persisted
    } else {
        persisted_after_run(persisted_after_runs(persisted, runs.drop_last()), runs.last())
    }
}

/// The order of the watermarks that a façade may hold: a façade without a
/// watermark comes first, and watermarks are ordered by seconds, then by
/// offset.
pub open spec fn not_after(a: Option<Timestamp>, b: Option<Timestamp>) -> bool {
    match (a, b) {
        (None, _) => true,
        (Some(_), None) => false,
        (Some(x), Some(y)) => x.at_most(y),
    }
}

proof fn lemma_persisted_after_concat(
    persisted: Option<Timestamp>,
    first: Seq<ActionView>,
    second: Seq<ActionView>,
)
    ensures
        persisted_after(persisted, first + second) == persisted_after(
            persisted_after(persisted, first),
            second,
        ),
    decreases second.len(),
{
    if second.len() == 0 {
        assert(first + second =~= first);
    } else {
        assert((first + second).drop_last() =~= first + second.drop_last());
        lemma_persisted_after_concat(persisted, first, second.drop_last());
    }
}

proof fn lemma_persisted_after_commit(
    persisted: Option<Timestamp>,
    start: Timestamp,
    message: Seq<char>,
    commit: SourceCommitView,
)
    ensures
        starting_point(
            persisted_after(
                persisted,
                commit_actions(start, starting_point(persisted), message, commit),
            ),
        ) == watermark_after_commit(start, starting_point(persisted), commit),
        persisted is Some ==> persisted_after(
            persisted,
            commit_actions(start, starting_point(persisted), message, commit),
        ) is Some,
{
    let actions = commit_actions(start, starting_point(persisted), message, commit);
    if actions.len() == 2 {
        reveal_with_fuel(persisted_after, 3);
    } else if actions.len() == 1 {
        reveal_with_fuel(persisted_after, 2);
    }
}

proof fn lemma_persisted_after_source(
    persisted: Option<Timestamp>,
    start: Timestamp,
    message: Seq<char>,
    commits: Seq<SourceCommitView>,
)
    ensures
        starting_point(
            persisted_after(
                persisted,
                source_actions(start, starting_point(persisted), message, commits),
            ),
        ) == watermark_after(start, starting_point(persisted), commits),
        persisted is Some ==> persisted_after(
            persisted,
            source_actions(start, starting_point(persisted), message, commits),
        ) is Some,
    decreases commits.len(),
{
    if commits.len() > 0 {
        let watermark = starting_point(persisted);
        let earlier = source_actions(start, watermark, message, commits.drop_last());
        lemma_persisted_after_source(persisted, start, message, commits.drop_last());
        let held = persisted_after(persisted, earlier);
        lemma_persisted_after_commit(held, start, message, commits.last());
        lemma_persisted_after_concat(
            persisted,
            earlier,
            commit_actions(start, starting_point(held), message, commits.last()),
        );
    }
}

proof fn lemma_persisted_after_sources(
    persisted: Option<Timestamp>,
    start: Timestamp,
    sources: Seq<SourceHistoryView>,
)
    ensures
        starting_point(
            persisted_after(persisted, run_actions(start, starting_point(persisted), sources)),
        ) == run_watermark(start, starting_point(persisted), sources),
        persisted is Some ==> persisted_after(
            persisted,
            run_actions(start, starting_point(persisted), sources),
        ) is Some,
    decreases sources.len(),
{
    if sources.len() > 0 {
        let watermark = starting_point(persisted);
        let earlier = run_actions(start, watermark, sources.drop_last());
        lemma_persisted_after_sources(persisted, start, sources.drop_last());
        let held = persisted_after(persisted, earlier);
        let message = message_for(sources.last().name);
        let commits = without_merges(sources.last().walk);
        lemma_persisted_after_source(held, start, message, commits);
        lemma_persisted_after_concat(
            persisted,
            earlier,
            source_actions(start, starting_point(held), message, commits),
        );
    }
}

/// The next run starts where this one ended: the watermark that the façade
/// holds after a run is the one that the run arrived at.
pub proof fn law_next_run_resumes(persisted: Option<Timestamp>, sources: Seq<SourceHistoryView>)
    ensures
        starting_point(persisted_after_run(persisted, sources)) == run_watermark(
            starting_point(persisted),
            starting_point(persisted),
            sources,
        ),
{
    lemma_persisted_after_sources(persisted, starting_point(persisted), sources);
}

/// A run never lowers the watermark that the façade holds, and never
/// removes it.
pub proof fn law_run_keeps_or_raises_watermark(
    persisted: Option<Timestamp>,
    sources: Seq<SourceHistoryView>,
)
    ensures
        not_after(persisted, persisted_after_run(persisted, sources)),
{
    let start = starting_point(persisted);
    lemma_persisted_after_sources(persisted, start, sources);
    law_watermark_never_recedes(start, start, sources);
}

/// Over any sequence of runs, whatever the sources hold at each of them,
/// the watermark that the façade holds never decreases: after `i` runs it
/// is not after the one held after `j >= i` runs.
pub proof fn law_persisted_watermark_is_monotonic(
    persisted: Option<Timestamp>,
    runs: Seq<Seq<SourceHistoryView>>,
    i: int,
    j: int,
)
    requires
        0 <= i <= j <= runs.len(),
    ensures
        not_after(
            persisted_after_runs(persisted, runs.take(i)),
            persisted_after_runs(persisted, runs.take(j)),
        ),
    decreases j - i,
{
    if i < j {
        law_persisted_watermark_is_monotonic(persisted, runs, i, j - 1);
        let before = persisted_after_runs(persisted, runs.take(j - 1));
        assert(runs.take(j).drop_last() =~= runs.take(j - 1));
        law_run_keeps_or_raises_watermark(before, runs[j - 1]);
    }
}

/// The action that writes the façade commit for `commit` under `message`.
pub open spec fn written(message: Seq<char>, commit: SourceCommitView) -> ActionView {
    ActionView::WriteCommit { message, commit }
}

/// The position, among the actions of one source, of the façade commit for
/// the commit at index `i`: the last action that the commits up to and
/// including it ask for.
pub open spec fn write_position(
    start: Timestamp,
    watermark: Timestamp,
    message: Seq<char>,
    commits: Seq<SourceCommitView>,
    i: int,
) -> int {
    source_actions(start, watermark, message, commits.take(i + 1)).len() - 1
}

/// What the first `k` commits of a source ask for is the beginning of what
/// all of them ask for.
proof fn lemma_source_actions_prefix(
    start: Timestamp,
    watermark: Timestamp,
    message: Seq<char>,
    commits: Seq<SourceCommitView>,
    k: int,
)
    requires
        0 <= k <= commits.len(),
    ensures
        source_actions(start, watermark, message, commits.take(k)).is_prefix_of(
            source_actions(start, watermark, message, commits),
        ),
    decreases commits.len() - k,
{
    if k == commits.len() {
        assert(commits.take(k) =~= commits);
    } else {
        lemma_source_actions_prefix(start, watermark, message, commits.drop_last(), k);
        assert(commits.drop_last().take(k) =~= commits.take(k));
    }
}

/// Within one source, the façade commit for a due commit is written, at
/// its position, after everything that the commits before it ask for.
proof fn lemma_source_write(
    start: Timestamp,
    watermark: Timestamp,
    message: Seq<char>,
    commits: Seq<SourceCommitView>,
    i: int,
)
    requires
        0 <= i < commits.len(),
        is_due(start, commits[i]),
    ensures
        source_actions(start, watermark, message, commits.take(i)).len() <= write_position(
            start,
            watermark,
            message,
            commits,
            i,
        ) < source_actions(start, watermark, message, commits).len(),
        source_actions(start, watermark, message, commits)[write_position(
            start,
            watermark,
            message,
            commits,
            i,
        )] == written(message, commits[i]),
{
    let upto = commits.take(i + 1);
    assert(upto.drop_last() =~= commits.take(i));
    lemma_source_actions_prefix(start, watermark, message, commits, i + 1);
    let step = commit_actions(
        start,
        watermark_after(start, watermark, commits.take(i)),
        message,
        commits[i],
    );
    let head = source_actions(start, watermark, message, upto);
    let all = source_actions(start, watermark, message, commits);
    let at = write_position(start, watermark, message, commits, i);
    assert(step.last() == written(message, commits[i]));
    assert(all.subrange(0, head.len() as int)[at] == all[at]);
}

/// Within one source, façade commits are written in the order in which
/// the commits were enumerated.
proof fn lemma_source_write_order(
    start: Timestamp,
    watermark: Timestamp,
    message: Seq<char>,
    commits: Seq<SourceCommitView>,
    i: int,
    j: int,
)
    requires
        0 <= i < j < commits.len(),
        is_due(start, commits[i]),
        is_due(start, commits[j]),
    ensures
        write_position(start, watermark, message, commits, i) < write_position(
            start,
            watermark,
            message,
            commits,
            j,
        ),
{
    lemma_source_write(start, watermark, message, commits, j);
    lemma_source_actions_prefix(start, watermark, message, commits.take(j), i + 1);
    assert(commits.take(j).take(i + 1) =~= commits.take(i + 1));
}

/// Every action of one source comes from a due commit of that source: a
/// façade commit carries the source's message, a persisted watermark is
/// the time of a due commit.
proof fn lemma_source_actions_origin(
    start: Timestamp,
    watermark: Timestamp,
    message: Seq<char>,
    commits: Seq<SourceCommitView>,
    p: int,
)
    requires
        0 <= p < source_actions(start, watermark, message, commits).len(),
    ensures
        exists|i: int|
            0 <= i < commits.len() && is_due(start, #[trigger] commits[i]) && (source_actions(
                start,
                watermark,
                message,
                commits,
            )[p] == written(message, commits[i]) || source_actions(
                start,
                watermark,
                message,
                commits,
            )[p] == ActionView::PersistWatermark(commits[i].time())),
    decreases commits.len(),
{
    let earlier = source_actions(start, watermark, message, commits.drop_last());
    if p < earlier.len() {
        lemma_source_actions_origin(start, watermark, message, commits.drop_last(), p);
        let i = choose|i: int|
            0 <= i < commits.drop_last().len() && is_due(start, #[trigger] commits.drop_last()[i])
                && (earlier[p] == written(message, commits.drop_last()[i]) || earlier[p]
                == ActionView::PersistWatermark(commits.drop_last()[i].time()));
    } else {
        let i = commits.len() - 1;
    }
}

/// The number of commits that are kept from the first `i` commits of a walk:
/// the index, among the kept commits, of the commit at index `i` of the walk
/// where that one is kept.
pub open spec fn kept_before(walk: Seq<SourceCommitView>, i: int) -> int {
    without_merges(walk.take(i)).len() as int
}

proof fn lemma_kept_commit(walk: Seq<SourceCommitView>, i: int)
    requires
        0 <= i < walk.len(),
        !walk[i].is_merge(),
    ensures
        0 <= kept_before(walk, i) < without_merges(walk).len(),
        without_merges(walk)[kept_before(walk, i)] == walk[i],
{
    let head = walk.take(i + 1);
    let tail = walk.skip(i + 1);
    assert(walk =~= head + tail);
    Seq::filter_distributes_over_add(head, tail, not_a_merge());
    assert(head.drop_last() =~= walk.take(i));
    assert(without_merges(head) == without_merges(walk.take(i)).push(walk[i])) by {
        reveal(Seq::filter);
    }
}

proof fn lemma_kept_order(walk: Seq<SourceCommitView>, i: int, j: int)
    requires
        0 <= i < j <= walk.len(),
        !walk[i].is_merge(),
    ensures
        kept_before(walk, i) < kept_before(walk, j),
{
    let head = walk.take(i + 1);
    let rest = walk.subrange(i + 1, j);
    assert(walk.take(j) =~= head + rest);
    Seq::filter_distributes_over_add(head, rest, not_a_merge());
    assert(head.drop_last() =~= walk.take(i));
    assert(without_merges(head) == without_merges(walk.take(i)).push(walk[i])) by {
        reveal(Seq::filter);
    }
}

/// What the first `k` sources ask for is the beginning of what all of them
/// ask for.
proof fn lemma_run_actions_prefix(
    start: Timestamp,
    watermark: Timestamp,
    sources: Seq<SourceHistoryView>,
    k: int,
)
    requires
        0 <= k <= sources.len(),
    ensures
        run_actions(start, watermark, sources.take(k)).is_prefix_of(
            run_actions(start, watermark, sources),
        ),
    decreases sources.len() - k,
{
    if k == sources.len() {
        assert(sources.take(k) =~= sources);
    } else {
        lemma_run_actions_prefix(start, watermark, sources.drop_last(), k);
        assert(sources.drop_last().take(k) =~= sources.take(k));
    }
}

/// The position, among the actions of a run, of the façade commit for the
/// commit at index `i` of the walk of the source at index `k`.
pub open spec fn run_write_position(
    start: Timestamp,
    watermark: Timestamp,
    sources: Seq<SourceHistoryView>,
    k: int,
    i: int,
) -> int {
    run_actions(start, watermark, sources.take(k)).len() + write_position(
        start,
        run_watermark(start, watermark, sources.take(k)),
        message_for(sources[k].name),
        without_merges(sources[k].walk),
        kept_before(sources[k].walk, i),
    )
}

/// A commit that a run replicates: one of the walk of a source, no merge
/// commit, and due.
pub open spec fn is_replicated(
    start: Timestamp,
    sources: Seq<SourceHistoryView>,
    k: int,
    i: int,
) -> bool {
    &&& 0 <= k < sources.len()
    &&& 0 <= i < sources[k].walk.len()
    &&& !sources[k].walk[i].is_merge()
    &&& is_due(start, sources[k].walk[i])
}

proof fn lemma_run_write(
    start: Timestamp,
    watermark: Timestamp,
    sources: Seq<SourceHistoryView>,
    k: int,
    i: int,
)
    requires
        is_replicated(start, sources, k, i),
    ensures
        run_actions(start, watermark, sources.take(k)).len() <= run_write_position(
            start,
            watermark,
            sources,
            k,
            i,
        ) < run_actions(start, watermark, sources.take(k + 1)).len(),
        run_actions(start, watermark, sources.take(k + 1)).len() <= run_actions(
            start,
            watermark,
            sources,
        ).len(),
        run_actions(start, watermark, sources)[run_write_position(
            start,
            watermark,
            sources,
            k,
            i,
        )] == written(message_for(sources[k].name), sources[k].walk[i]),
{
    let walk = sources[k].walk;
    let kept = without_merges(walk);
    let message = message_for(sources[k].name);
    let upto = sources.take(k + 1);
    let earlier = run_actions(start, watermark, sources.take(k));
    let reached = run_watermark(start, watermark, sources.take(k));
    let batch = source_actions(start, reached, message, kept);
    let m = kept_before(walk, i);
    let at = run_write_position(start, watermark, sources, k, i);
    lemma_kept_commit(walk, i);
    lemma_source_write(start, reached, message, kept, m);
    assert(upto.drop_last() =~= sources.take(k));
    assert(upto.last() == sources[k]);
    lemma_run_actions_prefix(start, watermark, sources, k + 1);
    let head = run_actions(start, watermark, upto);
    let all = run_actions(start, watermark, sources);
    assert(head[at] == batch[at - earlier.len()]);
    assert(all.subrange(0, head.len() as int)[at] == all[at]);
}

/// Every commit that is no merge commit and is due is replicated: the run
/// writes a façade commit for it, under the message of its source.
pub proof fn law_due_commits_are_replicated(
    start: Timestamp,
    watermark: Timestamp,
    sources: Seq<SourceHistoryView>,
    k: int,
    i: int,
)
    requires
        is_replicated(start, sources, k, i),
    ensures
        run_actions(start, watermark, sources).contains(
            written(message_for(sources[k].name), sources[k].walk[i]),
        ),
{
    lemma_run_write(start, watermark, sources, k, i);
}

/// Two commits of one source that carry the same time, neither of them a
/// merge commit, are both replicated in a run in which that time is due,
/// the one that was enumerated first before the other. Whether the first
/// moved the watermark plays no part.
pub proof fn law_equal_times_are_both_replicated(
    start: Timestamp,
    watermark: Timestamp,
    sources: Seq<SourceHistoryView>,
    k: int,
    i: int,
    j: int,
)
    requires
        0 <= k < sources.len(),
        0 <= i < j < sources[k].walk.len(),
        !sources[k].walk[i].is_merge(),
        !sources[k].walk[j].is_merge(),
        sources[k].walk[i].time() == sources[k].walk[j].time(),
        is_due(start, sources[k].walk[i]),
    ensures
        exists|p: int, q: int|
            0 <= p < q < run_actions(start, watermark, sources).len() && #[trigger] run_actions(
                start,
                watermark,
                sources,
            )[p] == written(message_for(sources[k].name), sources[k].walk[i])
                && #[trigger] run_actions(start, watermark, sources)[q] == written(
                message_for(sources[k].name),
                sources[k].walk[j],
            ),
{
    let walk = sources[k].walk;
    let p = run_write_position(start, watermark, sources, k, i);
    let q = run_write_position(start, watermark, sources, k, j);
    lemma_run_write(start, watermark, sources, k, i);
    lemma_run_write(start, watermark, sources, k, j);
    lemma_kept_commit(walk, i);
    lemma_kept_commit(walk, j);
    lemma_kept_order(walk, i, j);
    lemma_source_write_order(
        start,
        run_watermark(start, watermark, sources.take(k)),
        message_for(sources[k].name),
        without_merges(walk),
        kept_before(walk, i),
        kept_before(walk, j),
    );
}

/// Replication follows the configured order of the sources, not the times
/// of the commits: whatever a source asks for is written before anything
/// that a source configured after it asks for.
pub proof fn law_sources_are_replicated_in_configured_order(
    start: Timestamp,
    watermark: Timestamp,
    sources: Seq<SourceHistoryView>,
    a: int,
    i: int,
    b: int,
    j: int,
)
    requires
        a < b,
        is_replicated(start, sources, a, i),
        is_replicated(start, sources, b, j),
    ensures
        exists|p: int, q: int|
            0 <= p < q < run_actions(start, watermark, sources).len() && #[trigger] run_actions(
                start,
                watermark,
                sources,
            )[p] == written(message_for(sources[a].name), sources[a].walk[i])
                && #[trigger] run_actions(start, watermark, sources)[q] == written(
                message_for(sources[b].name),
                sources[b].walk[j],
            ),
{
    let p = run_write_position(start, watermark, sources, a, i);
    let q = run_write_position(start, watermark, sources, b, j);
    lemma_run_write(start, watermark, sources, a, i);
    lemma_run_write(start, watermark, sources, b, j);
    lemma_run_actions_prefix(start, watermark, sources.take(b), a + 1);
    assert(sources.take(b).take(a + 1) =~= sources.take(a + 1));
}

/// Every façade commit of a run stands for a commit of one of the sources
/// that is due and is no merge commit, under the message of that source.
pub proof fn law_merge_commits_are_never_replicated(
    start: Timestamp,
    watermark: Timestamp,
    sources: Seq<SourceHistoryView>,
    p: int,
)
    requires
        0 <= p < run_actions(start, watermark, sources).len(),
        run_actions(start, watermark, sources)[p] is WriteCommit,
    ensures
        !run_actions(start, watermark, sources)[p]->commit.is_merge(),
        is_due(start, run_actions(start, watermark, sources)[p]->commit),
        exists|k: int|
            0 <= k < sources.len() && (#[trigger] sources[k]).walk.contains(
                run_actions(start, watermark, sources)[p]->commit,
            ) && run_actions(start, watermark, sources)[p]->message == message_for(
                sources[k].name,
            ),
    decreases sources.len(),
{
    let earlier = run_actions(start, watermark, sources.drop_last());
    if p < earlier.len() {
        law_merge_commits_are_never_replicated(start, watermark, sources.drop_last(), p);
        let k = choose|k: int|
            0 <= k < sources.drop_last().len() && (#[trigger] sources.drop_last()[k]).walk.contains(
                earlier[p]->commit,
            ) && earlier[p]->message == message_for(sources.drop_last()[k].name);
    } else {
        let k = sources.len() - 1;
        let kept = without_merges(sources[k].walk);
        let message = message_for(sources[k].name);
        let reached = run_watermark(start, watermark, sources.drop_last());
        let batch = source_actions(start, reached, message, kept);
        let action = batch[p - earlier.len()];
        lemma_source_actions_origin(start, reached, message, kept, p - earlier.len());
        let i = choose|i: int|
            0 <= i < kept.len() && is_due(start, #[trigger] kept[i]) && (action == written(
                message,
                kept[i],
            ) || action == ActionView::PersistWatermark(kept[i].time()));
        sources[k].walk.lemma_filter_pred(not_a_merge(), i);
        sources[k].walk.lemma_filter_contains_rev(not_a_merge(), kept[i]);
    }
}

/// No action of `actions` persists a watermark.
pub open spec fn persists_nothing(actions: Seq<ActionView>) -> bool {
    forall|p: int| 0 <= p < actions.len() ==> (#[trigger] actions[p]) is WriteCommit
}

proof fn lemma_persisted_unchanged(persisted: Option<Timestamp>, actions: Seq<ActionView>)
    requires
        persists_nothing(actions),
    ensures
        persisted_after(persisted, actions) == persisted,
    decreases actions.len(),
{
    if actions.len() > 0 {
        assert forall|p: int| 0 <= p < actions.drop_last().len() implies (
        #[trigger] actions.drop_last()[p]) is WriteCommit by {
            assert(actions.drop_last()[p] == actions[p]);
        }
        lemma_persisted_unchanged(persisted, actions.drop_last());
    }
}

/// Where no commit of a source is later than the watermark, the source
/// leaves the watermark alone.
proof fn lemma_calm_source(
    start: Timestamp,
    watermark: Timestamp,
    message: Seq<char>,
    commits: Seq<SourceCommitView>,
)
    requires
        none_later(commits, watermark),
    ensures
        watermark_after(start, watermark, commits) == watermark,
        persists_nothing(source_actions(start, watermark, message, commits)),
        forall|p: int|
            0 <= p < source_actions(start, watermark, message, commits).len() ==> is_due(
                start,
                (#[trigger] source_actions(start, watermark, message, commits)[p])->commit,
            ),
    decreases commits.len(),
{
    if commits.len() > 0 {
        assert forall|i: int| 0 <= i < commits.drop_last().len() implies (
        #[trigger] commits.drop_last()[i]).time().at_most(watermark) by {
            assert(commits.drop_last()[i] == commits[i]);
        }
        lemma_calm_source(start, watermark, message, commits.drop_last());
    }
}

/// Where no commit of a source is due, the source asks for nothing.
proof fn lemma_idle_source(
    start: Timestamp,
    watermark: Timestamp,
    message: Seq<char>,
    commits: Seq<SourceCommitView>,
)
    requires
        forall|i: int| 0 <= i < commits.len() ==> !is_due(start, #[trigger] commits[i]),
    ensures
        watermark_after(start, watermark, commits) == watermark,
        source_actions(start, watermark, message, commits) == Seq::<ActionView>::empty(),
    decreases commits.len(),
{
    if commits.len() > 0 {
        assert forall|i: int| 0 <= i < commits.drop_last().len() implies !is_due(
            start,
            #[trigger] commits.drop_last()[i],
        ) by {
            assert(commits.drop_last()[i] == commits[i]);
        }
        lemma_idle_source(start, watermark, message, commits.drop_last());
    }
}

/// No commit that the sources offer for replication is later than `bound`.
pub open spec fn nothing_later(sources: Seq<SourceHistoryView>, bound: Timestamp) -> bool {
    forall|k: int|
        0 <= k < sources.len() ==> none_later(without_merges((#[trigger] sources[k]).walk), bound)
}

/// A run that starts at its watermark ends with a watermark that no commit
/// offered for replication is later than.
pub proof fn law_watermark_covers_run(start: Timestamp, sources: Seq<SourceHistoryView>)
    ensures
        nothing_later(sources, run_watermark(start, start, sources)),
    decreases sources.len(),
{
    let end = run_watermark(start, start, sources);
    if sources.len() > 0 {
        let before = run_watermark(start, start, sources.drop_last());
        law_watermark_covers_run(start, sources.drop_last());
        law_watermark_never_recedes(start, start, sources.drop_last());
        law_watermark_covers_source(start, before, without_merges(sources.last().walk));
        assert forall|k: int| 0 <= k < sources.len() implies none_later(
            without_merges((#[trigger] sources[k]).walk),
            end,
        ) by {
            let kept = without_merges(sources[k].walk);
            if k < sources.len() - 1 {
                assert(sources.drop_last()[k] == sources[k]);
                assert forall|i: int| 0 <= i < kept.len() implies (#[trigger] kept[i]).time().at_most(
                    end,
                ) by {
                    assert(kept[i].time().at_most(before));
                }
            } else {
                assert forall|i: int| 0 <= i < kept.len() implies (#[trigger] kept[i]).time().at_most(
                    end,
                ) by {
                    if !is_due(start, kept[i]) {
                        assert(kept[i].time().precedes(start));
                    }
                }
            }
        }
    }
}

proof fn lemma_calm_run(start: Timestamp, watermark: Timestamp, sources: Seq<SourceHistoryView>)
    requires
        nothing_later(sources, watermark),
    ensures
        run_watermark(start, watermark, sources) == watermark,
        persists_nothing(run_actions(start, watermark, sources)),
        forall|p: int|
            0 <= p < run_actions(start, watermark, sources).len() ==> is_due(
                start,
                (#[trigger] run_actions(start, watermark, sources)[p])->commit,
            ),
    decreases sources.len(),
{
    if sources.len() > 0 {
        assert forall|k: int| 0 <= k < sources.drop_last().len() implies none_later(
            without_merges((#[trigger] sources.drop_last()[k]).walk),
            watermark,
        ) by {
            assert(sources.drop_last()[k] == sources[k]);
        }
        lemma_calm_run(start, watermark, sources.drop_last());
        lemma_calm_source(
            start,
            watermark,
            message_for(sources.last().name),
            without_merges(sources.last().walk),
        );
    }
}

proof fn lemma_idle_run(start: Timestamp, watermark: Timestamp, sources: Seq<SourceHistoryView>)
    requires
        forall|k: int, i: int|
            0 <= k < sources.len() && 0 <= i < sources[k].walk.len() && !(
            #[trigger] sources[k].walk[i]).is_merge() ==> !is_due(start, sources[k].walk[i]),
    ensures
        run_watermark(start, watermark, sources) == watermark,
        run_actions(start, watermark, sources) == Seq::<ActionView>::empty(),
    decreases sources.len(),
{
    if sources.len() > 0 {
        assert forall|k: int, i: int|
            0 <= k < sources.drop_last().len() && 0 <= i < sources.drop_last()[k].walk.len() && !(
            #[trigger] sources.drop_last()[k].walk[i]).is_merge() implies !is_due(
            start,
            sources.drop_last()[k].walk[i],
        ) by {
            assert(sources.drop_last()[k] == sources[k]);
        }
        lemma_idle_run(start, watermark, sources.drop_last());
        let last = sources.len() - 1;
        let walk = sources[last].walk;
        let kept = without_merges(walk);
        assert forall|i: int| 0 <= i < kept.len() implies !is_due(start, #[trigger] kept[i]) by {
            walk.lemma_filter_pred(not_a_merge(), i);
            walk.lemma_filter_contains_rev(not_a_merge(), kept[i]);
            let j = choose|j: int| 0 <= j < walk.len() && walk[j] == kept[i];
        }
        lemma_idle_source(start, watermark, message_for(sources[last].name), kept);
    }
}

/// A second run over sources that did not change leaves the watermark that
/// the façade holds as the first run left it. It persists nothing, and
/// what it replicates once more are commits that carry exactly the time of
/// that watermark.
pub proof fn law_rerun_keeps_watermark(
    persisted: Option<Timestamp>,
    sources: Seq<SourceHistoryView>,
)
    ensures
        persisted_after_run(persisted_after_run(persisted, sources), sources)
            == persisted_after_run(persisted, sources),
        ({
            let reached = starting_point(persisted_after_run(persisted, sources));
            let again = run_actions(reached, reached, sources);
            forall|p: int|
                0 <= p < again.len() ==> (#[trigger] again[p]) is WriteCommit
                    && again[p]->commit.time() == reached
        }),
{
    let start = starting_point(persisted);
    let held = persisted_after_run(persisted, sources);
    let reached = starting_point(held);
    let again = run_actions(reached, reached, sources);
    law_next_run_resumes(persisted, sources);
    law_watermark_covers_run(start, sources);
    lemma_calm_run(reached, reached, sources);
    lemma_persisted_unchanged(held, again);
    assert forall|p: int| 0 <= p < again.len() implies (#[trigger] again[p]) is WriteCommit
        && again[p]->commit.time() == reached by {
        law_merge_commits_are_never_replicated(reached, reached, sources, p);
        let c = again[p]->commit;
        let k = choose|k: int|
            0 <= k < sources.len() && (#[trigger] sources[k]).walk.contains(c) && again[p]->message
                == message_for(sources[k].name);
        let walk = sources[k].walk;
        let i = choose|i: int| 0 <= i < walk.len() && walk[i] == c;
        lemma_kept_commit(walk, i);
    }
}

/// A second run over sources that did not change does nothing at all,
/// provided that no commit offered for replication carries exactly the time
/// of the watermark that the first run left: it asks for no façade commit
/// and leaves the watermark as it is.
pub proof fn law_rerun_replicates_nothing(
    persisted: Option<Timestamp>,
    sources: Seq<SourceHistoryView>,
)
    requires
        forall|k: int, i: int|
            0 <= k < sources.len() && 0 <= i < sources[k].walk.len() && !(
            #[trigger] sources[k].walk[i]).is_merge() ==> sources[k].walk[i].time()
                != starting_point(persisted_after_run(persisted, sources)),
    ensures
        ({
            let reached = starting_point(persisted_after_run(persisted, sources));
            run_actions(reached, reached, sources) == Seq::<ActionView>::empty()
        }),
        persisted_after_run(persisted_after_run(persisted, sources), sources)
            == persisted_after_run(persisted, sources),
{
    let start = starting_point(persisted);
    let reached = starting_point(persisted_after_run(persisted, sources));
    law_next_run_resumes(persisted, sources);
    law_watermark_covers_run(start, sources);
    law_rerun_keeps_watermark(persisted, sources);
    assert forall|k: int, i: int|
        0 <= k < sources.len() && 0 <= i < sources[k].walk.len() && !(
        #[trigger] sources[k].walk[i]).is_merge() implies !is_due(reached, sources[k].walk[i]) by {
        let walk = sources[k].walk;
        lemma_kept_commit(walk, i);
    }
    lemma_idle_run(reached, reached, sources);
}

/// The watermark that the façade holds is kept ahead of its commits: every
/// watermark that is persisted is later than the one held before, and a
/// façade commit is written only while the façade holds a watermark at or
/// after the time of the commit it stands for.
pub open spec fn keeps_watermark_ahead(persisted: Option<Timestamp>, actions: Seq<ActionView>) -> bool {
    forall|q: int|
        0 <= q < actions.len() ==> match #[trigger] actions[q] {
            ActionView::PersistWatermark(w) => starting_point(
                persisted_after(persisted, actions.take(q)),
            ).precedes(w),
            ActionView::WriteCommit { commit, .. } => commit.time().at_most(
                starting_point(persisted_after(persisted, actions.take(q))),
            ),
        }
}

proof fn lemma_ahead_concat(
    persisted: Option<Timestamp>,
    first: Seq<ActionView>,
    second: Seq<ActionView>,
)
    requires
        keeps_watermark_ahead(persisted, first),
        keeps_watermark_ahead(persisted_after(persisted, first), second),
    ensures
        keeps_watermark_ahead(persisted, first + second),
{
    let all = first + second;
    assert forall|q: int| 0 <= q < all.len() implies match #[trigger] all[q] {
        ActionView::PersistWatermark(w) => starting_point(
            persisted_after(persisted, all.take(q)),
        ).precedes(w),
        ActionView::WriteCommit { commit, .. } => commit.time().at_most(
            starting_point(persisted_after(persisted, all.take(q))),
        ),
    } by {
        if q < first.len() {
            assert(all.take(q) =~= first.take(q));
        } else {
            let r = q - first.len();
            assert(all.take(q) =~= first + second.take(r));
            lemma_persisted_after_concat(persisted, first, second.take(r));
        }
    }
}

proof fn lemma_ahead_commit(
    persisted: Option<Timestamp>,
    start: Timestamp,
    message: Seq<char>,
    commit: SourceCommitView,
)
    ensures
        keeps_watermark_ahead(
            persisted,
            commit_actions(start, starting_point(persisted), message, commit),
        ),
{
    let actions = commit_actions(start, starting_point(persisted), message, commit);
    assert forall|q: int| 0 <= q < actions.len() implies match #[trigger] actions[q] {
        ActionView::PersistWatermark(w) => starting_point(
            persisted_after(persisted, actions.take(q)),
        ).precedes(w),
        ActionView::WriteCommit { commit, .. } => commit.time().at_most(
            starting_point(persisted_after(persisted, actions.take(q))),
        ),
    } by {
        if q == 0 {
            assert(actions.take(0) =~= Seq::<ActionView>::empty());
        } else {
            reveal_with_fuel(persisted_after, 2);
        }
    }
}

proof fn lemma_ahead_source(
    persisted: Option<Timestamp>,
    start: Timestamp,
    message: Seq<char>,
    commits: Seq<SourceCommitView>,
)
    ensures
        keeps_watermark_ahead(
            persisted,
            source_actions(start, starting_point(persisted), message, commits),
        ),
    decreases commits.len(),
{
    if commits.len() > 0 {
        let earlier = source_actions(start, starting_point(persisted), message, commits.drop_last());
        let held = persisted_after(persisted, earlier);
        lemma_ahead_source(persisted, start, message, commits.drop_last());
        lemma_persisted_after_source(persisted, start, message, commits.drop_last());
        lemma_ahead_commit(held, start, message, commits.last());
        lemma_ahead_concat(
            persisted,
            earlier,
            commit_actions(start, starting_point(held), message, commits.last()),
        );
    }
}

proof fn lemma_ahead_sources(
    persisted: Option<Timestamp>,
    start: Timestamp,
    sources: Seq<SourceHistoryView>,
)
    ensures
        keeps_watermark_ahead(persisted, run_actions(start, starting_point(persisted), sources)),
    decreases sources.len(),
{
    if sources.len() > 0 {
        let earlier = run_actions(start, starting_point(persisted), sources.drop_last());
        let held = persisted_after(persisted, earlier);
        let message = message_for(sources.last().name);
        let commits = without_merges(sources.last().walk);
        lemma_ahead_sources(persisted, start, sources.drop_last());
        lemma_persisted_after_sources(persisted, start, sources.drop_last());
        lemma_ahead_source(held, start, message, commits);
        lemma_ahead_concat(
            persisted,
            earlier,
            source_actions(start, starting_point(held), message, commits),
        );
    }
}

/// A run persists the watermark before the commit: at every step of a run
/// the façade holds a watermark that is at or after the time of the commit
/// being written, and each watermark written is later than the one before.
pub proof fn law_watermark_is_persisted_first(
    persisted: Option<Timestamp>,
    sources: Seq<SourceHistoryView>,
)
    ensures
        keeps_watermark_ahead(
            persisted,
            run_actions(starting_point(persisted), starting_point(persisted), sources),
        ),
{
    lemma_ahead_sources(persisted, starting_point(persisted), sources);
}

proof fn lemma_prefix_is_consistent(
    persisted: Option<Timestamp>,
    actions: Seq<ActionView>,
    n: int,
)
    requires
        keeps_watermark_ahead(persisted, actions),
        0 <= n <= actions.len(),
    ensures
        not_after(persisted, persisted_after(persisted, actions.take(n))),
        forall|q: int|
            0 <= q < n && (#[trigger] actions[q]) is WriteCommit ==> actions[q]->commit.time().at_most(
                starting_point(persisted_after(persisted, actions.take(n))),
            ),
    decreases n,
{
    if n == 0 {
        assert(actions.take(0) =~= Seq::<ActionView>::empty());
    } else {
        lemma_prefix_is_consistent(persisted, actions, n - 1);
        assert(actions.take(n).drop_last() =~= actions.take(n - 1));
    }
}

/// Wherever a run is interrupted, the façade is left consistent: the
/// watermark it holds is not lower than before the run, and it is at or
/// after the time of every commit that the run has written. A later run,
/// which replicates nothing older than that watermark, writes no commit of
/// an earlier time a second time.
pub proof fn law_interrupted_run_is_consistent(
    persisted: Option<Timestamp>,
    sources: Seq<SourceHistoryView>,
    n: int,
)
    requires
        0 <= n <= run_actions(starting_point(persisted), starting_point(persisted), sources).len(),
    ensures
        ({
            let actions = run_actions(starting_point(persisted), starting_point(persisted), sources);
            let held = persisted_after(persisted, actions.take(n));
            &&& not_after(persisted, held)
            &&& forall|q: int|
                0 <= q < n && (#[trigger] actions[q]) is WriteCommit
                    ==> actions[q]->commit.time().at_most(starting_point(held))
        }),
{
    law_watermark_is_persisted_first(persisted, sources);
    lemma_prefix_is_consistent(
        persisted,
        run_actions(starting_point(persisted), starting_point(persisted), sources),
        n,
    );
}

} // verus!
