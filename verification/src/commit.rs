//! Source commits as the replication reads them, and the selection of the
//! commits that are eligible for it.

use crate::timestamp::Timestamp;
use vstd::prelude::*;

verus! {

/// The identity under which a commit was made: name and e-mail address as
/// the bytes the repository holds, and the time of the action.
#[derive(Debug, PartialEq, Eq)]
pub struct Signature {
    pub name: Vec<u8>,
    pub email: Vec<u8>,
    pub when: Timestamp,
}

/// A signature as contracts speak of it.
pub struct SignatureView {
    pub name: Seq<u8>,
    pub email: Seq<u8>,
    pub when: Timestamp,
}

impl View for Signature {
    type V = SignatureView;

    open spec fn view(&self) -> SignatureView {
        SignatureView { name: self.name@, email: self.email@, when: self.when }
    }
}

impl Clone for Signature {
    fn clone(&self) -> (r: Signature)
        ensures
            r@ == self@,
    {
        Signature { name: copy_bytes(&self.name), email: copy_bytes(&self.email), when: self.when }
    }
}

/// A commit of a source repository: its identifier as raw bytes, its
/// author, and the number of its parents.
#[derive(Debug, PartialEq, Eq)]
pub struct SourceCommit {
    pub id: Vec<u8>,
    pub author: Signature,
    pub parents: usize,
}

/// A source commit as contracts speak of it.
pub struct SourceCommitView {
    pub id: Seq<u8>,
    pub author: SignatureView,
    pub parents: nat,
}

impl SourceCommitView {
    /// A merge commit has more than one parent.
    pub open spec fn is_merge(self) -> bool {
        self.parents > 1
    }

    /// The time by which a commit is measured against the watermark: the
    /// time of its authorship.
    pub open spec fn time(self) -> Timestamp {
        self.author.when
    }
}

impl View for SourceCommit {
    type V = SourceCommitView;

    open spec fn view(&self) -> SourceCommitView {
        SourceCommitView { id: self.id@, author: self.author@, parents: self.parents as nat }
    }
}

impl Clone for SourceCommit {
    fn clone(&self) -> (r: SourceCommit)
        ensures
            r@ == self@,
    {
        SourceCommit { id: copy_bytes(&self.id), author: self.author.clone(), parents: self.parents }
    }
}

impl SourceCommit {
    pub fn is_merge(&self) -> (r: bool)
        ensures
            r == self@.is_merge(),
    {
        self.parents > 1
    }

    pub fn time(&self) -> (t: Timestamp)
        ensures
            t == self@.time(),
    {
        self.author.when
    }
}

/// The views of a sequence of commits, in the same order.
pub open spec fn commit_views(commits: Seq<SourceCommit>) -> Seq<SourceCommitView> {
    commits.map_values(|c: SourceCommit| c@)
}

/// The test that a commit passes when it is no merge commit.
pub open spec fn not_a_merge() -> spec_fn(SourceCommitView) -> bool {
    |c: SourceCommitView| !c.is_merge()
}

/// The commits of a walk that are no merge commits, in the order of the walk.
pub open spec fn without_merges(walk: Seq<SourceCommitView>) -> Seq<SourceCommitView> {
    walk.filter(not_a_merge())
}

/// Selects from a walk of a repository's history the commits that are
/// eligible for replication: those with at most one parent.
pub fn non_merge_commits(walk: &Vec<SourceCommit>) -> (kept: Vec<SourceCommit>)
    ensures
        commit_views(kept@) == without_merges(commit_views(walk@)),
{
    let ghost all = commit_views(walk@);
    let mut kept: Vec<SourceCommit> = Vec::new();
    let mut i: usize = 0;
    while i < walk.len()
        invariant
            i <= walk.len(),
            all == commit_views(walk@),
            commit_views(kept@) == without_merges(all.take(i as int)),
        decreases walk.len() - i,
    {
        proof {
            reveal(Seq::filter);
            assert(all.take(i + 1).drop_last() =~= all.take(i as int));
        }
        let ghost before = commit_views(kept@);
        if !walk[i].is_merge() {
            kept.push(walk[i].clone());
            assert(commit_views(kept@) =~= before.push(walk@[i as int]@));
        }
        i += 1;
    }
    proof {
        reveal(Seq::filter);
        assert(all.take(walk.len() as int) =~= all);
    }
    kept
}

/// A copy of a byte vector.
pub fn copy_bytes(bytes: &Vec<u8>) -> (r: Vec<u8>)
    ensures
        r@ == bytes@,
{
    let mut r: Vec<u8> = Vec::with_capacity(bytes.len());
    let mut i: usize = 0;
    while i < bytes.len()
        invariant
            i <= bytes.len(),
            r@ == bytes@.take(i as int),
        decreases bytes.len() - i,
    {
        r.push(bytes[i]);
        i += 1;
    }
    r
}

} // verus!
