//! The placeholder commits of the façade repository.
//!
//! Each replicated source commit becomes one façade commit. Its tree holds a
//! single file with the raw bytes of the source commit's identifier, its
//! message names the source, and it is made under the source commit's author.

use crate::commit::{copy_bytes, Signature, SignatureView, SourceCommit, SourceCommitView};
use vstd::prelude::*;
use vstd::string::StringExecFns;

verus! {

/// The name, inside the façade's working tree, of the file that holds the
/// identifier of the source commit replicated last.
pub fn payload_file() -> (name: &'static str)
    ensures
        name@ == "scratch-file.bin"@,
{
    "scratch-file.bin"
}

/// The message of a façade commit made for the source called `name`.
pub open spec fn message_for(name: Seq<char>) -> Seq<char> {
    "Façade commit: "@ + name
}

/// Writes the message of a façade commit made for the source called `name`.
pub fn facade_message(name: &str) -> (message: String)
    ensures
        message@ == message_for(name@),
{
    let mut message = String::from_str("Façade commit: ");
    message.append(name);
    message
}

/// A commit to be made in the façade repository.
#[derive(Debug, PartialEq, Eq)]
pub struct FacadeCommit {
    /// The content of the payload file in the commit's tree.
    pub payload: Vec<u8>,
    pub message: String,
    pub author: Signature,
    pub committer: Signature,
    /// The commit's only parent, or `None` for a root commit.
    pub parent: Option<Vec<u8>>,
}

/// A façade commit as contracts speak of it.
pub struct FacadeCommitView {
    pub payload: Seq<u8>,
    pub message: Seq<char>,
    pub author: SignatureView,
    pub committer: SignatureView,
    pub parent: Option<Seq<u8>>,
}

impl View for FacadeCommit {
    type V = FacadeCommitView;

    open spec fn view(&self) -> FacadeCommitView {
        FacadeCommitView {
            payload: self.payload@,
            message: self.message@,
            author: self.author@,
            committer: self.committer@,
            parent: identifier_view(self.parent),
        }
    }
}

/// The bytes of an identifier that may be absent.
pub open spec fn identifier_view(id: Option<Vec<u8>>) -> Option<Seq<u8>> {
    match id {
        Some(bytes) => Some(bytes@),
        None => None,
    }
}

/// The façade commit that stands for `source`: the payload is the source
/// commit's identifier, author and committer are both the source commit's
/// author, and the parent is the façade's current head, if it has one.
pub open spec fn placeholder(
    message: Seq<char>,
    source: SourceCommitView,
    head: Option<Seq<u8>>,
) -> FacadeCommitView {
    FacadeCommitView {
        payload: source.id,
        message,
        author: source.author,
        committer: source.author,
        parent: head,
    }
}

/// Builds the façade commit for `source` on top of `head`, the façade's
/// current head commit (`None` while the façade has no commit).
pub fn facade_commit(
    message: &str,
    source: &SourceCommit,
    head: Option<Vec<u8>>,
) -> (commit: FacadeCommit)
    ensures
        commit@ == placeholder(message@, source@, identifier_view(head)),
        commit@.author == source@.author,
        commit@.committer == source@.author,
        commit@.payload == source@.id,
{
    FacadeCommit {
        payload: copy_bytes(&source.id),
        message: String::from_str(message),
        author: source.author.clone(),
        committer: source.author.clone(),
        parent: head,
    }
}

} // verus!
