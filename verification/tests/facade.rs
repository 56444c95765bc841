use gitfacade::commit::{copy_bytes, non_merge_commits, Signature, SourceCommit};
use gitfacade::facade::{facade_commit, facade_message, payload_file};
use gitfacade::timestamp::Timestamp;

fn facade_test_commit(id: u8, name: &str, email: &str, seconds: i64, offset: i32, parents: usize) -> SourceCommit {
    SourceCommit {
        id: vec![id; 20],
        author: Signature {
            name: name.as_bytes().to_vec(),
            email: email.as_bytes().to_vec(),
            when: Timestamp::new(seconds, offset),
        },
        parents,
    }
}

#[test]
fn payload_file_has_its_fixed_name() {
    assert_eq!(payload_file(), "scratch-file.bin");
}

#[test]
fn message_names_the_source() {
    assert_eq!(facade_message("alpha"), "Façade commit: alpha");
    assert_eq!(facade_message(""), "Façade commit: ");
    assert_eq!(facade_message("my repo/é"), "Façade commit: my repo/é");
}

#[test]
fn payload_is_the_raw_identifier() {
    let mut source = facade_test_commit(0, "Ada", "ada@example.org", 100, 60, 1);
    source.id = vec![0x00, 0xff, 0x0a, 0x20, 0x7f];
    let commit = facade_commit("m", &source, None);
    assert_eq!(commit.payload, vec![0x00, 0xff, 0x0a, 0x20, 0x7f]);
}

#[test]
fn authorship_is_the_source_authors() {
    let source = facade_test_commit(7, "Ada Lovelace", "ada@example.org", 1608839587, -300, 1);
    let commit = facade_commit("Façade commit: alpha", &source, Some(vec![9; 20]));
    assert_eq!(commit.author.name, b"Ada Lovelace".to_vec());
    assert_eq!(commit.author.email, b"ada@example.org".to_vec());
    assert_eq!(commit.author.when, Timestamp::new(1608839587, -300));
    assert_eq!(commit.author, source.author);
    assert_eq!(commit.committer, source.author);
}

#[test]
fn authorship_keeps_bytes_that_are_no_text() {
    let mut source = facade_test_commit(7, "x", "y", 5, 0, 0);
    source.author.name = vec![0xff, 0xfe, 0x41];
    source.author.email = vec![0x80];
    let commit = facade_commit("m", &source, None);
    assert_eq!(commit.author.name, vec![0xff, 0xfe, 0x41]);
    assert_eq!(commit.author.email, vec![0x80]);
    assert_eq!(commit.committer.name, vec![0xff, 0xfe, 0x41]);
}

#[test]
fn first_commit_is_a_root() {
    let source = facade_test_commit(1, "a", "b", 5, 0, 0);
    let commit = facade_commit("m", &source, None);
    assert_eq!(commit.parent, None);
}

#[test]
fn later_commits_follow_the_head() {
    let source = facade_test_commit(1, "a", "b", 5, 0, 0);
    let commit = facade_commit("m", &source, Some(vec![3; 20]));
    assert_eq!(commit.parent, Some(vec![3; 20]));
}

#[test]
fn commit_carries_the_message_it_was_given() {
    let source = facade_test_commit(1, "a", "b", 5, 0, 0);
    let commit = facade_commit("Façade commit: beta", &source, None);
    assert_eq!(commit.message, "Façade commit: beta");
}

#[test]
fn copy_bytes_copies() {
    assert_eq!(copy_bytes(&vec![1, 2, 3]), vec![1, 2, 3]);
    assert_eq!(copy_bytes(&Vec::new()), Vec::<u8>::new());
}

#[test]
fn merge_commits_are_left_out_of_the_enumeration() {
    let walk = vec![
        facade_test_commit(1, "a", "b", 30, 0, 1),
        facade_test_commit(2, "a", "b", 20, 0, 2),
        facade_test_commit(3, "a", "b", 10, 0, 1),
        facade_test_commit(4, "a", "b", 5, 0, 3),
        facade_test_commit(5, "a", "b", 1, 0, 0),
    ];
    let kept = non_merge_commits(&walk);
    assert_eq!(kept.len(), 3);
    assert_eq!(kept[0], walk[0]);
    assert_eq!(kept[1], walk[2]);
    assert_eq!(kept[2], walk[4]);
}

#[test]
fn enumeration_of_nothing_is_nothing() {
    assert_eq!(non_merge_commits(&Vec::new()), Vec::new());
}

#[test]
fn a_commit_knows_whether_it_is_a_merge() {
    assert!(!facade_test_commit(1, "a", "b", 1, 0, 0).is_merge());
    assert!(!facade_test_commit(1, "a", "b", 1, 0, 1).is_merge());
    assert!(facade_test_commit(1, "a", "b", 1, 0, 2).is_merge());
    assert_eq!(facade_test_commit(1, "a", "b", 42, 7, 0).time(), Timestamp::new(42, 7));
}
