//! Tests of the git import helpers and the listing options.

use scmstore::gitimport::{
    repo_name, stored_tag_name, DirectUploader, GitimportPreferences, ReuploadCommits,
};
use scmstore::list::ListCmd;
use scmstore::gitimport::{ChangesetId, GitimportAccumulator, ObjectId};

#[test]
fn stored_tag_name_strips_refs_prefix() {
    assert_eq!(stored_tag_name(String::from("refs/tags/v1.0")), "tags/v1.0");
    assert_eq!(stored_tag_name(String::from("refs/")), "");
    assert_eq!(stored_tag_name(String::from("tags/v1.0")), "tags/v1.0");
    assert_eq!(stored_tag_name(String::from("ref")), "ref");
    assert_eq!(stored_tag_name(String::from("")), "");
}

#[test]
fn repo_name_prefers_explicit_name() {
    let prefs = GitimportPreferences { gitrepo_name: Some(String::from("chosen")) };
    assert_eq!(repo_name(&prefs, "/data/repos/x/.git"), "chosen");
}

#[test]
fn repo_name_drops_final_git_component() {
    let prefs = GitimportPreferences::new();
    assert_eq!(repo_name(&prefs, "/data/repos/x/.git"), "/data/repos/x");
    assert_eq!(repo_name(&prefs, "/data/repos/x"), "/data/repos/x");
    // a name merely ending in ".git" is not the ".git" component
    assert_eq!(repo_name(&prefs, "/data/repos/x.git"), "/data/repos/x.git");
    assert_eq!(repo_name(&prefs, ".git"), "");
}

#[test]
fn reupload_commits_gate() {
    assert!(!ReuploadCommits::Never.reupload_commit());
    assert!(ReuploadCommits::Always.reupload_commit());
}

#[test]
fn direct_uploader_keeps_policy_and_repo() {
    let uploader = DirectUploader::new(String::from("the repo"), ReuploadCommits::Always);
    assert_eq!(uploader.reupload_commits, ReuploadCommits::Always);
    assert_eq!(*uploader.inner, "the repo");
}

#[test]
fn list_cmd_records_format() {
    assert!(ListCmd::new(true).json);
    assert!(!ListCmd::new(false).json);
}

fn oid(b: u8) -> ObjectId {
    ObjectId::from_byte_vec(vec![b; 20])
}

fn csid(b: u8) -> ChangesetId {
    ChangesetId::from_byte_vec(vec![b; 32])
}

#[test]
fn accumulator_keeps_insertion_order_and_replaces() {
    let mut acc = GitimportAccumulator::new();
    assert!(acc.is_empty());
    acc.insert(oid(1), csid(10));
    acc.insert(oid(2), csid(20));
    assert_eq!(acc.len(), 2);
    assert!(!acc.is_empty());
    // re-inserting keeps the position and replaces the changeset
    acc.insert(oid(1), csid(11));
    assert_eq!(acc.len(), 2);
    assert_eq!(acc.get(&oid(1)), Some(csid(11)));
    assert_eq!(acc.get(&oid(2)), Some(csid(20)));
    assert_eq!(acc.get(&oid(3)), None);
}
