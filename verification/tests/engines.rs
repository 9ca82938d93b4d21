use portable_git::bytes::to_hex;
use portable_git::progress::Usage;
use portable_git::commit::{self, CommitOutcome};
use portable_git::errors::VcsError;
use portable_git::ls_tree;
use portable_git::objects::{EntryMode, ObjectData, Signature, TreeEntry};
use portable_git::oid::ObjectId;
use portable_git::repo::{get_current_branch, is_initial_commit, Repository};
use portable_git::reset::{self, ResetMode, ResetOutcome};
use portable_git::show;
use portable_git::staging;
use portable_git::status::{status, ChangeItem};

fn author() -> Signature {
    Signature { name: b"Ada".to_vec(), email: b"ada@example.com".to_vec(), time: 1234567890 }
}

fn fresh_repo() -> Repository {
    Repository::init(b"/repo/".to_vec(), b"main".to_vec(), author())
}

fn put_file(repo: &mut Repository, path: &str, data: &[u8]) {
    let existing = repo
        .worktree
        .files
        .iter()
        .position(|f| f.path == path.as_bytes());
    match existing {
        Some(i) => repo.worktree.files[i].data = data.to_vec(),
        None => repo.worktree.files.push(portable_git::worktree::WorktreeFile {
            path: path.as_bytes().to_vec(),
            data: data.to_vec(),
            mode: EntryMode::Blob,
            mtime_secs: 7,
        }),
    }
}

fn hex(id: &ObjectId) -> String {
    String::from_utf8(to_hex(&id.bytes)).unwrap()
}

fn head_commit(repo: &Repository) -> portable_git::objects::CommitData {
    let head = repo.refs.head_target.as_ref().expect("HEAD born");
    match repo.store.find(head) {
        Some(ObjectData::Commit(c)) => c.clone(),
        _ => panic!("HEAD does not name a commit"),
    }
}

#[test]
fn empty_commit_is_root_with_canonical_empty_tree() {
    let mut repo = fresh_repo();
    let out = commit::run(&mut repo, Some(b"first".to_vec()), false, true).unwrap();
    match out {
        CommitOutcome::Committed { root, id, .. } => {
            assert!(root);
            let c = head_commit(&repo);
            assert_eq!(c.parents.len(), 0, "a root commit has no parents");
            assert_eq!(
                hex(&c.tree),
                "4b825dc642cb6eb9a060e54bf8d69288fbee4904",
                "the canonical empty-tree id"
            );
            assert_eq!(hex(&id).len(), 40);
        }
        other => panic!("expected a commit, got {:?}", other),
    }
}

#[test]
fn empty_blob_has_canonical_id() {
    let mut repo = fresh_repo();
    let id = repo.store.write_object(ObjectData::Blob(Vec::new())).unwrap();
    assert_eq!(hex(&id), "e69de29bb2d1d6434b8b29ae775ad8c2e48c5391");
}

#[test]
fn add_and_commit_single_file() {
    let mut repo = fresh_repo();
    put_file(&mut repo, "file.txt", b"hi");

    let added = staging::add_pathspec_files(&mut repo, &vec![b"file.txt".to_vec()]).unwrap();
    assert_eq!(added.added, 1);
    assert_eq!(added.unmatched.len(), 0);
    assert_eq!(repo.index.len(), 1);

    let out = commit::run(&mut repo, Some(b"first".to_vec()), false, false).unwrap();
    let (root, title) = match out {
        CommitOutcome::Committed { root, title, .. } => (root, title),
        other => panic!("expected a commit, got {:?}", other),
    };
    assert!(root);
    assert_eq!(title, b"first".to_vec());

    let c = head_commit(&repo);
    assert_eq!(c.parents.len(), 0);
    let tree = match repo.store.find(&c.tree) {
        Some(ObjectData::Tree(es)) => es.clone(),
        _ => panic!("commit tree missing"),
    };
    assert_eq!(tree.len(), 1);
    assert_eq!(tree[0].name, b"file.txt".to_vec());
    let blob_id = repo.store.write_object(ObjectData::Blob(b"hi".to_vec())).unwrap();
    assert!(tree[0].id.eq_id(&blob_id), "the entry carries the blob id of its content");

    // An unchanged second add stages nothing new; the second commit is refused.
    let again = staging::add_pathspec_files(&mut repo, &vec![b"file.txt".to_vec()]).unwrap();
    assert_eq!(again.added, 0, "staging the same unchanged file again changes nothing");
    assert!(!repo.index.changed);
    let head_before = hex(repo.refs.head_target.as_ref().unwrap());
    let second = commit::run(&mut repo, Some(b"second".to_vec()), false, false).unwrap();
    match second {
        CommitOutcome::NothingToCommit { initial, .. } => assert!(!initial),
        other => panic!("expected nothing to commit, got {:?}", other),
    }
    assert_eq!(hex(repo.refs.head_target.as_ref().unwrap()), head_before);
}

#[test]
fn nested_directories_become_subtrees() {
    let mut repo = fresh_repo();
    put_file(&mut repo, "dir/a.txt", b"alpha");
    put_file(&mut repo, "dir/b.txt", b"beta");
    put_file(&mut repo, "top.txt", b"gamma");
    let report = staging::add_pathspec_files(
        &mut repo,
        &vec![b"dir".to_vec(), b"top.txt".to_vec()],
    )
    .unwrap();
    assert_eq!(report.added, 3);

    commit::run(&mut repo, Some(b"tree".to_vec()), false, false).unwrap();
    let c = head_commit(&repo);
    let top = match repo.store.find(&c.tree) {
        Some(ObjectData::Tree(es)) => es.clone(),
        _ => panic!("commit tree missing"),
    };
    assert_eq!(top.len(), 2);
    assert_eq!(top[0].name, b"dir".to_vec());
    assert_eq!(top[0].mode, EntryMode::Tree);
    assert_eq!(top[1].name, b"top.txt".to_vec());
    let sub = match repo.store.find(&top[0].id) {
        Some(ObjectData::Tree(es)) => es.clone(),
        _ => panic!("subtree missing"),
    };
    assert_eq!(sub.len(), 2);
    assert_eq!(sub[0].name, b"a.txt".to_vec());
    assert_eq!(sub[1].name, b"b.txt".to_vec());
}

#[test]
fn status_classifies_untracked_and_modified() {
    let mut repo = fresh_repo();
    put_file(&mut repo, "a.txt", b"one");
    let items = status(&repo).unwrap();
    assert_eq!(items.len(), 1);
    assert!(matches!(&items[0], ChangeItem::DirectoryContents { rela_path } if rela_path == b"a.txt"));

    staging::add_pathspec_files(&mut repo, &vec![b"a.txt".to_vec()]).unwrap();
    assert_eq!(status(&repo).unwrap().len(), 0, "a staged unchanged file reports nothing");

    put_file(&mut repo, "a.txt", b"two");
    let items = status(&repo).unwrap();
    assert_eq!(items.len(), 1);
    assert!(matches!(&items[0], ChangeItem::Modification { rela_path } if rela_path == b"a.txt"));

    let n = staging::add_modified_files_to_index(&mut repo).unwrap();
    assert_eq!(n, 1);
    assert_eq!(status(&repo).unwrap().len(), 0);
}

#[test]
fn reset_modes_are_monotonic() {
    let mut repo = fresh_repo();
    put_file(&mut repo, "a.txt", b"one");
    staging::add_pathspec_files(&mut repo, &vec![b"a.txt".to_vec()]).unwrap();
    let first = commit::run(&mut repo, Some(b"one".to_vec()), false, false).unwrap();
    let first_id = match first {
        CommitOutcome::Committed { id, .. } => id,
        other => panic!("expected a commit, got {:?}", other),
    };

    put_file(&mut repo, "a.txt", b"one changed");
    put_file(&mut repo, "b.txt", b"two");
    staging::add_all_files(&mut repo).unwrap();
    commit::run(&mut repo, Some(b"two".to_vec()), false, false).unwrap();
    assert_eq!(repo.index.len(), 2);
    let index_before = repo.index.entries.clone();
    let worktree_before: Vec<Vec<u8>> =
        repo.worktree.files.iter().map(|f| f.path.clone()).collect();

    // Soft: only HEAD moves.
    let out = reset::run(&mut repo, ResetMode::Soft, Some(hex(&first_id).into_bytes())).unwrap();
    match out {
        ResetOutcome::Done { id, summary, .. } => {
            assert!(id.eq_id(&first_id));
            assert_eq!(summary, b"one".to_vec());
        }
        other => panic!("expected a reset, got {:?}", other),
    }
    assert!(repo.refs.head_target.as_ref().unwrap().eq_id(&first_id));
    assert_eq!(repo.index.len(), index_before.len());
    let worktree_after: Vec<Vec<u8>> =
        repo.worktree.files.iter().map(|f| f.path.clone()).collect();
    assert_eq!(worktree_after, worktree_before, "soft reset leaves the working tree");

    // Mixed: the index now matches the target tree, the working tree stays.
    reset::run(&mut repo, ResetMode::Hard, Some(b"HEAD".to_vec())).unwrap();
    put_file(&mut repo, "c.txt", b"three");
    staging::add_all_files(&mut repo).unwrap();
    let out = reset::run(&mut repo, ResetMode::Mixed, Some(hex(&first_id).into_bytes())).unwrap();
    assert!(matches!(out, ResetOutcome::Done { .. }));
    assert_eq!(repo.index.len(), 1);
    assert_eq!(repo.index.entries[0].path, b"a.txt".to_vec());
    assert!(repo.worktree.find_file(b"c.txt").is_some(), "mixed reset leaves the working tree");

    // Hard: the working tree matches the target tree exactly, extras pruned.
    let out = reset::run(&mut repo, ResetMode::Hard, Some(hex(&first_id).into_bytes())).unwrap();
    assert!(matches!(out, ResetOutcome::Done { .. }));
    assert_eq!(repo.worktree.files.len(), 1);
    assert_eq!(repo.worktree.files[0].path, b"a.txt".to_vec());
    assert_eq!(repo.worktree.files[0].data, b"one".to_vec());
    assert!(repo.worktree.find_file(b"b.txt").is_none(), "files absent in the target are pruned");
}

#[test]
fn reset_reports_unknown_revision_without_changes() {
    let mut repo = fresh_repo();
    put_file(&mut repo, "a.txt", b"one");
    staging::add_pathspec_files(&mut repo, &vec![b"a.txt".to_vec()]).unwrap();
    commit::run(&mut repo, Some(b"one".to_vec()), false, false).unwrap();
    let head_before = hex(repo.refs.head_target.as_ref().unwrap());
    let out = reset::run(
        &mut repo,
        ResetMode::Hard,
        Some(b"0000000000000000000000000000000000000000".to_vec()),
    )
    .unwrap();
    assert!(matches!(out, ResetOutcome::NotFound { .. }));
    assert_eq!(hex(repo.refs.head_target.as_ref().unwrap()), head_before);
}

#[test]
fn reset_on_unborn_head_reports_no_reference() {
    let mut repo = fresh_repo();
    let blob = repo.store.write_object(ObjectData::Blob(b"x".to_vec())).unwrap();
    let out = reset::run(&mut repo, ResetMode::Soft, Some(hex(&blob).into_bytes())).unwrap();
    assert!(matches!(out, ResetOutcome::NoHead));
}

#[test]
fn ls_tree_counts_every_kind_and_sums_bytes() {
    let mut repo = fresh_repo();
    let b1 = repo.store.write_object(ObjectData::Blob(b"x".to_vec())).unwrap();
    let b2 = repo.store.write_object(ObjectData::Blob(b"yy".to_vec())).unwrap();
    let b3 = repo.store.write_object(ObjectData::Blob(b"zzz".to_vec())).unwrap();
    let link = repo.store.write_object(ObjectData::Blob(b"target".to_vec())).unwrap();
    let sub = repo
        .store
        .write_object(ObjectData::Tree(vec![TreeEntry {
            mode: EntryMode::Blob,
            name: b"inner".to_vec(),
            id: b3,
        }]))
        .unwrap();
    let top = repo
        .store
        .write_object(ObjectData::Tree(vec![
            TreeEntry { mode: EntryMode::Blob, name: b"a".to_vec(), id: b1 },
            TreeEntry { mode: EntryMode::BlobExecutable, name: b"run".to_vec(), id: b2 },
            TreeEntry { mode: EntryMode::Link, name: b"sym".to_vec(), id: link },
            TreeEntry { mode: EntryMode::Tree, name: b"dir".to_vec(), id: sub },
        ]))
        .unwrap();

    let (lines, stats) =
        ls_tree::entries(&repo, Some(hex(&top).into_bytes()), true, true).unwrap();
    assert_eq!(stats.num_blobs, 2, "one top-level blob and one nested blob");
    assert_eq!(stats.num_blobs_exec, 1);
    assert_eq!(stats.num_links, 1);
    assert_eq!(stats.num_trees, 1);
    assert_eq!(stats.num_submodules, 0);
    assert_eq!(stats.num_bytes, 1 + 2 + 3 + 6, "the byte total of every resolved object");
    assert_eq!(lines.len(), 5);
    let first = String::from_utf8(lines[0].clone()).unwrap();
    assert!(first.starts_with("100644 Blob "));
    assert!(first.ends_with("\ta (1)"));
    let nested = String::from_utf8(lines[4].clone()).unwrap();
    assert!(nested.ends_with("\tdir/inner (3)"), "nested entries print their full path");

    let (flat, flat_stats) =
        ls_tree::entries(&repo, Some(hex(&top).into_bytes()), false, false).unwrap();
    assert_eq!(flat.len(), 4, "an unexpanded listing shows the stored top level");
    assert_eq!(flat_stats.num_blobs, 0);
}

#[test]
fn display_object_renders_each_kind() {
    let mut repo = fresh_repo();
    put_file(&mut repo, "a.txt", b"payload");
    staging::add_pathspec_files(&mut repo, &vec![b"a.txt".to_vec()]).unwrap();
    commit::run(&mut repo, Some(b"subject\n\nbody".to_vec()), false, false).unwrap();

    let lines = show::cat(&repo, b"HEAD").unwrap();
    let first = String::from_utf8(lines[0].clone()).unwrap();
    assert!(first.starts_with("commit "));
    let author_line = String::from_utf8(lines[1].clone()).unwrap();
    assert_eq!(author_line, "Author: Ada <ada@example.com>");
    assert_eq!(lines[4], b"subject\n\nbody".to_vec());

    let c = head_commit(&repo);
    let blob_lines = show::display_object(&repo, &c.tree).unwrap();
    assert_eq!(blob_lines.len(), 1, "a tree shows one line per entry");

    let missing = show::cat(&repo, b"not-a-rev");
    assert_eq!(missing.unwrap_err(), VcsError::AmbiguousRevision);
}

#[test]
fn structural_errors_surface_as_store_failures() {
    let mut repo = fresh_repo();
    // Point HEAD at an id the store does not hold.
    let bogus = ObjectId::new(vec![0xab; 20]);
    repo.refs.set_target(&bogus, b"test setup");
    assert_eq!(commit::has_staged_changes(&repo).unwrap_err(), VcsError::StoreFailure);
    assert_eq!(
        ls_tree::treeish_to_tree(None, &repo).unwrap_err(),
        VcsError::StoreFailure
    );
}

#[test]
fn missing_head_is_a_missing_reference() {
    let repo = fresh_repo();
    assert_eq!(ls_tree::treeish_to_tree(None, &repo).unwrap_err(), VcsError::MissingReference);
}

#[test]
fn current_branch_and_initial_state() {
    let mut repo = fresh_repo();
    assert!(is_initial_commit(&repo));
    assert_eq!(get_current_branch(&repo), b"master".to_vec());
    repo.default_branch = Some(b"trunk".to_vec());
    assert_eq!(get_current_branch(&repo), b"trunk".to_vec());
    commit::run(&mut repo, Some(b"first".to_vec()), false, true).unwrap();
    assert!(!is_initial_commit(&repo));
    assert_eq!(get_current_branch(&repo), b"main".to_vec());
    assert_eq!(repo.refs.last_reason, b"commit (initial): first".to_vec());
}

#[test]
fn commit_without_message_is_refused() {
    let mut repo = fresh_repo();
    let out = commit::run(&mut repo, None, false, true).unwrap();
    assert!(matches!(out, CommitOutcome::NoMessage));
    assert!(repo.refs.head_target.is_none());
}

#[test]
fn pathspec_matching_nothing_is_reported() {
    let mut repo = fresh_repo();
    put_file(&mut repo, "a.txt", b"one");
    let report = staging::add_pathspec_files(
        &mut repo,
        &vec![b"missing.txt".to_vec(), b"a.txt".to_vec()],
    )
    .unwrap();
    assert_eq!(report.added, 1);
    assert_eq!(report.unmatched, vec![b"missing.txt".to_vec()]);
}

#[test]
fn metadata_paths_are_never_staged() {
    let mut repo = fresh_repo();
    put_file(&mut repo, ".git/config", b"secret");
    put_file(&mut repo, ".gitignore", b"target");
    let report = staging::add_pathspec_files(
        &mut repo,
        &vec![b".git/config".to_vec(), b".gitignore".to_vec()],
    )
    .unwrap();
    assert_eq!(report.added, 1, "the metadata directory is rejected, dotfiles are not");
    assert_eq!(repo.index.len(), 1);
    assert_eq!(repo.index.entries[0].path, b".gitignore".to_vec());
}

#[test]
fn traverse_path_stack_push_and_pop() {
    let mut t = ls_tree::Traverse::new(false);
    t.push_element(b"dir");
    t.push_element(b"file");
    assert_eq!(t.path, b"dir/file".to_vec());
    t.pop_element();
    assert_eq!(t.path, b"dir".to_vec());
    t.pop_element();
    assert_eq!(t.path, b"".to_vec());
    t.push_back_tracked_path_component(b"a");
    t.push_back_tracked_path_component(b"b");
    t.pop_front_tracked_path_and_set_current();
    assert_eq!(t.path, b"a".to_vec());
    t.pop_back_tracked_path_and_set_current();
    assert_eq!(t.path, b"a/b".to_vec());
}

#[test]
fn usage_icons() {
    assert_eq!(Usage::Puzzled.icon(), "\u{2753}");
    assert_eq!(Usage::NotApplicable(b"n".to_vec()).icon(), "\u{274c}");
    assert_eq!(Usage::Planned(b"".to_vec()).icon(), "\u{1f552}");
    assert_eq!(Usage::NotPlanned(b"".to_vec()).icon(), "\u{1f914}");
    assert_eq!(Usage::InUse(b"".to_vec()).icon(), "\u{2705}");
    assert_eq!(Usage::InUse(b"dev".to_vec()).icon(), "\u{1f44c}\u{fe0f}");
}

#[test]
fn describe_options_default() {
    let opts = portable_git::describe::Options::default();
    assert_eq!(opts.max_candidates, 10);
    assert!(!opts.all_tags && !opts.all_refs && !opts.always && !opts.long_format);
    assert!(opts.dirty_suffix.is_none());
}

#[test]
fn short_ids_are_seven_hex_digits() {
    let id = ObjectId::new((0u8..20).collect());
    let short = id.to_hex_with_len(7);
    assert_eq!(short, b"0001020".to_vec());
    assert_eq!(String::from_utf8(to_hex(&id.bytes)).unwrap().len(), 40);
}

#[test]
fn add_with_nothing_specified_adds_nothing() {
    let mut repo = fresh_repo();
    put_file(&mut repo, "a.txt", b"one");
    let out = staging::run(&mut repo, Vec::new(), false, false).unwrap();
    assert!(matches!(out, staging::AddOutcome::NothingSpecified));
    assert_eq!(repo.index.len(), 0);
}

#[test]
fn add_run_update_only_stages_tracked_files() {
    let mut repo = fresh_repo();
    put_file(&mut repo, "a.txt", b"one");
    let out = staging::run(&mut repo, vec![b"a.txt".to_vec()], false, false).unwrap();
    assert!(matches!(out, staging::AddOutcome::Added { count: 1, .. }));
    put_file(&mut repo, "a.txt", b"changed");
    put_file(&mut repo, "new.txt", b"untracked");
    let out = staging::run(&mut repo, Vec::new(), false, true).unwrap();
    assert!(matches!(out, staging::AddOutcome::Added { count: 1, .. }));
    assert_eq!(repo.index.len(), 1, "update mode skips untracked files");
    let out = staging::run(&mut repo, Vec::new(), true, false).unwrap();
    assert!(matches!(out, staging::AddOutcome::Added { count: 1, .. }));
    assert_eq!(repo.index.len(), 2, "all-files mode stages untracked files too");
}

#[test]
fn reset_helpers_rebuild_index_and_worktree() {
    let mut repo = fresh_repo();
    put_file(&mut repo, "a.txt", b"one");
    staging::add_pathspec_files(&mut repo, &vec![b"a.txt".to_vec()]).unwrap();
    commit::run(&mut repo, Some(b"one".to_vec()), false, false).unwrap();
    let tree = head_commit(&repo).tree;

    put_file(&mut repo, "b.txt", b"extra");
    staging::add_all_files(&mut repo).unwrap();
    assert_eq!(repo.index.len(), 2);

    reset::reset_index(&mut repo, &tree).unwrap();
    assert_eq!(repo.index.len(), 1);
    assert_eq!(repo.index.entries[0].path, b"a.txt".to_vec());
    assert!(!repo.index.changed);

    reset::reset_worktree(&mut repo, &tree).unwrap();
    assert_eq!(repo.worktree.files.len(), 1);
    assert_eq!(repo.worktree.files[0].data, b"one".to_vec());

    let missing = ObjectId::new(vec![0x11; 20]);
    assert_eq!(reset::reset_index(&mut repo, &missing).unwrap_err(), VcsError::StoreFailure);
    assert_eq!(reset::reset_worktree(&mut repo, &missing).unwrap_err(), VcsError::StoreFailure);
}
