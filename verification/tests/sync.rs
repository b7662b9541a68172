use dottor::config::{Deploy, DeployTarget};
use dottor::deploy::{deploy_paths, effective_require_empty, resolve_target_path, select_target,
    Platform};
use dottor::diff::{diff_lines, DiffTag};
use dottor::exclude::ExclusionSet;
use dottor::io_checks::{check_dir_null_or_empty, IOError};
use dottor::pull::{action_for, classify, pull_plan, FileEntry, PullAction, ReconciliationEntry, PullState};

fn exclusion(patterns: Vec<&str>, reserved: Vec<&str>) -> ExclusionSet {
    let sources: Vec<Vec<String>> = vec![patterns.into_iter().map(str::to_owned).collect()];
    let reserved: Vec<String> = reserved.into_iter().map(str::to_owned).collect();
    ExclusionSet::build(&sources, &reserved).expect("patterns should compile")
}

fn entry(path: &str, content: &str) -> FileEntry {
    FileEntry { path: path.to_owned(), content: content.as_bytes().to_vec() }
}

/// Applies a forced pull plan to the repository listing, the way the
/// filesystem layer does: approved additions and modifications copy the
/// target's file, approved removals delete the repository's.
fn apply_plan(
    repo: &mut Vec<FileEntry>,
    target: &[FileEntry],
    plan: &[ReconciliationEntry],
    approved: bool,
) {
    for step in plan {
        match action_for(step.state, approved) {
            PullAction::CopyToRepo => {
                let from = target.iter().find(|e| e.path == step.relative_path).expect("source exists");
                match repo.iter_mut().find(|e| e.path == step.relative_path) {
                    Some(existing) => existing.content = from.content.clone(),
                    None => repo.push(FileEntry {
                        path: step.relative_path.clone(),
                        content: from.content.clone(),
                    }),
                }
            },
            PullAction::DeleteFromRepo => {
                repo.retain(|e| e.path != step.relative_path);
            },
            PullAction::Nothing => {},
        }
    }
}

#[test]
fn select_target_follows_the_platform() {
    let mut deploy = Deploy::default();
    deploy.windows.target = "C:/dotfiles".to_owned();
    deploy.linux.target = "~/dotfiles".to_owned();
    assert_eq!(select_target(&deploy, &Platform::Windows).unwrap().target, "C:/dotfiles");
    assert_eq!(select_target(&deploy, &Platform::Linux).unwrap().target, "~/dotfiles");
    let e = select_target(&deploy, &Platform::Other("plan9".to_owned())).unwrap_err();
    assert_eq!(e.message(), "Operating system 'plan9' is not supported.");
}

#[test]
fn empty_target_policy_prefers_the_override() {
    let mut deploy = Deploy::default();
    deploy.target_require_empty = true;
    let mut target = DeployTarget::default();
    target.target_require_empty = None;
    assert!(effective_require_empty(&deploy, &target));
    target.target_require_empty = Some(false);
    assert!(!effective_require_empty(&deploy, &target));
    deploy.target_require_empty = false;
    target.target_require_empty = Some(true);
    assert!(effective_require_empty(&deploy, &target));
    target.target_require_empty = None;
    assert!(!effective_require_empty(&deploy, &target));
}

#[test]
fn target_path_without_tilde_is_kept() {
    let mut target = DeployTarget::default();
    target.target = "/opt/dotfiles".to_owned();
    assert_eq!(resolve_target_path(&target), "/opt/dotfiles");
}

#[test]
fn deploy_copies_only_non_excluded_files() {
    let excl = exclusion(vec!["*.log"], vec!["dotconfig.toml"]);
    let files: Vec<String> =
        ["vimrc", "build.log", "dotconfig.toml", "colors/dark.vim"].map(str::to_owned).into();
    let kept = deploy_paths(&files, &excl);
    assert_eq!(kept, vec!["vimrc".to_owned(), "colors/dark.vim".to_owned()]);
}

#[test]
fn deploying_twice_is_idempotent() {
    // the same source deployed onto the result of the first deploy
    // changes nothing: simulate the copies on an in-memory tree
    let excl = exclusion(vec!["*.log"], vec!["dotconfig.toml"]);
    let source = vec![entry("vimrc", "set nu\n"), entry("build.log", "junk"), entry(
        "colors/dark.vim",
        "hi Normal\n",
    )];
    let paths: Vec<String> = source.iter().map(|e| e.path.clone()).collect();
    let plan = deploy_paths(&paths, &excl);
    let mut tree: Vec<FileEntry> = vec![entry("keep.txt", "untouched")];
    let copy_once = |tree: &mut Vec<FileEntry>| {
        for path in &plan {
            let from = source.iter().find(|e| &e.path == path).unwrap();
            match tree.iter_mut().find(|e| &e.path == path) {
                Some(existing) => existing.content = from.content.clone(),
                None => tree.push(FileEntry { path: path.clone(), content: from.content.clone() }),
            }
        }
    };
    copy_once(&mut tree);
    let after_first: Vec<(String, Vec<u8>)> =
        tree.iter().map(|e| (e.path.clone(), e.content.clone())).collect();
    copy_once(&mut tree);
    let after_second: Vec<(String, Vec<u8>)> =
        tree.iter().map(|e| (e.path.clone(), e.content.clone())).collect();
    assert_eq!(after_first, after_second);
}

#[test]
fn occupied_target_violates_the_empty_policy() {
    // scenario: the target directory already holds a file and the policy
    // demands an empty target: the deploy fails before any copy
    let deploy = Deploy::default();
    let target = DeployTarget::default();
    assert!(effective_require_empty(&deploy, &target));
    let r = check_dir_null_or_empty(true, true, "/home/user/.config/app");
    match r {
        Err(IOError::DirectoryNotEmpty(dir)) => assert_eq!(dir, "/home/user/.config/app"),
        other => panic!("expected the directory-not-empty error, got {:?}", other),
    }
    // an absent or empty target passes
    assert!(check_dir_null_or_empty(false, false, "x").is_ok());
    assert!(check_dir_null_or_empty(true, false, "x").is_ok());
}

#[test]
fn classification_is_exhaustive_and_exclusive() {
    assert_eq!(classify(true, false, false), PullState::Added);
    assert_eq!(classify(true, false, true), PullState::Added);
    assert_eq!(classify(true, true, true), PullState::Unchanged);
    assert_eq!(classify(true, true, false), PullState::Modified);
    assert_eq!(classify(false, true, false), PullState::Removed);
    assert_eq!(classify(false, true, true), PullState::Removed);
}

#[test]
fn plan_assigns_each_path_exactly_one_state() {
    let excl = exclusion(vec![], vec!["dotconfig.toml"]);
    let target = vec![entry("same.txt", "one\n"), entry("changed.txt", "new\n"), entry(
        "fresh.txt",
        "hello\n",
    )];
    let repo = vec![entry("same.txt", "one\n"), entry("changed.txt", "old\n"), entry(
        "gone.txt",
        "bye\n",
    ), entry("dotconfig.toml", "[config]\n")];
    let plan =
        pull_plan(&target, &repo, &excl, &"dotconfig.toml".to_owned()).expect("plan should build");
    let states: Vec<(&str, PullState)> =
        plan.iter().map(|e| (e.relative_path.as_str(), e.state)).collect();
    assert_eq!(states, vec![
        ("same.txt", PullState::Unchanged),
        ("changed.txt", PullState::Modified),
        ("fresh.txt", PullState::Added),
        ("gone.txt", PullState::Removed),
    ]);
    // each path appears exactly once
    for (path, _) in &states {
        assert_eq!(states.iter().filter(|(p, _)| p == path).count(), 1);
    }
}

#[test]
fn descriptor_is_never_pulled_over() {
    // the descriptor is protected even when the excludes fail to cover it
    let excl = exclusion(vec![], vec![]);
    let target = vec![entry("dotconfig.toml", "tampered")];
    let repo = vec![entry("dotconfig.toml", "original")];
    let r = pull_plan(&target, &repo, &excl, &"dotconfig.toml".to_owned());
    assert!(r.is_err());
    assert_eq!(
        r.unwrap_err().message(),
        "Trying to overwrite dotconfig.toml configuration file. Please add 'dotconfig.toml' to your excludes in the target configuration."
    );
    // with the descriptor excluded, as the engines always arrange, the
    // plan succeeds and never mentions it
    let excl = exclusion(vec![], vec!["dotconfig.toml"]);
    let plan = pull_plan(&target, &repo, &excl, &"dotconfig.toml".to_owned()).unwrap();
    assert!(plan.iter().all(|e| e.relative_path != "dotconfig.toml"));
}

#[test]
fn pull_adds_a_new_target_file() {
    // scenario: the deployed tree has a.txt, the repository does not
    let excl = exclusion(vec![], vec!["dotconfig.toml"]);
    let target = vec![entry("a.txt", "hello\n")];
    let mut repo: Vec<FileEntry> = vec![];
    let plan = pull_plan(&target, &repo, &excl, &"dotconfig.toml".to_owned()).unwrap();
    assert_eq!(plan.len(), 1);
    assert_eq!(plan[0].relative_path, "a.txt");
    assert_eq!(plan[0].state, PullState::Added);
    apply_plan(&mut repo, &target, &plan, true);
    assert_eq!(repo.len(), 1);
    assert_eq!(repo[0].path, "a.txt");
    assert_eq!(repo[0].content, b"hello\n");
}

#[test]
fn pull_overwrites_a_modified_file_after_confirmation() {
    // scenario: both sides hold a.txt with different contents
    let excl = exclusion(vec![], vec!["dotconfig.toml"]);
    let target = vec![entry("a.txt", "v2\n")];
    let mut repo = vec![entry("a.txt", "v1\n")];
    let plan = pull_plan(&target, &repo, &excl, &"dotconfig.toml".to_owned()).unwrap();
    assert_eq!(plan.len(), 1);
    assert_eq!(plan[0].state, PullState::Modified);
    // the presented diff: one deleted line "v1", one inserted line "v2"
    let changes = diff_lines("v1\n", "v2\n");
    let shown: Vec<(DiffTag, &str)> =
        changes.iter().map(|c| (c.tag, c.text.as_str())).collect();
    assert_eq!(shown, vec![(DiffTag::Delete, "v1\n"), (DiffTag::Insert, "v2\n")]);
    assert_eq!((changes[0].old_index, changes[0].new_index), (Some(0), None));
    assert_eq!((changes[1].old_index, changes[1].new_index), (None, Some(0)));
    // confirming applies the target's content
    apply_plan(&mut repo, &target, &plan, true);
    assert_eq!(repo[0].content, b"v2\n");
    // declining leaves the repository alone
    let mut untouched = vec![entry("a.txt", "v1\n")];
    apply_plan(&mut untouched, &target, &plan, false);
    assert_eq!(untouched[0].content, b"v1\n");
}

#[test]
fn pull_removes_a_file_gone_from_the_target() {
    // scenario: the repository holds b.txt, the deployed tree does not
    let excl = exclusion(vec![], vec!["dotconfig.toml"]);
    let target: Vec<FileEntry> = vec![];
    let mut repo = vec![entry("b.txt", "data\n")];
    let plan = pull_plan(&target, &repo, &excl, &"dotconfig.toml".to_owned()).unwrap();
    assert_eq!(plan.len(), 1);
    assert_eq!(plan[0].relative_path, "b.txt");
    assert_eq!(plan[0].state, PullState::Removed);
    apply_plan(&mut repo, &target, &plan, true);
    assert!(repo.is_empty());
}

#[test]
fn excluded_paths_stay_out_of_the_plan() {
    let excl = exclusion(vec!["*.log"], vec!["dotconfig.toml"]);
    let target = vec![entry("run.log", "t")];
    let repo = vec![entry("old.log", "r")];
    let plan = pull_plan(&target, &repo, &excl, &"dotconfig.toml".to_owned()).unwrap();
    assert!(plan.is_empty());
}

#[test]
fn actions_follow_state_and_approval() {
    assert_eq!(action_for(PullState::Added, true), PullAction::CopyToRepo);
    assert_eq!(action_for(PullState::Modified, true), PullAction::CopyToRepo);
    assert_eq!(action_for(PullState::Removed, true), PullAction::DeleteFromRepo);
    assert_eq!(action_for(PullState::Unchanged, true), PullAction::Nothing);
    assert_eq!(action_for(PullState::Added, false), PullAction::Nothing);
    assert_eq!(action_for(PullState::Modified, false), PullAction::Nothing);
    assert_eq!(action_for(PullState::Removed, false), PullAction::Nothing);
}

#[test]
fn diff_sides_rebuild_both_texts() {
    let old = "a\nb\nc\n";
    let new = "a\nx\nc\ntail";
    let changes = diff_lines(old, new);
    let old_side: String = changes
        .iter()
        .filter(|c| c.tag != DiffTag::Insert)
        .map(|c| c.text.as_str())
        .collect();
    let new_side: String = changes
        .iter()
        .filter(|c| c.tag != DiffTag::Delete)
        .map(|c| c.text.as_str())
        .collect();
    assert_eq!(old_side, old);
    assert_eq!(new_side, new);
    // each change is numbered by its position on the side it belongs to
    let (mut next_old, mut next_new) = (0, 0);
    for c in &changes {
        if c.tag != DiffTag::Insert {
            assert_eq!(c.old_index, Some(next_old));
            next_old += 1;
        } else {
            assert_eq!(c.old_index, None);
        }
        if c.tag != DiffTag::Delete {
            assert_eq!(c.new_index, Some(next_new));
            next_new += 1;
        } else {
            assert_eq!(c.new_index, None);
        }
    }
}

#[test]
fn target_path_with_tilde_is_expanded() {
    let mut target = DeployTarget::default();
    target.target = "~/dotfiles/sub".to_owned();
    let resolved = resolve_target_path(&target);
    assert!(resolved.ends_with("/dotfiles/sub"));
    assert!(!resolved.starts_with('~'));
}
