//! The pull engine's decisions: classifying every relative path seen on
//! the deployed target tree or in the repository's copy, planning the
//! reconciliation, and guarding the config descriptor.
//!
//! The caller enumerates both trees into [`FileEntry`] listings; the plan
//! computed here classifies each path as unchanged, added, modified or
//! removed, and the caller performs the confirmed filesystem actions.

use vstd::prelude::*;

use crate::err::Error;
use crate::exclude::{spec_excluded, ExclusionSet};

verus! {

/// A file of one tree: its path relative to the tree's root (with `/`
/// separators) and its content.
#[derive(Debug, Clone)]
pub struct FileEntry {
    pub path: String,
    pub content: Vec<u8>,
}

/// Whether a listing names each path once, as a tree enumeration does.
pub open spec fn files_unique(files: Seq<FileEntry>) -> bool {
    forall|i: int, j: int|
        0 <= i < j < files.len() ==> #[trigger] files[i].path@ != #[trigger] files[j].path@
}

/// Whether the listing holds a file at this path.
pub open spec fn files_contain(files: Seq<FileEntry>, p: Seq<char>) -> bool {
    exists|i: int| 0 <= i < files.len() && #[trigger] files[i].path@ == p
}

/// The content the listing holds at this path (meaningful when a unique
/// listing contains the path).
pub open spec fn content_at(files: Seq<FileEntry>, p: Seq<char>) -> Seq<u8> {
    files[choose|i: int| 0 <= i < files.len() && #[trigger] files[i].path@ == p].content@
}

proof fn lemma_content_at(files: Seq<FileEntry>, i: int)
    requires
        files_unique(files),
        0 <= i < files.len(),
    ensures
        content_at(files, files[i].path@) == files[i].content@,
{
    let p = files[i].path@;
    assert(files_contain(files, p));
    let j = choose|j: int| 0 <= j < files.len() && #[trigger] files[j].path@ == p;
    assert(j == i);
}

/// Compares two byte strings.
fn bytes_eq(a: &Vec<u8>, b: &Vec<u8>) -> (r: bool)
    ensures
        r == (a@ == b@),
{
    if a.len() != b.len() {
        return false;
    }
    let mut i: usize = 0;
    while i < a.len()
        invariant
            a@.len() == b@.len(),
            i <= a@.len(),
            forall|j: int| 0 <= j < i ==> a@[j] == b@[j],
        decreases a@.len() - i,
    {
        if a[i] != b[i] {
            return false;
        }
        i = i + 1;
    }
    assert(a@ =~= b@);
    true
}

/// Finds the file at `path`, if the listing holds one.
fn lookup<'a>(files: &'a Vec<FileEntry>, path: &String) -> (r: Option<&'a FileEntry>)
    requires
        files_unique(files@),
    ensures
        r is Some <==> files_contain(files@, path@),
        r matches Some(e) ==> e.path@ == path@ && e.content@ == content_at(files@, path@),
{
    let mut i: usize = 0;
    while i < files.len()
        invariant
            files_unique(files@),
            i <= files@.len(),
            forall|j: int| 0 <= j < i ==> #[trigger] files@[j].path@ != path@,
        decreases files@.len() - i,
    {
        if files[i].path.eq(path) {
            proof {
                lemma_content_at(files@, i as int);
            }
            return Some(&files[i]);
        }
        i = i + 1;
    }
    Option::None
}

/// The change state assigned to one relative path during a pull.
#[derive(Debug, Clone, Copy, PartialEq, Eq, Structural)]
pub enum PullState {
    Unchanged,
    Added,
    Modified,
    Removed,
}

/// The state for a path, from where it was seen and whether the two
/// sides' contents are identical: present only on the target is `Added`,
/// present on both is `Unchanged` or `Modified` by content, and present
/// only in the repository is `Removed`.
pub open spec fn spec_classify(on_target: bool, on_repo: bool, identical: bool) -> PullState {
    if on_target && !on_repo {
        PullState::Added
    } else if on_target && on_repo && identical {
        PullState::Unchanged
    } else if on_target && on_repo {
        PullState::Modified
    } else {
        PullState::Removed
    }
}

/// Classifies one relative path.  `identical` matters only when the path
/// is present on both sides.
pub fn classify(on_target: bool, on_repo: bool, identical: bool) -> (r: PullState)
    requires
        on_target || on_repo,
    ensures
        r == spec_classify(on_target, on_repo, identical),
{
    if on_target && !on_repo {
        PullState::Added
    } else if on_target && on_repo && identical {
        PullState::Unchanged
    } else if on_target && on_repo {
        PullState::Modified
    } else {
        PullState::Removed
    }
}

/// Classification is exhaustive and mutually exclusive: for every path
/// seen on at least one side, exactly one of the four states applies,
/// and it is the one assigned.
pub proof fn lemma_classification_partition(on_target: bool, on_repo: bool, identical: bool)
    requires
        on_target || on_repo,
    ensures
        spec_classify(on_target, on_repo, identical) == PullState::Added <==> (on_target
            && !on_repo),
        spec_classify(on_target, on_repo, identical) == PullState::Unchanged <==> (on_target
            && on_repo && identical),
        spec_classify(on_target, on_repo, identical) == PullState::Modified <==> (on_target
            && on_repo && !identical),
        spec_classify(on_target, on_repo, identical) == PullState::Removed <==> (!on_target
            && on_repo),
{
}

/// One planned reconciliation step: a relative path and its state.
#[derive(Debug, Clone)]
pub struct ReconciliationEntry {
    pub relative_path: String,
    pub state: PullState,
}

/// The plan reduced to plain values.
pub open spec fn entry_views(plan: Seq<ReconciliationEntry>) -> Seq<(Seq<char>, PullState)> {
    plan.map_values(|e: ReconciliationEntry| (e.relative_path@, e.state))
}

/// The plan's first half: every non-excluded target path, in listing
/// order, classified against the repository.
pub open spec fn plan_target_part(
    target: Seq<FileEntry>,
    repo: Seq<FileEntry>,
    patterns: Seq<Seq<char>>,
) -> Seq<(Seq<char>, PullState)>
    decreases target.len(),
{
    if target.len() == 0 {
        Seq::empty()
    } else {
        let prefix = plan_target_part(target.drop_last(), repo, patterns);
        let e = target.last();
        if !spec_excluded(patterns, e.path@) {
            prefix.push(
                (
                    e.path@,
                    spec_classify(
                        true,
                        files_contain(repo, e.path@),
                        content_at(repo, e.path@) == e.content@,
                    ),
                ),
            )
        } else {
            prefix
        }
    }
}

/// The plan's second half: every non-excluded repository path absent from
/// the target, in listing order, classified `Removed`.
pub open spec fn plan_removed_part(
    target: Seq<FileEntry>,
    repo: Seq<FileEntry>,
    patterns: Seq<Seq<char>>,
) -> Seq<(Seq<char>, PullState)>
    decreases repo.len(),
{
    if repo.len() == 0 {
        Seq::empty()
    } else {
        let prefix = plan_removed_part(target, repo.drop_last(), patterns);
        let e = repo.last();
        if !spec_excluded(patterns, e.path@) && !files_contain(target, e.path@) {
            prefix.push((e.path@, PullState::Removed))
        } else {
            prefix
        }
    }
}

/// The whole plan: the target side first, then the removals.
pub open spec fn spec_pull_plan(
    target: Seq<FileEntry>,
    repo: Seq<FileEntry>,
    patterns: Seq<Seq<char>>,
) -> Seq<(Seq<char>, PullState)> {
    plan_target_part(target, repo, patterns) + plan_removed_part(target, repo, patterns)
}

/// Whether the pull would touch the config descriptor: the descriptor's
/// path is not excluded and appears on either side.
pub open spec fn descriptor_clash(
    target: Seq<FileEntry>,
    repo: Seq<FileEntry>,
    patterns: Seq<Seq<char>>,
    descriptor: Seq<char>,
) -> bool {
    !spec_excluded(patterns, descriptor) && (files_contain(target, descriptor) || files_contain(
        repo,
        descriptor,
    ))
}

/// Plans a pull: classifies every non-excluded path of the deployed tree
/// and of the repository's copy.  Fails fast if any classified path is
/// the config descriptor's — the descriptor is never pulled over or
/// deleted.
pub fn pull_plan(
    target_files: &Vec<FileEntry>,
    repo_files: &Vec<FileEntry>,
    excl: &ExclusionSet,
    descriptor: &String,
) -> (r: Result<Vec<ReconciliationEntry>, Error>)
    requires
        files_unique(target_files@),
        files_unique(repo_files@),
    ensures
        r is Ok <==> !descriptor_clash(target_files@, repo_files@, excl.patterns(), descriptor@),
        r matches Ok(plan) ==> entry_views(plan@) == spec_pull_plan(
            target_files@,
            repo_files@,
            excl.patterns(),
        ),
        r matches Err(e) ==> e@
            == "Trying to overwrite dotconfig.toml configuration file. Please add 'dotconfig.toml' to your excludes in the target configuration."@,
{
    let ghost patterns = excl.patterns();
    let mut plan: Vec<ReconciliationEntry> = Vec::new();
    let mut i: usize = 0;
    while i < target_files.len()
        invariant
            files_unique(target_files@),
            files_unique(repo_files@),
            patterns == excl.patterns(),
            i <= target_files@.len(),
            entry_views(plan@) == plan_target_part(
                target_files@.take(i as int),
                repo_files@,
                patterns,
            ),
            forall|j: int|
                0 <= j < i && !spec_excluded(patterns, #[trigger] target_files@[j].path@)
                    ==> target_files@[j].path@ != descriptor@,
        decreases target_files@.len() - i,
    {
        let ghost prefix = target_files@.take(i as int);
        let e = &target_files[i];
        if !excl.is_excluded(e.path.as_str()) {
            if e.path.eq(descriptor) {
                assert(descriptor_clash(target_files@, repo_files@, patterns, descriptor@));
                return Err(
                    Error::new(
                        "Trying to overwrite dotconfig.toml configuration file. Please add 'dotconfig.toml' to your excludes in the target configuration.",
                    ),
                );
            }
            let ghost before = plan@;
            let state = match lookup(repo_files, &e.path) {
                Some(existing) => classify(true, true, bytes_eq(&existing.content, &e.content)),
                Option::None => classify(true, false, false),
            };
            plan.push(ReconciliationEntry { relative_path: e.path.clone(), state });
            proof {
                assert(entry_views(plan@) =~= entry_views(before).push(
                    (e.path@, plan@.last().state),
                ));
            }
        }
        proof {
            assert(target_files@.take(i + 1).drop_last() =~= prefix);
            assert(target_files@.take(i + 1).last() == target_files@[i as int]);
        }
        i = i + 1;
    }
    proof {
        assert(target_files@.take(target_files@.len() as int) =~= target_files@);
    }
    let ghost tpart = plan_target_part(target_files@, repo_files@, patterns);
    let mut k: usize = 0;
    while k < repo_files.len()
        invariant
            files_unique(target_files@),
            files_unique(repo_files@),
            patterns == excl.patterns(),
            tpart == plan_target_part(target_files@, repo_files@, patterns),
            k <= repo_files@.len(),
            entry_views(plan@) == tpart + plan_removed_part(
                target_files@,
                repo_files@.take(k as int),
                patterns,
            ),
            forall|j: int|
                0 <= j < target_files@.len() && !spec_excluded(
                    patterns,
                    #[trigger] target_files@[j].path@,
                ) ==> target_files@[j].path@ != descriptor@,
            forall|j: int|
                0 <= j < k && !spec_excluded(patterns, #[trigger] repo_files@[j].path@)
                    ==> repo_files@[j].path@ != descriptor@,
        decreases repo_files@.len() - k,
    {
        let ghost prefix = repo_files@.take(k as int);
        let e = &repo_files[k];
        if !excl.is_excluded(e.path.as_str()) {
            if e.path.eq(descriptor) {
                assert(descriptor_clash(target_files@, repo_files@, patterns, descriptor@));
                return Err(
                    Error::new(
                        "Trying to overwrite dotconfig.toml configuration file. Please add 'dotconfig.toml' to your excludes in the target configuration.",
                    ),
                );
            }
            let ghost before = plan@;
            if lookup(target_files, &e.path).is_none() {
                plan.push(ReconciliationEntry { relative_path: e.path.clone(), state: PullState::Removed });
                proof {
                    assert(entry_views(plan@) =~= entry_views(before).push(
                        (e.path@, PullState::Removed),
                    ));
                }
            }
        }
        proof {
            assert(repo_files@.take(k + 1).drop_last() =~= prefix);
            assert(repo_files@.take(k + 1).last() == repo_files@[k as int]);
        }
        k = k + 1;
    }
    proof {
        assert(repo_files@.take(repo_files@.len() as int) =~= repo_files@);
        if descriptor_clash(target_files@, repo_files@, patterns, descriptor@) {
            assert(false) by {
                if files_contain(target_files@, descriptor@) {
                    let j = choose|j: int|
                        0 <= j < target_files@.len() && #[trigger] target_files@[j].path@
                            == descriptor@;
                    assert(target_files@[j].path@ != descriptor@);
                } else {
                    let j = choose|j: int|
                        0 <= j < repo_files@.len() && #[trigger] repo_files@[j].path@
                            == descriptor@;
                    assert(repo_files@[j].path@ != descriptor@);
                }
            }
        }
    }
    Ok(plan)
}

proof fn lemma_target_part_entries(
    target: Seq<FileEntry>,
    repo: Seq<FileEntry>,
    patterns: Seq<Seq<char>>,
)
    ensures
        forall|j: int|
            0 <= j < plan_target_part(target, repo, patterns).len() ==> files_contain(
                target,
                #[trigger] plan_target_part(target, repo, patterns)[j].0,
            ) && !spec_excluded(patterns, plan_target_part(target, repo, patterns)[j].0),
    decreases target.len(),
{
    let part = plan_target_part(target, repo, patterns);
    if target.len() > 0 {
        lemma_target_part_entries(target.drop_last(), repo, patterns);
        let prev = target.drop_last();
        let prefix = plan_target_part(prev, repo, patterns);
        assert forall|j: int| 0 <= j < part.len() implies files_contain(target, #[trigger] part[j].0)
            && !spec_excluded(patterns, part[j].0) by {
            if j < prefix.len() {
                assert(part[j] == prefix[j]);
                let i = choose|i: int| 0 <= i < prev.len() && #[trigger] prev[i].path@ == prefix[j].0;
                assert(target[i].path@ == part[j].0);
            } else {
                assert(target[target.len() - 1].path@ == part[j].0);
            }
        }
    }
}

proof fn lemma_removed_part_entries(
    target: Seq<FileEntry>,
    repo: Seq<FileEntry>,
    patterns: Seq<Seq<char>>,
)
    ensures
        forall|j: int|
            0 <= j < plan_removed_part(target, repo, patterns).len() ==> files_contain(
                repo,
                #[trigger] plan_removed_part(target, repo, patterns)[j].0,
            ) && !spec_excluded(patterns, plan_removed_part(target, repo, patterns)[j].0)
                && !files_contain(target, plan_removed_part(target, repo, patterns)[j].0)
                && plan_removed_part(target, repo, patterns)[j].1 == PullState::Removed,
    decreases repo.len(),
{
    let part = plan_removed_part(target, repo, patterns);
    if repo.len() > 0 {
        lemma_removed_part_entries(target, repo.drop_last(), patterns);
        let prev = repo.drop_last();
        let prefix = plan_removed_part(target, prev, patterns);
        assert forall|j: int| 0 <= j < part.len() implies files_contain(repo, #[trigger] part[j].0)
            && !spec_excluded(patterns, part[j].0) && !files_contain(target, part[j].0) && part[j].1
            == PullState::Removed by {
            if j < prefix.len() {
                assert(part[j] == prefix[j]);
                let i = choose|i: int| 0 <= i < prev.len() && #[trigger] prev[i].path@ == prefix[j].0;
                assert(repo[i].path@ == part[j].0);
            } else {
                assert(repo[repo.len() - 1].path@ == part[j].0);
            }
        }
    }
}

proof fn lemma_target_part_occurrences(
    target: Seq<FileEntry>,
    repo: Seq<FileEntry>,
    patterns: Seq<Seq<char>>,
    p: Seq<char>,
)
    requires
        files_unique(target),
    ensures
        (files_contain(target, p) && !spec_excluded(patterns, p)) ==> exists|j: int|
            0 <= j < plan_target_part(target, repo, patterns).len()
                && #[trigger] plan_target_part(target, repo, patterns)[j].0 == p,
        !(files_contain(target, p) && !spec_excluded(patterns, p)) ==> forall|j: int|
            0 <= j < plan_target_part(target, repo, patterns).len()
                ==> #[trigger] plan_target_part(target, repo, patterns)[j].0 != p,
        forall|j1: int, j2: int|
            0 <= j1 < plan_target_part(target, repo, patterns).len() && 0 <= j2
                < plan_target_part(target, repo, patterns).len() && #[trigger] plan_target_part(
                target,
                repo,
                patterns,
            )[j1].0 == p && #[trigger] plan_target_part(target, repo, patterns)[j2].0 == p ==> j1
                == j2,
    decreases target.len(),
{
    let part = plan_target_part(target, repo, patterns);
    if target.len() == 0 {
        assert(!files_contain(target, p));
    } else {
        let prev = target.drop_last();
        assert(files_unique(prev)) by {
            assert(forall|i: int| 0 <= i < prev.len() ==> prev[i] == target[i]);
        }
        lemma_target_part_occurrences(prev, repo, patterns, p);
        let prefix = plan_target_part(prev, repo, patterns);
        let e = target.last();
        if e.path@ == p {
            assert(files_contain(target, p)) by {
                assert(target[target.len() - 1].path@ == p);
            }
            assert(!files_contain(prev, p)) by {
                if files_contain(prev, p) {
                    let i = choose|i: int| 0 <= i < prev.len() && #[trigger] prev[i].path@ == p;
                    assert(target[i].path@ == target[target.len() - 1].path@);
                }
            }
            assert(forall|j: int| 0 <= j < prefix.len() ==> #[trigger] prefix[j].0 != p);
            if !spec_excluded(patterns, p) {
                assert(part == prefix.push(
                    (
                        p,
                        spec_classify(
                            true,
                            files_contain(repo, p),
                            content_at(repo, p) == e.content@,
                        ),
                    ),
                ));
                assert(part[prefix.len() as int].0 == p);
                assert forall|j1: int, j2: int|
                    0 <= j1 < part.len() && 0 <= j2 < part.len() && #[trigger] part[j1].0 == p
                        && #[trigger] part[j2].0 == p implies j1 == j2 by {
                    if j1 < prefix.len() {
                        assert(prefix[j1].0 == p);
                    }
                    if j2 < prefix.len() {
                        assert(prefix[j2].0 == p);
                    }
                }
            } else {
                assert(part == prefix);
            }
        } else {
            assert(files_contain(target, p) == files_contain(prev, p)) by {
                if files_contain(target, p) {
                    let i = choose|i: int|
                        0 <= i < target.len() && #[trigger] target[i].path@ == p;
                    assert(i < target.len() - 1);
                    assert(prev[i].path@ == p);
                }
                if files_contain(prev, p) {
                    let i = choose|i: int| 0 <= i < prev.len() && #[trigger] prev[i].path@ == p;
                    assert(target[i].path@ == p);
                }
            }
            if !spec_excluded(patterns, e.path@) {
                assert(part[prefix.len() as int].0 == e.path@);
                assert(forall|j: int| 0 <= j < prefix.len() ==> part[j] == #[trigger] prefix[j]);
                if files_contain(prev, p) && !spec_excluded(patterns, p) {
                    let j = choose|j: int|
                        0 <= j < prefix.len() && #[trigger] prefix[j].0 == p;
                    assert(part[j].0 == p);
                }
                assert forall|j1: int, j2: int|
                    0 <= j1 < part.len() && 0 <= j2 < part.len() && #[trigger] part[j1].0 == p
                        && #[trigger] part[j2].0 == p implies j1 == j2 by {
                    assert(j1 < prefix.len() && j2 < prefix.len());
                    assert(prefix[j1].0 == p && prefix[j2].0 == p);
                }
            } else {
                assert(part == prefix);
            }
        }
    }
}

proof fn lemma_removed_part_occurrences(
    target: Seq<FileEntry>,
    repo: Seq<FileEntry>,
    patterns: Seq<Seq<char>>,
    p: Seq<char>,
)
    requires
        files_unique(repo),
    ensures
        (files_contain(repo, p) && !files_contain(target, p) && !spec_excluded(patterns, p))
            ==> exists|j: int|
            0 <= j < plan_removed_part(target, repo, patterns).len()
                && #[trigger] plan_removed_part(target, repo, patterns)[j].0 == p,
        !(files_contain(repo, p) && !files_contain(target, p) && !spec_excluded(patterns, p))
            ==> forall|j: int|
            0 <= j < plan_removed_part(target, repo, patterns).len()
                ==> #[trigger] plan_removed_part(target, repo, patterns)[j].0 != p,
        forall|j1: int, j2: int|
            0 <= j1 < plan_removed_part(target, repo, patterns).len() && 0 <= j2
                < plan_removed_part(target, repo, patterns).len() && #[trigger] plan_removed_part(
                target,
                repo,
                patterns,
            )[j1].0 == p && #[trigger] plan_removed_part(target, repo, patterns)[j2].0 == p ==> j1
                == j2,
    decreases repo.len(),
{
    let part = plan_removed_part(target, repo, patterns);
    if repo.len() == 0 {
        assert(!files_contain(repo, p));
    } else {
        let prev = repo.drop_last();
        assert(files_unique(prev)) by {
            assert(forall|i: int| 0 <= i < prev.len() ==> prev[i] == repo[i]);
        }
        lemma_removed_part_occurrences(target, prev, patterns, p);
        let prefix = plan_removed_part(target, prev, patterns);
        let e = repo.last();
        if e.path@ == p {
            assert(files_contain(repo, p)) by {
                assert(repo[repo.len() - 1].path@ == p);
            }
            assert(!files_contain(prev, p)) by {
                if files_contain(prev, p) {
                    let i = choose|i: int| 0 <= i < prev.len() && #[trigger] prev[i].path@ == p;
                    assert(repo[i].path@ == repo[repo.len() - 1].path@);
                }
            }
            assert(forall|j: int| 0 <= j < prefix.len() ==> #[trigger] prefix[j].0 != p);
            if !spec_excluded(patterns, p) && !files_contain(target, p) {
                assert(part == prefix.push((p, PullState::Removed)));
                assert(part[prefix.len() as int].0 == p);
                assert forall|j1: int, j2: int|
                    0 <= j1 < part.len() && 0 <= j2 < part.len() && #[trigger] part[j1].0 == p
                        && #[trigger] part[j2].0 == p implies j1 == j2 by {
                    if j1 < prefix.len() {
                        assert(prefix[j1].0 == p);
                    }
                    if j2 < prefix.len() {
                        assert(prefix[j2].0 == p);
                    }
                }
            } else {
                assert(part == prefix);
            }
        } else {
            assert(files_contain(repo, p) == files_contain(prev, p)) by {
                if files_contain(repo, p) {
                    let i = choose|i: int| 0 <= i < repo.len() && #[trigger] repo[i].path@ == p;
                    assert(i < repo.len() - 1);
                    assert(prev[i].path@ == p);
                }
                if files_contain(prev, p) {
                    let i = choose|i: int| 0 <= i < prev.len() && #[trigger] prev[i].path@ == p;
                    assert(repo[i].path@ == p);
                }
            }
            if !spec_excluded(patterns, e.path@) && !files_contain(target, e.path@) {
                assert(part[prefix.len() as int].0 == e.path@);
                assert(forall|j: int| 0 <= j < prefix.len() ==> part[j] == #[trigger] prefix[j]);
                if files_contain(prev, p) && !files_contain(target, p) && !spec_excluded(
                    patterns,
                    p,
                ) {
                    let j = choose|j: int|
                        0 <= j < prefix.len() && #[trigger] prefix[j].0 == p;
                    assert(part[j].0 == p);
                }
                assert forall|j1: int, j2: int|
                    0 <= j1 < part.len() && 0 <= j2 < part.len() && #[trigger] part[j1].0 == p
                        && #[trigger] part[j2].0 == p implies j1 == j2 by {
                    assert(j1 < prefix.len() && j2 < prefix.len());
                    assert(prefix[j1].0 == p && prefix[j2].0 == p);
                }
            } else {
                assert(part == prefix);
            }
        }
    }
}

/// Classification over a whole plan is exhaustive and mutually
/// exclusive: every non-excluded path seen on either side appears in the
/// plan exactly once — so it carries exactly one of the four states.
pub proof fn lemma_pull_plan_exhaustive(
    target: Seq<FileEntry>,
    repo: Seq<FileEntry>,
    patterns: Seq<Seq<char>>,
    p: Seq<char>,
)
    requires
        files_unique(target),
        files_unique(repo),
        !spec_excluded(patterns, p),
        files_contain(target, p) || files_contain(repo, p),
    ensures
        exists|j: int|
            0 <= j < spec_pull_plan(target, repo, patterns).len()
                && #[trigger] spec_pull_plan(target, repo, patterns)[j].0 == p,
        forall|j1: int, j2: int|
            0 <= j1 < spec_pull_plan(target, repo, patterns).len() && 0 <= j2 < spec_pull_plan(
                target,
                repo,
                patterns,
            ).len() && #[trigger] spec_pull_plan(target, repo, patterns)[j1].0 == p
                && #[trigger] spec_pull_plan(target, repo, patterns)[j2].0 == p ==> j1 == j2,
{
    let tpart = plan_target_part(target, repo, patterns);
    let rpart = plan_removed_part(target, repo, patterns);
    let plan = spec_pull_plan(target, repo, patterns);
    lemma_target_part_occurrences(target, repo, patterns, p);
    lemma_removed_part_occurrences(target, repo, patterns, p);
    assert(forall|j: int| 0 <= j < tpart.len() ==> plan[j] == #[trigger] tpart[j]);
    assert(forall|j: int|
        0 <= j < rpart.len() ==> plan[tpart.len() + j] == #[trigger] rpart[j]);
    if files_contain(target, p) {
        let j = choose|j: int| 0 <= j < tpart.len() && #[trigger] tpart[j].0 == p;
        assert(plan[j].0 == p);
    } else {
        let j = choose|j: int| 0 <= j < rpart.len() && #[trigger] rpart[j].0 == p;
        assert(plan[tpart.len() + j].0 == p);
    }
    assert forall|j1: int, j2: int|
        0 <= j1 < plan.len() && 0 <= j2 < plan.len() && #[trigger] plan[j1].0 == p
            && #[trigger] plan[j2].0 == p implies j1 == j2 by {
        if j1 >= tpart.len() {
            assert(rpart[j1 - tpart.len()].0 == p);
        }
        if j2 >= tpart.len() {
            assert(rpart[j2 - tpart.len()].0 == p);
        }
        if j1 < tpart.len() {
            assert(tpart[j1].0 == p);
        }
        if j2 < tpart.len() {
            assert(tpart[j2].0 == p);
        }
    }
}

/// The pull never touches the config descriptor: when planning succeeds,
/// no planned entry — whatever its state — names the descriptor's path.
pub proof fn lemma_descriptor_never_pulled(
    target: Seq<FileEntry>,
    repo: Seq<FileEntry>,
    patterns: Seq<Seq<char>>,
    descriptor: Seq<char>,
)
    requires
        !descriptor_clash(target, repo, patterns, descriptor),
    ensures
        forall|j: int|
            0 <= j < spec_pull_plan(target, repo, patterns).len()
                ==> #[trigger] spec_pull_plan(target, repo, patterns)[j].0 != descriptor,
{
    let tpart = plan_target_part(target, repo, patterns);
    let rpart = plan_removed_part(target, repo, patterns);
    let plan = spec_pull_plan(target, repo, patterns);
    lemma_target_part_entries(target, repo, patterns);
    lemma_removed_part_entries(target, repo, patterns);
    assert forall|j: int| 0 <= j < plan.len() implies #[trigger] plan[j].0 != descriptor by {
        if j < tpart.len() {
            assert(plan[j] == tpart[j]);
        } else {
            assert(plan[j] == rpart[j - tpart.len()]);
        }
    }
}

/// What one planned entry does to the filesystem, given whether the
/// change was approved (by force, or by an answered prompt).
#[derive(Debug, Clone, Copy, PartialEq, Eq, Structural)]
pub enum PullAction {
    /// Copy the target tree's file over the repository's copy.
    CopyToRepo,
    /// Delete the file from the repository.
    DeleteFromRepo,
    /// Leave the repository untouched.
    Nothing,
}

/// The action an entry's state calls for once approved.
pub open spec fn spec_action_for(state: PullState, approved: bool) -> PullAction {
    if !approved {
        PullAction::Nothing
    } else {
        match state {
            PullState::Unchanged => PullAction::Nothing,
            PullState::Added => PullAction::CopyToRepo,
            PullState::Modified => PullAction::CopyToRepo,
            PullState::Removed => PullAction::DeleteFromRepo,
        }
    }
}

/// Dispatches one entry: an unapproved or unchanged entry does nothing,
/// an approved addition or modification copies the target's file into
/// the repository, and an approved removal deletes the repository's file.
pub fn action_for(state: PullState, approved: bool) -> (r: PullAction)
    ensures
        r == spec_action_for(state, approved),
{
    if !approved {
        PullAction::Nothing
    } else {
        match state {
            PullState::Unchanged => PullAction::Nothing,
            PullState::Added => PullAction::CopyToRepo,
            PullState::Modified => PullAction::CopyToRepo,
            PullState::Removed => PullAction::DeleteFromRepo,
        }
    }
}

} // verus!
