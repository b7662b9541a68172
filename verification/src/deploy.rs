//! The deploy engine's decisions: which platform target applies, whether
//! the target must be empty, where the target path points, and which
//! files are copied.
//!
//! Deploy is additive: it copies every non-excluded file of the config's
//! source tree onto the same relative path under the target and never
//! deletes.  The copying itself is filesystem work done by the caller;
//! [`deploy_effect`] states what it does to the target tree, and
//! [`lemma_deploy_idempotent`] that doing it twice changes nothing more.

use vstd::prelude::*;

use crate::config::{Deploy, DeployTarget};
use crate::err::Error;
use crate::exclude::{spec_excluded, ExclusionSet};

verus! {

/// The operating system a deploy or pull runs on.
#[derive(Debug, Clone)]
pub enum Platform {
    Windows,
    Linux,
    /// An operating system without a deploy target, under its name.
    Other(String),
}

/// Picks the deploy target for the platform; an unsupported platform is
/// rejected with its name.
pub fn select_target<'a>(deploy: &'a Deploy, platform: &Platform) -> (r: Result<
    &'a DeployTarget,
    Error,
>)
    ensures
        platform is Windows ==> (r matches Ok(t) && t == deploy.windows),
        platform is Linux ==> (r matches Ok(t) && t == deploy.linux),
        platform matches Platform::Other(name) ==> (r matches Err(e) && e@
            == "Operating system '"@ + name@ + "' is not supported."@),
{
    match platform {
        Platform::Windows => Ok(&deploy.windows),
        Platform::Linux => Ok(&deploy.linux),
        Platform::Other(name) => Err(
            Error::from_string(
                "Operating system '".to_owned().concat(name.as_str()).concat(
                    "' is not supported.",
                ),
            ),
        ),
    }
}

/// The empty-target policy in force: the target's override if set, else
/// the config-level default.
pub fn effective_require_empty(deploy: &Deploy, target: &DeployTarget) -> (r: bool)
    ensures
        r == (match target.target_require_empty {
            Some(b) => b,
            None => deploy.target_require_empty,
        }),
{
    match target.target_require_empty {
        Some(b) => b,
        Option::None => deploy.target_require_empty,
    }
}

/// Relies on `shellexpand::tilde`: only a leading `'~'` (followed by a
/// separator or the end) is replaced, by the user's home directory; any
/// other input comes back unchanged.
#[verifier::external_body]
fn expand_tilde(path: &str) -> (r: String)
    ensures
        (path@.len() == 0 || path@[0] != '~') ==> r@ == path@,
        r@ == path@ || (path@.len() >= 1 && path@[0] == '~' && exists|h: Seq<char>|
            r@ == h + path@.skip(1)),
{
    shellexpand::tilde(path).into_owned()
}

/// The filesystem path a target points at, with a leading `'~'` expanded
/// to the user's home directory.
pub fn resolve_target_path(target: &DeployTarget) -> (r: String)
    ensures
        (target.target@.len() == 0 || target.target@[0] != '~') ==> r@ == target.target@,
        r@ == target.target@ || (target.target@.len() >= 1 && target.target@[0] == '~' && exists|
            h: Seq<char>,
        |
            r@ == h + target.target@.skip(1)),
{
    expand_tilde(target.target.as_str())
}

/// The relative paths deploy copies: `files` with the excluded ones
/// dropped, in order.
pub open spec fn kept_paths(patterns: Seq<Seq<char>>, files: Seq<String>) -> Seq<String>
    decreases files.len(),
{
    if files.len() == 0 {
        Seq::empty()
    } else {
        let prefix = kept_paths(patterns, files.drop_last());
        if !spec_excluded(patterns, files.last()@) {
            prefix.push(files.last())
        } else {
            prefix
        }
    }
}

/// Filters the config's files down to those deploy copies: every file
/// whose relative path is not excluded.
pub fn deploy_paths(files: &Vec<String>, excl: &ExclusionSet) -> (r: Vec<String>)
    ensures
        r@ == kept_paths(excl.patterns(), files@),
{
    let mut kept: Vec<String> = Vec::new();
    let mut i: usize = 0;
    while i < files.len()
        invariant
            i <= files@.len(),
            kept@ == kept_paths(excl.patterns(), files@.take(i as int)),
        decreases files@.len() - i,
    {
        let ghost prefix = files@.take(i as int);
        if !excl.is_excluded(files[i].as_str()) {
            kept.push(files[i].clone());
        }
        proof {
            assert(files@.take(i + 1).drop_last() =~= prefix);
            assert(files@.take(i + 1).last() == files@[i as int]);
        }
        i = i + 1;
    }
    proof {
        assert(files@.take(files@.len() as int) =~= files@);
    }
    kept
}

/// What one deploy does to the target tree (a map from relative path to
/// file content): every non-excluded source file is written at its own
/// relative path, everything else is left alone.
pub open spec fn deploy_effect(
    target: Map<Seq<char>, Seq<u8>>,
    source: Map<Seq<char>, Seq<u8>>,
    patterns: Seq<Seq<char>>,
) -> Map<Seq<char>, Seq<u8>> {
    Map::new(
        |p: Seq<char>|
            target.dom().contains(p) || (source.dom().contains(p) && !spec_excluded(patterns, p)),
        |p: Seq<char>|
            if source.dom().contains(p) && !spec_excluded(patterns, p) {
                source[p]
            } else {
                target[p]
            },
    )
}

/// Deploying the same source twice is idempotent: the target tree after
/// the second deploy equals the tree after the first.
pub proof fn lemma_deploy_idempotent(
    target: Map<Seq<char>, Seq<u8>>,
    source: Map<Seq<char>, Seq<u8>>,
    patterns: Seq<Seq<char>>,
)
    ensures
        deploy_effect(deploy_effect(target, source, patterns), source, patterns) == deploy_effect(
            target,
            source,
            patterns,
        ),
{
    let once = deploy_effect(target, source, patterns);
    let twice = deploy_effect(once, source, patterns);
    assert(twice =~= once);
}

} // verus!
