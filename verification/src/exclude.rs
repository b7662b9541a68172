//! Exclusion sets: several sources of glob patterns compiled into one
//! matcher over relative paths.
//!
//! Pattern compilation and matching are done by the `globset` crate; which
//! patterns compile, and what a pattern matches, are kept abstract here,
//! named by [`glob_ok`] and [`glob_match`].  The union over the patterns
//! of a set is this crate's own logic.

use vstd::prelude::*;

verus! {

#[verifier::external_type_specification]
#[verifier::external_body]
pub struct ExGlobSet(globset::GlobSet);

/// Whether globset accepts the pattern and compiles it into a matcher;
/// this depends on the pattern alone.
pub uninterp spec fn glob_ok(pattern: Seq<char>) -> bool;

/// The pattern a compiled one-pattern set tests paths against.
pub uninterp spec fn set_pattern(s: globset::GlobSet) -> Seq<char>;

/// Whether a glob pattern matches a relative path.  The answer depends on
/// the pattern and the path alone.
pub uninterp spec fn glob_match(pattern: Seq<char>, path: Seq<char>) -> bool;

/// Relies on `globset::Glob::new` and `globset::GlobSetBuilder::build`:
/// whether a pattern parses, and whether its matcher compiles within the
/// crate's size limit, depend on the pattern alone; on success the
/// one-pattern set is built from exactly that pattern.  Both steps report
/// failure as a value, so no input makes this call panic.
#[verifier::external_body]
fn compile_pattern(pattern: &str) -> (r: Option<globset::GlobSet>)
    ensures
        r is Some <==> glob_ok(pattern@),
        r matches Some(s) ==> set_pattern(s) == pattern@,
{
    let glob = match globset::Glob::new(pattern) {
        Ok(g) => g,
        Err(_) => return None,
    };
    let mut builder = globset::GlobSetBuilder::new();
    builder.add(glob);
    builder.build().ok()
}

/// Relies on `globset::GlobSet::is_match`: the set matches a path exactly
/// when one of its globs does — here the single pattern it was built from.
#[verifier::external_body]
fn set_is_match(s: &globset::GlobSet, path: &str) -> (r: bool)
    ensures
        r == glob_match(set_pattern(*s), path@),
{
    s.is_match(path)
}

/// The views of a list of strings.
pub open spec fn strings_view(v: Seq<String>) -> Seq<Seq<char>> {
    v.map_values(|x: String| x@)
}

/// The views of a list of pattern lists.
pub open spec fn sources_view(v: Seq<Vec<String>>) -> Seq<Seq<Seq<char>>> {
    v.map_values(|x: Vec<String>| strings_view(x@))
}

/// All pattern groups laid out one after the other.
pub open spec fn concat_all(groups: Seq<Seq<Seq<char>>>) -> Seq<Seq<char>>
    decreases groups.len(),
{
    if groups.len() == 0 {
        Seq::empty()
    } else {
        concat_all(groups.drop_last()) + groups.last()
    }
}

/// Whether every pattern of the list compiles.
pub open spec fn all_compile(patterns: Seq<Seq<char>>) -> bool {
    forall|i: int| 0 <= i < patterns.len() ==> glob_ok(#[trigger] patterns[i])
}

/// Whether any of `patterns` matches `path`.
pub open spec fn spec_excluded(patterns: Seq<Seq<char>>, path: Seq<char>) -> bool {
    exists|i: int| 0 <= i < patterns.len() && glob_match(patterns[i], path)
}

/// Laying out the first `n` groups yields a prefix of laying out all of
/// them.
proof fn lemma_concat_all_take_prefix(groups: Seq<Seq<Seq<char>>>, n: int)
    requires
        0 <= n <= groups.len(),
    ensures
        concat_all(groups.take(n)).len() <= concat_all(groups).len(),
        forall|k: int|
            0 <= k < concat_all(groups.take(n)).len() ==> #[trigger] concat_all(groups)[k]
                == concat_all(groups.take(n))[k],
    decreases groups.len(),
{
    if n == groups.len() {
        assert(groups.take(n) =~= groups);
    } else {
        lemma_concat_all_take_prefix(groups.drop_last(), n);
        assert(groups.drop_last().take(n) =~= groups.take(n));
        assert(concat_all(groups) == concat_all(groups.drop_last()) + groups.last());
    }
}

/// A compiled set of glob patterns over relative paths.  A path is
/// excluded when any pattern of the set matches it.
#[derive(Debug)]
pub struct ExclusionSet {
    matchers: Vec<globset::GlobSet>,
}

impl ExclusionSet {
    /// The patterns this set was built from, in order.
    pub closed spec fn patterns(&self) -> Seq<Seq<char>> {
        self.matchers@.map_values(|m: globset::GlobSet| set_pattern(m))
    }

    /// Compiles the union of several pattern sources, followed by the
    /// reserved paths that are always excluded.  Succeeds exactly when
    /// every pattern compiles.
    pub fn build(sources: &Vec<Vec<String>>, reserved: &Vec<String>) -> (r: Result<
        ExclusionSet,
        crate::err::Error,
    >)
        ensures
            r is Ok <==> all_compile(
                concat_all(sources_view(sources@)) + strings_view(reserved@),
            ),
            r matches Ok(s) ==> s.patterns() == concat_all(sources_view(sources@))
                + strings_view(reserved@),
            r matches Err(e) ==> e@ == "could not compile exclude pattern"@,
    {
        let ghost sv = sources_view(sources@);
        let ghost full = concat_all(sv) + strings_view(reserved@);
        let mut matchers: Vec<globset::GlobSet> = Vec::new();
        let mut si: usize = 0;
        while si < sources.len()
            invariant
                si <= sources@.len(),
                sv == sources_view(sources@),
                full == concat_all(sv) + strings_view(reserved@),
                sv.len() == sources@.len(),
                matchers@.map_values(|m: globset::GlobSet| set_pattern(m)) == concat_all(
                    sv.take(si as int),
                ),
                all_compile(concat_all(sv.take(si as int))),
            decreases sources@.len() - si,
        {
            let group = &sources[si];
            let mut pi: usize = 0;
            while pi < group.len()
                invariant
                    pi <= group@.len(),
                    si < sources@.len(),
                    sv == sources_view(sources@),
                    full == concat_all(sv) + strings_view(reserved@),
                    sv.len() == sources@.len(),
                    group@ == sources@[si as int]@,
                    matchers@.map_values(|m: globset::GlobSet| set_pattern(m))
                        == concat_all(sv.take(si as int)) + strings_view(group@).take(pi as int),
                    all_compile(
                        concat_all(sv.take(si as int)) + strings_view(group@).take(pi as int),
                    ),
                decreases group@.len() - pi,
            {
                let ghost built = concat_all(sv.take(si as int)) + strings_view(group@).take(
                    pi as int,
                );
                let compiled = match compile_pattern(group[pi].as_str()) {
                    Some(s) => s,
                    Option::None => {
                        // the failing pattern sits just past the compiled
                        // prefix in the full layout, so not all compile
                        proof {
                            assert(sv.take(si + 1).drop_last() =~= sv.take(si as int));
                            assert(sv.take(si + 1).last() == strings_view(group@));
                            assert(concat_all(sv.take(si + 1)) == concat_all(sv.take(si as int))
                                + strings_view(group@));
                            assert(concat_all(sv.take(si + 1))[built.len() as int]
                                == group@[pi as int]@);
                            lemma_concat_all_take_prefix(sv, si + 1);
                            assert(full[built.len() as int] == group@[pi as int]@);
                        }
                        return Err(crate::err::Error::new("could not compile exclude pattern"));
                    },
                };
                let ghost before = matchers@;
                matchers.push(compiled);
                proof {
                    assert(matchers@.map_values(|m: globset::GlobSet| set_pattern(m))
                        =~= before.map_values(|m: globset::GlobSet| set_pattern(m)).push(
                        group@[pi as int]@,
                    ));
                    assert(strings_view(group@).take(pi + 1) =~= strings_view(group@).take(
                        pi as int,
                    ).push(group@[pi as int]@));
                    assert(all_compile(built.push(group@[pi as int]@))) by {
                        assert(forall|i: int|
                            0 <= i < built.len() ==> #[trigger] built.push(
                                group@[pi as int]@,
                            )[i] == built[i]);
                    }
                }
                pi = pi + 1;
            }
            proof {
                assert(strings_view(group@).take(group@.len() as int) =~= strings_view(group@));
                assert(sv.take(si + 1).drop_last() =~= sv.take(si as int));
                assert(sv.take(si + 1).last() == strings_view(group@));
                assert(concat_all(sv.take(si + 1)) == concat_all(sv.take(si as int))
                    + strings_view(group@));
            }
            si = si + 1;
        }
        proof {
            assert(sv.take(sv.len() as int) =~= sv);
        }
        let mut ri: usize = 0;
        while ri < reserved.len()
            invariant
                ri <= reserved@.len(),
                sv == sources_view(sources@),
                full == concat_all(sv) + strings_view(reserved@),
                matchers@.map_values(|m: globset::GlobSet| set_pattern(m)) == concat_all(sv)
                    + strings_view(reserved@).take(ri as int),
                all_compile(concat_all(sv) + strings_view(reserved@).take(ri as int)),
            decreases reserved@.len() - ri,
        {
            let ghost built = concat_all(sv) + strings_view(reserved@).take(ri as int);
            let compiled = match compile_pattern(reserved[ri].as_str()) {
                Some(s) => s,
                Option::None => {
                    assert(full[built.len() as int] == reserved@[ri as int]@);
                    return Err(crate::err::Error::new("could not compile exclude pattern"));
                },
            };
            let ghost before = matchers@;
            matchers.push(compiled);
            proof {
                assert(matchers@.map_values(|m: globset::GlobSet| set_pattern(m))
                    =~= before.map_values(|m: globset::GlobSet| set_pattern(m)).push(
                    reserved@[ri as int]@,
                ));
                assert(strings_view(reserved@).take(ri + 1) =~= strings_view(reserved@).take(
                    ri as int,
                ).push(reserved@[ri as int]@));
                assert(all_compile(built.push(reserved@[ri as int]@))) by {
                    assert(forall|i: int|
                        0 <= i < built.len() ==> #[trigger] built.push(
                            reserved@[ri as int]@,
                        )[i] == built[i]);
                }
            }
            ri = ri + 1;
        }
        proof {
            assert(strings_view(reserved@).take(reserved@.len() as int) =~= strings_view(
                reserved@,
            ));
        }
        Ok(ExclusionSet { matchers })
    }

    /// Whether the relative path is excluded: true exactly when some
    /// pattern of this set matches it.
    pub fn is_excluded(&self, path: &str) -> (r: bool)
        ensures
            r == spec_excluded(self.patterns(), path@),
    {
        let mut i: usize = 0;
        while i < self.matchers.len()
            invariant
                i <= self.matchers@.len(),
                forall|j: int| 0 <= j < i ==> !glob_match(self.patterns()[j], path@),
            decreases self.matchers@.len() - i,
        {
            if set_is_match(&self.matchers[i], path) {
                assert(glob_match(self.patterns()[i as int], path@));
                return true;
            }
            i = i + 1;
        }
        false
    }
}

} // verus!
