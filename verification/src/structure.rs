//! Discovery of the config catalog: which children of the repository root
//! are configs, and with which descriptors.
//!
//! Listing the root directory and reading each descriptor happen outside
//! this crate; the listing comes in as [`ScanEntry`] values and the
//! decisions — who is excluded, and that resolution is all-or-nothing —
//! are made here.

use vstd::prelude::*;

use crate::config::{Configuration, RootConfiguration};
use crate::err::Error;
use crate::exclude::strings_view;

verus! {

/// One child of the repository root, as the caller saw it: its name,
/// whether it is a directory, and its descriptor if one could be read
/// and parsed.
#[derive(Debug, Clone)]
pub struct ScanEntry {
    pub name: String,
    pub is_dir: bool,
    pub descriptor: Option<Configuration>,
}

/// The resolved repository: the root configuration and the catalog of
/// configs, keyed by their directory names.
#[derive(Debug)]
pub struct Structure {
    pub root: RootConfiguration,
    pub configs: Vec<(String, Configuration)>,
}

/// A root-level exclude pattern with one trailing separator stripped.
pub open spec fn strip_trailing_slash(s: Seq<char>) -> Seq<char> {
    if s.len() > 0 && s[s.len() - 1] == '/' {
        s.drop_last()
    } else {
        s
    }
}

/// All root-level excludes, stripped.
pub open spec fn stripped(excludes: Seq<Seq<char>>) -> Seq<Seq<char>> {
    excludes.map_values(|p: Seq<char>| strip_trailing_slash(p))
}

/// Whether a root child with this name and kind is a config candidate:
/// a directory whose name none of the stripped excludes equals.
pub open spec fn is_member(ex: Seq<Seq<char>>, e: ScanEntry) -> bool {
    e.is_dir && !ex.contains(e.name@)
}

/// The catalog the listing resolves to: every candidate, in listing
/// order, paired with its descriptor.
pub open spec fn catalog_of(ex: Seq<Seq<char>>, entries: Seq<ScanEntry>) -> Seq<
    (String, Configuration),
>
    decreases entries.len(),
{
    if entries.len() == 0 {
        Seq::empty()
    } else {
        let prefix = catalog_of(ex, entries.drop_last());
        let e = entries.last();
        if is_member(ex, e) {
            prefix.push((e.name, e.descriptor.unwrap()))
        } else {
            prefix
        }
    }
}

/// Whether every candidate's descriptor could be read: resolution is
/// all-or-nothing, so one missing or unparsable descriptor fails it.
pub open spec fn descriptors_ok(ex: Seq<Seq<char>>, entries: Seq<ScanEntry>) -> bool {
    forall|i: int|
        0 <= i < entries.len() && is_member(ex, #[trigger] entries[i]) ==> entries[i].descriptor
            is Some
}

/// Strips one trailing `'/'` from an exclude pattern.
fn normalize_exclude(p: &String) -> (r: String)
    ensures
        r@ == strip_trailing_slash(p@),
{
    let n: usize = p.as_str().unicode_len();
    if n > 0 && p.as_str().get_char(n - 1) == '/' {
        let stripped_str = p.as_str().substring_char(0, n - 1);
        let r = stripped_str.to_owned();
        assert(r@ =~= p@.drop_last());
        r
    } else {
        p.clone()
    }
}

/// The root-level excludes with one trailing separator stripped from
/// each, in order: the names that bar a child directory from the catalog.
pub fn stripped_excludes(root: &RootConfiguration) -> (r: Vec<String>)
    ensures
        strings_view(r@) == stripped(strings_view(root.exclude@)),
{
    let ghost ex = stripped(strings_view(root.exclude@));
    let mut names: Vec<String> = Vec::new();
    let mut xi: usize = 0;
    while xi < root.exclude.len()
        invariant
            xi <= root.exclude@.len(),
            strings_view(names@) == ex.take(xi as int),
            ex == stripped(strings_view(root.exclude@)),
            ex.len() == root.exclude@.len(),
        decreases root.exclude@.len() - xi,
    {
        let ghost before = names@;
        names.push(normalize_exclude(&root.exclude[xi]));
        proof {
            assert(strings_view(names@) =~= strings_view(before).push(
                strip_trailing_slash(root.exclude@[xi as int]@),
            ));
            assert(ex.take(xi + 1) =~= ex.take(xi as int).push(ex[xi as int]));
        }
        xi = xi + 1;
    }
    proof {
        assert(ex.take(ex.len() as int) =~= ex);
    }
    names
}

/// Whether `name`'s view occurs among `names`'s views.
pub fn contains_name(names: &Vec<String>, name: &String) -> (r: bool)
    ensures
        r == strings_view(names@).contains(name@),
{
    let mut i: usize = 0;
    while i < names.len()
        invariant
            i <= names@.len(),
            forall|j: int| 0 <= j < i ==> strings_view(names@)[j] != name@,
        decreases names@.len() - i,
    {
        if names[i].eq(name) {
            assert(strings_view(names@)[i as int] == name@);
            return true;
        }
        i = i + 1;
    }
    false
}

impl Structure {
    /// Whether the catalog names its configs uniquely.
    pub open spec fn wf(&self) -> bool {
        forall|i: int, j: int|
            0 <= i < j < self.configs@.len() ==> #[trigger] self.configs@[i].0@
                != #[trigger] self.configs@[j].0@
    }

    /// Whether the catalog holds a config of this name.
    pub open spec fn spec_contains(&self, name: Seq<char>) -> bool {
        exists|i: int| 0 <= i < self.configs@.len() && #[trigger] self.configs@[i].0@ == name
    }

    /// Builds the catalog from the root configuration and the root
    /// directory's listing.  A child directory is a config unless a
    /// stripped root-level exclude equals its name; resolution fails if
    /// any config's descriptor is missing or unreadable.
    ///
    /// `entries` must name each child once, as a directory listing does.
    pub fn resolve(root: RootConfiguration, entries: Vec<ScanEntry>) -> (r: Result<
        Structure,
        Error,
    >)
        requires
            forall|i: int, j: int|
                0 <= i < j < entries@.len() ==> #[trigger] entries@[i].name@
                    != #[trigger] entries@[j].name@,
        ensures
            r is Ok <==> descriptors_ok(stripped(strings_view(root.exclude@)), entries@),
            r matches Ok(s) ==> s.root == root && s.configs@ == catalog_of(
                stripped(strings_view(root.exclude@)),
                entries@,
            ) && s.wf(),
            r matches Err(e) ==> e@ == "could not read a config descriptor"@,
    {
        let ghost ex = stripped(strings_view(root.exclude@));
        let names: Vec<String> = stripped_excludes(&root);
        let mut configs: Vec<(String, Configuration)> = Vec::new();
        let ghost all = entries@;
        let mut rest = entries;
        let ghost k: int = 0;
        while rest.len() > 0
            invariant
                strings_view(names@) == ex,
                ex == stripped(strings_view(root.exclude@)),
                all == entries@,
                0 <= k <= all.len(),
                rest@ == all.skip(k),
                configs@ == catalog_of(ex, all.take(k)),
                forall|i2: int, j2: int|
                    0 <= i2 < j2 < all.len() ==> #[trigger] all[i2].name@ != #[trigger] all[j2].name@,
                forall|j2: int|
                    0 <= j2 < k && is_member(ex, #[trigger] all[j2]) ==> all[j2].descriptor
                        is Some,
                forall|j2: int|
                    0 <= j2 < configs@.len() ==> exists|m: int|
                        0 <= m < k && #[trigger] configs@[j2].0@ == all[m].name@,
                forall|i2: int, j2: int|
                    0 <= i2 < j2 < configs@.len() ==> #[trigger] configs@[i2].0@
                        != #[trigger] configs@[j2].0@,
            decreases rest@.len(),
        {
            let e = rest.remove(0);
            proof {
                assert(e == all[k]);
                assert(rest@ =~= all.skip(k + 1));
            }
            let member = e.is_dir && !contains_name(&names, &e.name);
            let ghost before = configs@;
            if member {
                let cfg = match e.descriptor {
                    Some(c) => c,
                    Option::None => {
                        assert(is_member(ex, all[k]) && all[k].descriptor is None);
                        return Err(Error::new("could not read a config descriptor"));
                    },
                };
                let name = e.name;
                configs.push((name, cfg));
                proof {
                    assert(configs@[before.len() as int].0@ == all[k].name@);
                    assert forall|i2: int, j2: int|
                        0 <= i2 < j2 < configs@.len() implies #[trigger] configs@[i2].0@
                        != #[trigger] configs@[j2].0@ by {
                        if j2 == before.len() {
                            let m = choose|m: int|
                                0 <= m < k && #[trigger] before[i2].0@ == all[m].name@;
                            assert(all[m].name@ != all[k].name@);
                        }
                    }
                }
            }
            proof {
                assert(all.take(k + 1).drop_last() =~= all.take(k));
                assert(all.take(k + 1).last() == all[k]);
                assert(configs@ == catalog_of(ex, all.take(k + 1)));
                k = k + 1;
            }
        }
        proof {
            assert(all.take(all.len() as int) =~= all);
            assert(configs@ == catalog_of(ex, all));
        }
        let s = Structure { root, configs };
        Ok(s)
    }
}

impl Structure {
    /// Whether the catalog holds a config of this name.
    pub fn contains(&self, name: &String) -> (r: bool)
        ensures
            r == self.spec_contains(name@),
    {
        let mut i: usize = 0;
        while i < self.configs.len()
            invariant
                i <= self.configs@.len(),
                forall|j: int| 0 <= j < i ==> #[trigger] self.configs@[j].0@ != name@,
            decreases self.configs@.len() - i,
        {
            if self.configs[i].0.eq(name) {
                assert(self.configs@[i as int].0@ == name@);
                return true;
            }
            i = i + 1;
        }
        false
    }

    /// The configuration registered under this name, if any.
    pub fn get(&self, name: &String) -> (r: Option<&Configuration>)
        ensures
            r is Some <==> self.spec_contains(name@),
            r matches Some(c) ==> exists|i: int|
                0 <= i < self.configs@.len() && #[trigger] self.configs@[i].0@ == name@ && c
                    == self.configs@[i].1,
    {
        let mut i: usize = 0;
        while i < self.configs.len()
            invariant
                i <= self.configs@.len(),
                forall|j: int| 0 <= j < i ==> #[trigger] self.configs@[j].0@ != name@,
            decreases self.configs@.len() - i,
        {
            if self.configs[i].0.eq(name) {
                assert(self.configs@[i as int].0@ == name@);
                return Some(&self.configs[i].1);
            }
            i = i + 1;
        }
        Option::None
    }
}

/// Turns an optional structure into the structure itself, or the error
/// reported when the repository's layout could not be resolved.
pub fn verify_structure(structure: Option<Structure>) -> (r: Result<Structure, Error>)
    ensures
        structure matches Some(s) ==> (r matches Ok(v) && v == s),
        structure is None ==> (r matches Err(e) && e@
            == "Structure of the dotfiles repository is invalid."@),
{
    match structure {
        Some(value) => Ok(value),
        Option::None => Err(Error::new("Structure of the dotfiles repository is invalid.")),
    }
}

/// A root-level exclude equal to a directory's name (after stripping one
/// trailing separator) keeps that directory out of the catalog, whatever
/// the directory holds.
pub proof fn lemma_root_exclude_bars_directory(
    root_exclude: Seq<Seq<char>>,
    entries: Seq<ScanEntry>,
    name: Seq<char>,
)
    requires
        stripped(root_exclude).contains(name),
    ensures
        forall|j: int|
            0 <= j < catalog_of(stripped(root_exclude), entries).len()
                ==> #[trigger] catalog_of(stripped(root_exclude), entries)[j].0@ != name,
    decreases entries.len(),
{
    let ex = stripped(root_exclude);
    if entries.len() > 0 {
        lemma_root_exclude_bars_directory(root_exclude, entries.drop_last(), name);
        let e = entries.last();
        if is_member(ex, e) {
            assert(catalog_of(ex, entries) == catalog_of(ex, entries.drop_last()).push(
                (e.name, e.descriptor.unwrap()),
            ));
            assert(e.name@ != name);
        }
    }
}

} // verus!
