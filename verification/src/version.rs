//! Semantic-version constraints: parsing, rendering and compatibility.
//!
//! A version string is either the literal `"*"` or
//! `<specifier?><major>.<minor>.<patch>` with an optional SemVer
//! pre-release / build-metadata suffix.  The suffix is recognized while
//! parsing but carried no further: comparisons use only the numeric triple.

use vstd::prelude::*;

use crate::err::Error;

verus! {

/// The constraint operator in front of a version's numeric triple.
///
/// `Unspecified` (no operator written) and `MatchMajor` (`^`) are distinct tags but
/// both compare by major-version equality; this overlap is kept on purpose.
#[derive(Debug, Clone, Copy, PartialEq, Eq, Structural)]
pub enum VersionSpecifier {
    Any,
    Unspecified,
    Equals,
    GreaterEquals,
    GreaterThan,
    LessEquals,
    LessThan,
    MatchMinor,
    MatchMajor,
}

/// A parsed version constraint: a specifier plus a numeric triple.
#[derive(Debug, Clone, Copy)]
pub struct Version {
    pub specifier: VersionSpecifier,
    pub major: u32,
    pub minor: u32,
    pub patch: u32,
}

/// Equality of the numeric triples; the specifier tags play no part.
pub open spec fn triple_eq(a: Version, b: Version) -> bool {
    a.major == b.major && a.minor == b.minor && a.patch == b.patch
}

/// Strict lexicographic order over (major, minor, patch).
pub open spec fn lex_lt(a: Version, b: Version) -> bool {
    ||| a.major < b.major
    ||| (a.major == b.major && a.minor < b.minor)
    ||| (a.major == b.major && a.minor == b.minor && a.patch < b.patch)
}

/// What `requirement.compatible(candidate)` decides, per the requirement's
/// specifier.  The four inequality specifiers compare the requirement's
/// triple against the candidate's lexicographically.
pub open spec fn spec_compatible(req: Version, cand: Version) -> bool {
    match req.specifier {
        VersionSpecifier::Any => true,
        VersionSpecifier::Unspecified => req.major == cand.major,
        VersionSpecifier::MatchMajor => req.major == cand.major,
        VersionSpecifier::Equals => triple_eq(req, cand),
        VersionSpecifier::GreaterEquals => lex_lt(cand, req) || triple_eq(req, cand),
        VersionSpecifier::GreaterThan => lex_lt(cand, req),
        VersionSpecifier::LessEquals => lex_lt(req, cand) || triple_eq(req, cand),
        VersionSpecifier::LessThan => lex_lt(req, cand),
        VersionSpecifier::MatchMinor => req.major == cand.major && req.minor == cand.minor,
    }
}

impl Version {
    /// Builds a version from its parts.
    pub fn new(specifier: VersionSpecifier, major: u32, minor: u32, patch: u32) -> (r: Version)
        ensures
            r == (Version { specifier, major, minor, patch }),
    {
        Version { specifier, major, minor, patch }
    }

    /// The wildcard constraint `"*"`: compatible with every candidate.
    pub fn any() -> (r: Version)
        ensures
            r == (Version { specifier: VersionSpecifier::Any, major: 0u32, minor: 0u32, patch: 0u32 }),
    {
        Version { specifier: VersionSpecifier::Any, major: 0, minor: 0, patch: 0 }
    }

    /// Whether the candidate `version` satisfies the constraint `self`.
    pub fn compatible(&self, version: &Version) -> (r: bool)
        ensures
            r == spec_compatible(*self, *version),
    {
        match self.specifier {
            VersionSpecifier::Any => true,
            VersionSpecifier::Unspecified | VersionSpecifier::MatchMajor => self.major == version.major,
            VersionSpecifier::Equals => {
                self.major == version.major && self.minor == version.minor && self.patch
                    == version.patch
            },
            VersionSpecifier::GreaterEquals => lt(version, self) || eq_triple(self, version),
            VersionSpecifier::GreaterThan => lt(version, self),
            VersionSpecifier::LessEquals => lt(self, version) || eq_triple(self, version),
            VersionSpecifier::LessThan => lt(self, version),
            VersionSpecifier::MatchMinor => {
                self.major == version.major && self.minor == version.minor
            },
        }
    }
}

impl PartialEq for Version {
    /// Versions are equal when their numeric triples are; the specifier
    /// tags play no part.
    fn eq(&self, other: &Version) -> (r: bool) {
        self.major == other.major && self.minor == other.minor && self.patch == other.patch
    }
}

impl vstd::std_specs::cmp::PartialEqSpecImpl for Version {
    open spec fn obeys_eq_spec() -> bool {
        true
    }

    open spec fn eq_spec(&self, other: &Version) -> bool {
        triple_eq(*self, *other)
    }
}

impl PartialOrd for Version {
    /// Versions order lexicographically over (major, minor, patch).
    fn partial_cmp(&self, other: &Version) -> (r: Option<core::cmp::Ordering>) {
        if self.major != other.major {
            if self.major < other.major {
                Some(core::cmp::Ordering::Less)
            } else {
                Some(core::cmp::Ordering::Greater)
            }
        } else if self.minor != other.minor {
            if self.minor < other.minor {
                Some(core::cmp::Ordering::Less)
            } else {
                Some(core::cmp::Ordering::Greater)
            }
        } else if self.patch != other.patch {
            if self.patch < other.patch {
                Some(core::cmp::Ordering::Less)
            } else {
                Some(core::cmp::Ordering::Greater)
            }
        } else {
            Some(core::cmp::Ordering::Equal)
        }
    }
}

impl vstd::std_specs::cmp::PartialOrdSpecImpl for Version {
    open spec fn obeys_partial_cmp_spec() -> bool {
        true
    }

    open spec fn partial_cmp_spec(&self, other: &Version) -> Option<core::cmp::Ordering> {
        if lex_lt(*self, *other) {
            Some(core::cmp::Ordering::Less)
        } else if lex_lt(*other, *self) {
            Some(core::cmp::Ordering::Greater)
        } else {
            Some(core::cmp::Ordering::Equal)
        }
    }
}

/// Lexicographic `a < b` on the numeric triples.
fn lt(a: &Version, b: &Version) -> (r: bool)
    ensures
        r == lex_lt(*a, *b),
{
    a.major < b.major || (a.major == b.major && (a.minor < b.minor || (a.minor == b.minor
        && a.patch < b.patch)))
}

/// Equality of the numeric triples.
fn eq_triple(a: &Version, b: &Version) -> (r: bool)
    ensures
        r == triple_eq(*a, *b),
{
    a.major == b.major && a.minor == b.minor && a.patch == b.patch
}

/// A decimal digit.
pub open spec fn is_digit(c: char) -> bool {
    48 <= c as int && c as int <= 57
}

/// The numeric value of a digit character.
pub open spec fn digit_val(c: char) -> int {
    c as int - 48
}

/// The value of a string of decimal digits (most significant first).
pub open spec fn num_val(s: Seq<char>) -> int
    decreases s.len(),
{
    if s.len() == 0 {
        0
    } else {
        num_val(s.drop_last()) * 10 + digit_val(s.last())
    }
}

/// A well-formed numeric component: nonempty, digits only, and no leading
/// zero except for `"0"` itself.
pub open spec fn is_num_str(s: Seq<char>) -> bool {
    &&& s.len() > 0
    &&& (forall|i: int| 0 <= i < s.len() ==> is_digit(s[i]))
    &&& (s.len() > 1 ==> s[0] != '0')
}

/// The end of the run of digits starting at `i`: the first position at or
/// after `i` holding a non-digit, or the end of the string.
pub open spec fn digits_end(s: Seq<char>, i: int) -> int
    decreases s.len() - i,
{
    if i < 0 || i >= s.len() || !is_digit(s[i]) {
        i
    } else {
        digits_end(s, i + 1)
    }
}

/// The first position at or after `i` holding `'+'`, or the end of the
/// string.
pub open spec fn plus_end(s: Seq<char>, i: int) -> int
    decreases s.len() - i,
{
    if i < 0 || i >= s.len() || s[i] == '+' {
        i
    } else {
        plus_end(s, i + 1)
    }
}

/// The first position at or after `i` holding `'.'`, or the end of the
/// string.
pub open spec fn chunk_end(s: Seq<char>, i: int) -> int
    decreases s.len() - i,
{
    if i < 0 || i >= s.len() || s[i] == '.' {
        i
    } else {
        chunk_end(s, i + 1)
    }
}

/// A character allowed in pre-release and build identifiers.
pub open spec fn is_ident_char(c: char) -> bool {
    ||| is_digit(c)
    ||| (97 <= c as int && c as int <= 122)
    ||| (65 <= c as int && c as int <= 90)
    ||| c == '-'
}

/// A dot-separated list shape: nonempty, and no empty piece between,
/// before or after the dots.
pub open spec fn dot_list_shape(s: Seq<char>) -> bool {
    &&& s.len() > 0
    &&& s[0] != '.'
    &&& s[s.len() - 1] != '.'
    &&& (forall|i: int| 0 <= i < s.len() - 1 && #[trigger] s[i] == '.' ==> s[i + 1] != '.')
}

/// The start of a dot-separated piece.
pub open spec fn is_chunk_start(s: Seq<char>, i: int) -> bool {
    &&& 0 <= i < s.len()
    &&& s[i] != '.'
    &&& (i == 0 || s[i - 1] == '.')
}

/// A single pre-release identifier: identifier characters only, and if it
/// is all digits it must not have a leading zero.
pub open spec fn is_prerelease_id(s: Seq<char>) -> bool {
    &&& s.len() > 0
    &&& (forall|i: int| 0 <= i < s.len() ==> is_ident_char(s[i]))
    &&& ((forall|i: int| 0 <= i < s.len() ==> is_digit(s[i])) && s.len() > 1 ==> s[0] != '0')
}

/// A single build-metadata identifier: identifier characters only.
pub open spec fn is_build_id(s: Seq<char>) -> bool {
    &&& s.len() > 0
    &&& (forall|i: int| 0 <= i < s.len() ==> is_ident_char(s[i]))
}

/// A dot-separated list of pre-release identifiers.
pub open spec fn is_prerelease_str(s: Seq<char>) -> bool {
    &&& dot_list_shape(s)
    &&& (forall|i: int| is_chunk_start(s, i) ==> is_prerelease_id(s.subrange(i, chunk_end(s, i))))
}

/// A dot-separated list of build-metadata identifiers.
pub open spec fn is_build_str(s: Seq<char>) -> bool {
    &&& dot_list_shape(s)
    &&& (forall|i: int| is_chunk_start(s, i) ==> is_build_id(s.subrange(i, chunk_end(s, i))))
}

/// A valid (possibly empty) SemVer suffix after the numeric triple:
/// `-<prerelease>`, `+<build>`, or `-<prerelease>+<build>`.  Identifiers
/// never contain `'+'`, so the first `'+'` separates the two parts.
pub open spec fn suffix_ok(s: Seq<char>) -> bool {
    if s.len() == 0 {
        true
    } else if s[0] == '-' {
        let p = plus_end(s, 1);
        &&& is_prerelease_str(s.subrange(1, p))
        &&& (p < s.len() ==> is_build_str(s.subrange(p + 1, s.len() as int)))
    } else if s[0] == '+' {
        is_build_str(s.subrange(1, s.len() as int))
    } else {
        false
    }
}

/// How many leading characters the specifier written in `s` takes.
/// `">"` and `"<"` extend to two characters when followed by `'='`.
pub open spec fn tag_len(s: Seq<char>) -> int {
    if s.len() == 0 {
        0
    } else if s[0] == '>' || s[0] == '<' {
        if s.len() >= 2 && s[1] == '=' {
            2
        } else {
            1
        }
    } else if s[0] == '=' || s[0] == '~' || s[0] == '^' {
        1
    } else {
        0
    }
}

/// The specifier written at the front of `s`.
pub open spec fn tag_of(s: Seq<char>) -> VersionSpecifier {
    if s.len() == 0 {
        VersionSpecifier::Unspecified
    } else if s[0] == '>' {
        if s.len() >= 2 && s[1] == '=' {
            VersionSpecifier::GreaterEquals
        } else {
            VersionSpecifier::GreaterThan
        }
    } else if s[0] == '<' {
        if s.len() >= 2 && s[1] == '=' {
            VersionSpecifier::LessEquals
        } else {
            VersionSpecifier::LessThan
        }
    } else if s[0] == '=' {
        VersionSpecifier::Equals
    } else if s[0] == '~' {
        VersionSpecifier::MatchMinor
    } else if s[0] == '^' {
        VersionSpecifier::MatchMajor
    } else {
        VersionSpecifier::Unspecified
    }
}

/// What parsing a version string yields: `"*"` is the wildcard; otherwise
/// an optional specifier, three dot-separated numeric components that must
/// each fit in 32 bits, and an optional SemVer suffix.
pub open spec fn spec_parse(s: Seq<char>) -> Option<Version> {
    if s.len() == 1 && s[0] == '*' {
        Some(Version { specifier: VersionSpecifier::Any, major: 0, minor: 0, patch: 0 })
    } else {
        let t = tag_len(s);
        let e1 = digits_end(s, t);
        let e2 = digits_end(s, e1 + 1);
        let e3 = digits_end(s, e2 + 1);
        let a = s.subrange(t, e1);
        let b = s.subrange(e1 + 1, e2);
        let c = s.subrange(e2 + 1, e3);
        if {
            &&& is_num_str(a)
            &&& e1 < s.len() && s[e1] == '.'
            &&& is_num_str(b)
            &&& e2 < s.len() && s[e2] == '.'
            &&& is_num_str(c)
            &&& num_val(a) <= u32::MAX
            &&& num_val(b) <= u32::MAX
            &&& num_val(c) <= u32::MAX
            &&& suffix_ok(s.subrange(e3, s.len() as int))
        } {
            Some(
                Version {
                    specifier: tag_of(s),
                    major: num_val(a) as u32,
                    minor: num_val(b) as u32,
                    patch: num_val(c) as u32,
                },
            )
        } else {
            Option::None
        }
    }
}

proof fn lemma_digits_end_range(s: Seq<char>, i: int)
    requires
        0 <= i <= s.len(),
    ensures
        i <= digits_end(s, i) <= s.len(),
        forall|m: int| i <= m < digits_end(s, i) ==> is_digit(s[m]),
        digits_end(s, i) < s.len() ==> !is_digit(s[digits_end(s, i)]),
    decreases s.len() - i,
{
    if i < s.len() && is_digit(s[i]) {
        lemma_digits_end_range(s, i + 1);
    }
}

proof fn lemma_digits_end_is(s: Seq<char>, i: int, j: int)
    requires
        0 <= i <= j <= s.len(),
        forall|m: int| i <= m < j ==> is_digit(s[m]),
        j == s.len() || !is_digit(s[j]),
    ensures
        digits_end(s, i) == j,
    decreases j - i,
{
    if i < j {
        lemma_digits_end_is(s, i + 1, j);
    }
}

proof fn lemma_plus_end_is(s: Seq<char>, i: int, j: int)
    requires
        0 <= i <= j <= s.len(),
        forall|m: int| i <= m < j ==> s[m] != '+',
        j == s.len() || s[j] == '+',
    ensures
        plus_end(s, i) == j,
    decreases j - i,
{
    if i < j {
        lemma_plus_end_is(s, i + 1, j);
    }
}

proof fn lemma_chunk_end_is(s: Seq<char>, i: int, j: int)
    requires
        0 <= i <= j <= s.len(),
        forall|m: int| i <= m < j ==> s[m] != '.',
        j == s.len() || s[j] == '.',
    ensures
        chunk_end(s, i) == j,
    decreases j - i,
{
    if i < j {
        lemma_chunk_end_is(s, i + 1, j);
    }
}

proof fn lemma_num_val_extend(s: Seq<char>, i: int, k: int)
    requires
        0 <= i <= k < s.len(),
    ensures
        num_val(s.subrange(i, k + 1)) == num_val(s.subrange(i, k)) * 10 + digit_val(s[k]),
{
    assert(s.subrange(i, k + 1).drop_last() =~= s.subrange(i, k));
    assert(s.subrange(i, k + 1).last() == s[k]);
}

proof fn lemma_num_val_nonneg(s: Seq<char>)
    requires
        forall|m: int| 0 <= m < s.len() ==> is_digit(s[m]),
    ensures
        num_val(s) >= 0,
    decreases s.len(),
{
    if s.len() > 0 {
        lemma_num_val_nonneg(s.drop_last());
    }
}

/// The value of a run of digits only grows as the run extends to the right.
proof fn lemma_num_val_prefix_le(s: Seq<char>, i: int, k: int, j: int)
    requires
        0 <= i <= k <= j <= s.len(),
        forall|m: int| i <= m < j ==> is_digit(s[m]),
    ensures
        num_val(s.subrange(i, k)) <= num_val(s.subrange(i, j)),
    decreases j - k,
{
    if k < j {
        lemma_num_val_prefix_le(s, i, k, j - 1);
        lemma_num_val_extend(s, i, j - 1);
        lemma_num_val_nonneg(s.subrange(i, j - 1));
        assert(forall|m: int| 0 <= m < j - 1 - i ==> is_digit(#[trigger] s.subrange(i, j - 1)[m]));
    }
}

fn exec_is_digit(c: char) -> (r: bool)
    ensures
        r == is_digit(c),
{
    let d: u32 = c as u32;
    48 <= d && d <= 57
}

fn exec_is_ident_char(c: char) -> (r: bool)
    ensures
        r == is_ident_char(c),
{
    let d: u32 = c as u32;
    (48 <= d && d <= 57) || (97 <= d && d <= 122) || (65 <= d && d <= 90) || c == '-'
}

/// Whether position `j` holds a digit (`false` at the end of the string).
fn digit_at(s: &str, n: usize, j: usize) -> (r: bool)
    requires
        n == s@.len(),
        j <= n,
    ensures
        r == (j < n && is_digit(s@[j as int])),
{
    if j < n {
        exec_is_digit(s.get_char(j))
    } else {
        false
    }
}

/// Scans the run of digits starting at `i`.
fn scan_digits(s: &str, n: usize, i: usize) -> (j: usize)
    requires
        n == s@.len(),
        i <= n,
    ensures
        i <= j <= n,
        j == digits_end(s@, i as int),
{
    let mut j: usize = i;
    while digit_at(s, n, j)
        invariant
            n == s@.len(),
            i <= j <= n,
            forall|m: int| i <= m < j ==> is_digit(s@[m]),
        decreases n - j,
    {
        j = j + 1;
    }
    proof {
        lemma_digits_end_is(s@, i as int, j as int);
    }
    j
}

/// Reads the numeric component starting at `i`: returns where its digit
/// run ends, and its value if it is well formed and fits in 32 bits.
fn parse_num(s: &str, n: usize, i: usize) -> (r: (usize, Option<u32>))
    requires
        n == s@.len(),
        i <= n,
    ensures
        i <= r.0 <= n,
        r.0 == digits_end(s@, i as int),
        ({
            let chunk = s@.subrange(i as int, r.0 as int);
            &&& (r.1 is Some <==> is_num_str(chunk) && num_val(chunk) <= u32::MAX)
            &&& (r.1 matches Some(v) ==> v == num_val(chunk))
        }),
{
    let j: usize = scan_digits(s, n, i);
    proof {
        lemma_digits_end_range(s@, i as int);
    }
    let ghost chunk = s@.subrange(i as int, j as int);
    if j == i {
        return (j, Option::None);
    }
    if j - i > 1 && s.get_char(i) == '0' {
        assert(!is_num_str(chunk));
        return (j, Option::None);
    }
    let mut val: u32 = 0;
    let mut k: usize = i;
    while k < j
        invariant
            n == s@.len(),
            i <= k <= j <= n,
            j == digits_end(s@, i as int),
            chunk == s@.subrange(i as int, j as int),
            forall|m: int| i <= m < j ==> is_digit(s@[m]),
            val == num_val(s@.subrange(i as int, k as int)),
        decreases j - k,
    {
        let d: u32 = s.get_char(k) as u32 - 48;
        let wide: u64 = val as u64 * 10 + d as u64;
        proof {
            lemma_num_val_extend(s@, i as int, k as int);
        }
        if wide > u32::MAX as u64 {
            proof {
                lemma_num_val_prefix_le(s@, i as int, k as int + 1, j as int);
            }
            return (j, Option::None);
        }
        val = wide as u32;
        k = k + 1;
    }
    assert(is_num_str(chunk));
    (j, Some(val))
}

/// Validates one dot-free identifier chunk `s[cs..ce]` against the
/// pre-release rules (`pre == true`) or the build-metadata rules.
fn check_chunk(s: &str, n: usize, cs: usize, ce: usize, pre: bool) -> (r: bool)
    requires
        n == s@.len(),
        cs <= ce <= n,
    ensures
        ({
            let chunk = s@.subrange(cs as int, ce as int);
            r == if pre {
                is_prerelease_id(chunk)
            } else {
                is_build_id(chunk)
            }
        }),
{
    let ghost chunk = s@.subrange(cs as int, ce as int);
    if cs == ce {
        return false;
    }
    let mut all_digits: bool = true;
    let mut k: usize = cs;
    while k < ce
        invariant
            n == s@.len(),
            cs <= k <= ce <= n,
            chunk == s@.subrange(cs as int, ce as int),
            forall|m: int| cs <= m < k ==> is_ident_char(s@[m]),
            all_digits == (forall|m: int| cs <= m < k ==> is_digit(s@[m])),
        decreases ce - k,
    {
        let c = s.get_char(k);
        if !exec_is_ident_char(c) {
            assert(chunk[k - cs] == s@[k as int]);
            return false;
        }
        all_digits = all_digits && exec_is_digit(c);
        k = k + 1;
    }
    assert(forall|m: int| 0 <= m < chunk.len() ==> chunk[m] == s@[cs + m]);
    if pre && all_digits && ce - cs > 1 && s.get_char(cs) == '0' {
        assert(forall|m: int| 0 <= m < chunk.len() ==> is_digit(chunk[m]));
        return false;
    }
    if pre {
        assert((forall|m: int| 0 <= m < chunk.len() ==> is_digit(chunk[m])) && chunk.len() > 1
            ==> chunk[0] != '0') by {
            if (forall|m: int| 0 <= m < chunk.len() ==> is_digit(chunk[m])) && chunk.len() > 1 {
                assert(forall|m: int| cs <= m < ce ==> is_digit(s@[m])) by {
                    assert(forall|m: int| cs <= m < ce ==> is_digit(#[trigger] s@[m])
                        == is_digit(chunk[m - cs]));
                }
            }
        }
    }
    true
}

/// Whether position `j` (below `to`) holds anything but a dot.
fn nondot_at(s: &str, n: usize, to: usize, j: usize) -> (r: bool)
    requires
        n == s@.len(),
        j <= to <= n,
    ensures
        r == (j < to && s@[j as int] != '.'),
{
    if j < to {
        s.get_char(j) != '.'
    } else {
        false
    }
}

/// Scans from `i` up to the next dot, or to `to`.
fn scan_dot(s: &str, n: usize, to: usize, i: usize) -> (j: usize)
    requires
        n == s@.len(),
        i <= to <= n,
    ensures
        i <= j <= to,
        forall|m: int| i <= m < j ==> s@[m] != '.',
        j < to ==> s@[j as int] == '.',
    decreases to - i,
{
    let mut j: usize = i;
    while nondot_at(s, n, to, j)
        invariant
            n == s@.len(),
            i <= j <= to <= n,
            forall|m: int| i <= m < j ==> s@[m] != '.',
        decreases to - j,
    {
        j = j + 1;
    }
    j
}

/// Validates `s[from..to]` as a dot-separated list of pre-release
/// (`pre == true`) or build-metadata identifiers.
fn check_ids(s: &str, n: usize, from: usize, to: usize, pre: bool) -> (r: bool)
    requires
        n == s@.len(),
        from <= to <= n,
    ensures
        ({
            let seg = s@.subrange(from as int, to as int);
            r == if pre {
                is_prerelease_str(seg)
            } else {
                is_build_str(seg)
            }
        }),
{
    let ghost seg = s@.subrange(from as int, to as int);
    proof {
        assert(forall|m: int| 0 <= m < seg.len() ==> seg[m] == s@[from + m]);
    }
    if from == to {
        return false;
    }
    let mut k: usize = from;
    while k < to
        invariant
            n == s@.len(),
            from <= k < to <= n,
            seg == s@.subrange(from as int, to as int),
            k == from || s@[k - 1] == '.',
            from < k ==> s@[from as int] != '.',
            forall|m: int| from <= m < k - 1 && #[trigger] s@[m] == '.' ==> s@[m + 1] != '.',
            forall|jj: int|
                is_chunk_start(seg, jj) && jj < k - from ==> if pre {
                    is_prerelease_id(seg.subrange(jj, chunk_end(seg, jj)))
                } else {
                    is_build_id(seg.subrange(jj, chunk_end(seg, jj)))
                },
        ensures
            if pre {
                is_prerelease_str(seg)
            } else {
                is_build_str(seg)
            },
        decreases to - k,
    {
        let j: usize = scan_dot(s, n, to, k);
        if j == k {
            // an empty piece: a leading dot or two dots in a row
            assert(s@[k as int] == '.');
            assert(seg[k - from] == '.');
            proof {
                if k > from {
                    assert(seg[k - 1 - from] == '.');
                }
            }
            assert(!dot_list_shape(seg));
            return false;
        }
        if !check_chunk(s, n, k, j, pre) {
            proof {
                lemma_chunk_end_is(seg, k - from, j - from);
                assert(seg.subrange(k - from, j - from) =~= s@.subrange(k as int, j as int));
                assert(is_chunk_start(seg, k - from));
            }
            return false;
        }
        proof {
            lemma_chunk_end_is(seg, k - from, j - from);
            assert(seg.subrange(k - from, j - from) =~= s@.subrange(k as int, j as int));
            assert(is_chunk_start(seg, k - from));
        }
        if j == to {
            // final piece checked; the whole segment is valid
            proof {
                assert forall|jj: int| is_chunk_start(seg, jj) implies jj <= k - from by {
                    if jj > k - from {
                        assert(seg[jj - 1] == s@[from + jj - 1]);
                    }
                }
            }
            break;
        }
        if j + 1 == to {
            // a trailing dot
            assert(seg[seg.len() - 1] == s@[j as int]);
            return false;
        }
        proof {
            assert forall|jj: int|
                is_chunk_start(seg, jj) && jj < j + 1 - from && jj > k - from implies false by {
                assert(seg[jj - 1] == s@[from + jj - 1]);
            }
        }
        k = j + 1;
    }
    true
}

/// Validates the tail `s[i..]` as a SemVer suffix.
fn check_suffix(s: &str, n: usize, i: usize) -> (r: bool)
    requires
        n == s@.len(),
        i <= n,
    ensures
        r == suffix_ok(s@.subrange(i as int, n as int)),
{
    let ghost suf = s@.subrange(i as int, n as int);
    proof {
        assert(forall|m: int| 0 <= m < suf.len() ==> suf[m] == s@[i + m]);
    }
    if i == n {
        return true;
    }
    let c = s.get_char(i);
    if c == '-' {
        let mut p: usize = i + 1;
        while nonplus_at(s, n, p)
            invariant
                n == s@.len(),
                i + 1 <= p <= n,
                forall|m: int| i + 1 <= m < p ==> s@[m] != '+',
            decreases n - p,
        {
            p = p + 1;
        }
        proof {
            lemma_plus_end_is(suf, 1, p - i);
        }
        let pre_ok = check_ids(s, n, i + 1, p, true);
        proof {
            assert(suf.subrange(1, p - i) =~= s@.subrange(i + 1, p as int));
        }
        if !pre_ok {
            return false;
        }
        if p < n {
            let build_ok = check_ids(s, n, p + 1, n, false);
            proof {
                assert(suf.subrange(p - i + 1, suf.len() as int) =~= s@.subrange(
                    p + 1,
                    n as int,
                ));
            }
            build_ok
        } else {
            true
        }
    } else if c == '+' {
        let build_ok = check_ids(s, n, i + 1, n, false);
        proof {
            assert(suf.subrange(1, suf.len() as int) =~= s@.subrange(i + 1, n as int));
        }
        build_ok
    } else {
        false
    }
}

/// Whether position `j` holds anything but `'+'` (`false` at the end).
fn nonplus_at(s: &str, n: usize, j: usize) -> (r: bool)
    requires
        n == s@.len(),
        j <= n,
    ensures
        r == (j < n && s@[j as int] != '+'),
{
    if j < n {
        s.get_char(j) != '+'
    } else {
        false
    }
}

impl Version {
    /// Parses a version string: either `"*"` or
    /// `<specifier?><major>.<minor>.<patch>` with an optional SemVer
    /// suffix.  Returns an error on any other input, including numeric
    /// components that do not fit in 32 bits.
    pub fn parse(text: &str) -> (r: Result<Version, Error>)
        ensures
            r is Ok <==> spec_parse(text@) is Some,
            r matches Ok(v) ==> spec_parse(text@) == Some(v),
            r matches Err(e) ==> e@ == "could not parse version"@,
    {
        let n: usize = text.unicode_len();
        if n == 1 && text.get_char(0) == '*' {
            return Ok(Version::any());
        }
        let mut t: usize = 0;
        let mut sp = VersionSpecifier::Unspecified;
        if n > 0 {
            let c0 = text.get_char(0);
            if c0 == '>' {
                if n >= 2 && text.get_char(1) == '=' {
                    t = 2;
                    sp = VersionSpecifier::GreaterEquals;
                } else {
                    t = 1;
                    sp = VersionSpecifier::GreaterThan;
                }
            } else if c0 == '<' {
                if n >= 2 && text.get_char(1) == '=' {
                    t = 2;
                    sp = VersionSpecifier::LessEquals;
                } else {
                    t = 1;
                    sp = VersionSpecifier::LessThan;
                }
            } else if c0 == '=' {
                t = 1;
                sp = VersionSpecifier::Equals;
            } else if c0 == '~' {
                t = 1;
                sp = VersionSpecifier::MatchMinor;
            } else if c0 == '^' {
                t = 1;
                sp = VersionSpecifier::MatchMajor;
            }
        }
        assert(t == tag_len(text@));
        assert(sp == tag_of(text@));
        let (e1, va) = parse_num(text, n, t);
        let major = match va {
            Some(v) => v,
            Option::None => {
                return Err(Error::new("could not parse version"));
            },
        };
        if e1 == n || text.get_char(e1) != '.' {
            return Err(Error::new("could not parse version"));
        }
        let (e2, vb) = parse_num(text, n, e1 + 1);
        let minor = match vb {
            Some(v) => v,
            Option::None => {
                return Err(Error::new("could not parse version"));
            },
        };
        if e2 == n || text.get_char(e2) != '.' {
            return Err(Error::new("could not parse version"));
        }
        let (e3, vc) = parse_num(text, n, e2 + 1);
        let patch = match vc {
            Some(v) => v,
            Option::None => {
                return Err(Error::new("could not parse version"));
            },
        };
        if !check_suffix(text, n, e3) {
            return Err(Error::new("could not parse version"));
        }
        Ok(Version { specifier: sp, major, minor, patch })
    }
}

/// The digit character for a value in `0..10`.
pub open spec fn digit_char(d: int) -> char {
    ((48 + d) as u8) as char
}

/// The decimal digit string of a nonnegative number, most significant
/// digit first.
pub open spec fn dec_rep(n: int) -> Seq<char>
    recommends
        n >= 0,
    decreases n,
{
    if n < 10 {
        seq![digit_char(n)]
    } else {
        dec_rep(n / 10).push(digit_char(n % 10))
    }
}

/// The characters written for a specifier.
pub open spec fn spec_tag_str(sp: VersionSpecifier) -> Seq<char> {
    match sp {
        VersionSpecifier::Any => seq!['*'],
        VersionSpecifier::Unspecified => Seq::empty(),
        VersionSpecifier::Equals => seq!['='],
        VersionSpecifier::GreaterEquals => seq!['>', '='],
        VersionSpecifier::GreaterThan => seq!['>'],
        VersionSpecifier::LessEquals => seq!['<', '='],
        VersionSpecifier::LessThan => seq!['<'],
        VersionSpecifier::MatchMinor => seq!['~'],
        VersionSpecifier::MatchMajor => seq!['^'],
    }
}

/// The string a version is written back as: `"*"` for the wildcard,
/// otherwise the specifier followed by the dotted numeric triple.
pub open spec fn spec_serialize(v: Version) -> Seq<char> {
    if v.specifier == VersionSpecifier::Any {
        seq!['*']
    } else {
        spec_tag_str(v.specifier) + dec_rep(v.major as int) + seq!['.'] + dec_rep(v.minor as int)
            + seq!['.'] + dec_rep(v.patch as int)
    }
}

/// The characters spelled by a sequence of bytes below 128.
pub open spec fn chars_of(b: Seq<u8>) -> Seq<char> {
    b.map_values(|x: u8| x as char)
}

/// Relies on `String::from_utf8`: bytes below 128 are one-byte UTF-8
/// sequences, so they decode to exactly those characters.
#[verifier::external_body]
fn ascii_to_string(bytes: Vec<u8>) -> (r: String)
    requires
        forall|i: int| 0 <= i < bytes@.len() ==> bytes@[i] < 128,
    ensures
        r@ == chars_of(bytes@),
{
    match String::from_utf8(bytes) {
        Ok(s) => s,
        Err(_) => String::new(),
    }
}

/// Appends the decimal digits of `x` to `bytes`.
fn push_dec(bytes: &mut Vec<u8>, x: u32)
    ensures
        chars_of(final(bytes)@) == chars_of(old(bytes)@) + dec_rep(x as int),
        final(bytes)@.len() >= old(bytes)@.len(),
        forall|i: int|
            old(bytes)@.len() <= i < final(bytes)@.len() ==> 48 <= #[trigger] final(bytes)@[i]
                <= 57,
        forall|i: int| 0 <= i < old(bytes)@.len() ==> final(bytes)@[i] == old(bytes)@[i],
{
    let mut rev: Vec<u8> = Vec::new();
    let mut cur: u32 = x;
    loop
        invariant_except_break
            dec_rep(x as int) == dec_rep(cur as int) + chars_of(rev@).reverse(),
            forall|m: int| 0 <= m < rev@.len() ==> 48 <= #[trigger] rev@[m] <= 57,
        ensures
            dec_rep(x as int) == chars_of(rev@).reverse(),
            rev@.len() >= 1,
            forall|m: int| 0 <= m < rev@.len() ==> 48 <= #[trigger] rev@[m] <= 57,
        decreases cur,
    {
        let d: u8 = (cur % 10) as u8 + 48;
        let ghost old_rev = rev@;
        rev.push(d);
        proof {
            assert(chars_of(rev@) =~= chars_of(old_rev).push(digit_char(cur as int % 10)));
            if cur >= 10 {
                assert(dec_rep(cur as int) == dec_rep(cur as int / 10).push(
                    digit_char(cur as int % 10),
                ));
            }
            assert(chars_of(rev@).reverse() =~= seq![digit_char(cur as int % 10)] + chars_of(
                old_rev,
            ).reverse());
        }
        if cur < 10 {
            proof {
                assert(dec_rep(cur as int) == seq![digit_char(cur as int)]);
                assert(dec_rep(x as int) =~= chars_of(rev@).reverse());
            }
            break;
        }
        proof {
            assert(dec_rep(x as int) =~= dec_rep(cur as int / 10) + chars_of(rev@).reverse());
        }
        cur = cur / 10;
    }
    let ghost start = bytes@;
    let mut idx: usize = rev.len();
    while idx > 0
        invariant
            idx <= rev@.len(),
            bytes@.len() == start.len() + (rev@.len() - idx),
            forall|m: int| 0 <= m < start.len() ==> bytes@[m] == start[m],
            forall|m: int|
                0 <= m < rev@.len() - idx ==> #[trigger] bytes@[start.len() + m] == rev@[rev@.len()
                    - 1 - m],
            forall|m: int| 0 <= m < rev@.len() ==> 48 <= #[trigger] rev@[m] <= 57,
        decreases idx,
    {
        idx = idx - 1;
        let b: u8 = rev[idx];
        bytes.push(b);
    }
    proof {
        assert forall|m: int| start.len() <= m < bytes@.len() implies bytes@[m] == rev@[rev@.len()
            - 1 - (m - start.len())] by {
            assert(bytes@[start.len() + (m - start.len())] == rev@[rev@.len() - 1 - (m
                - start.len())]);
        }
        assert(chars_of(bytes@) =~= chars_of(start) + chars_of(rev@).reverse());
        assert(chars_of(bytes@) =~= chars_of(start) + dec_rep(x as int));
    }
}

impl Version {
    /// Writes the version back as a string: `"*"` when the specifier is
    /// the wildcard, otherwise `<specifier><major>.<minor>.<patch>`.  Any
    /// suffix seen while parsing is not reproduced.
    pub fn to_version_string(&self) -> (r: String)
        ensures
            r@ == spec_serialize(*self),
    {
        let mut bytes: Vec<u8> = Vec::new();
        match self.specifier {
            VersionSpecifier::Any => {
                bytes.push(42);
                assert(chars_of(bytes@) =~= seq!['*']);
                return ascii_to_string(bytes);
            },
            VersionSpecifier::Unspecified => {},
            VersionSpecifier::Equals => {
                bytes.push(61);
            },
            VersionSpecifier::GreaterEquals => {
                bytes.push(62);
                bytes.push(61);
            },
            VersionSpecifier::GreaterThan => {
                bytes.push(62);
            },
            VersionSpecifier::LessEquals => {
                bytes.push(60);
                bytes.push(61);
            },
            VersionSpecifier::LessThan => {
                bytes.push(60);
            },
            VersionSpecifier::MatchMinor => {
                bytes.push(126);
            },
            VersionSpecifier::MatchMajor => {
                bytes.push(94);
            },
        }
        assert(chars_of(bytes@) =~= spec_tag_str(self.specifier));
        push_dec(&mut bytes, self.major);
        let ghost after_major = bytes@;
        bytes.push(46);
        proof {
            assert(chars_of(bytes@) =~= chars_of(after_major) + seq!['.']);
        }
        push_dec(&mut bytes, self.minor);
        let ghost after_minor = bytes@;
        bytes.push(46);
        proof {
            assert(chars_of(bytes@) =~= chars_of(after_minor) + seq!['.']);
        }
        push_dec(&mut bytes, self.patch);
        assert(chars_of(bytes@) == spec_serialize(*self));
        assert(forall|i: int| 0 <= i < bytes@.len() ==> bytes@[i] < 128);
        ascii_to_string(bytes)
    }
}

proof fn lemma_dec_rep_props(n: int)
    requires
        n >= 0,
    ensures
        dec_rep(n).len() >= 1,
        forall|i: int| 0 <= i < dec_rep(n).len() ==> is_digit(#[trigger] dec_rep(n)[i]),
        num_val(dec_rep(n)) == n,
        n > 0 ==> dec_rep(n)[0] != '0',
        is_num_str(dec_rep(n)),
    decreases n,
{
    if n < 10 {
        let s = dec_rep(n);
        assert(s == seq![digit_char(n)]);
        assert(s.drop_last() =~= Seq::<char>::empty());
        assert(num_val(Seq::<char>::empty()) == 0);
        assert(num_val(s) == digit_val(digit_char(n)));
    } else {
        vstd::arithmetic::div_mod::lemma_fundamental_div_mod(n, 10);
        assert(n / 10 < n) by {
            vstd::arithmetic::div_mod::lemma_div_is_ordered_by_denominator(n, 1, 10);
        }
        lemma_dec_rep_props(n / 10);
        let s = dec_rep(n);
        assert(s == dec_rep(n / 10).push(digit_char(n % 10)));
        assert(s.drop_last() =~= dec_rep(n / 10));
        assert(num_val(s) == num_val(dec_rep(n / 10)) * 10 + digit_val(digit_char(n % 10)));
        assert(s[0] == dec_rep(n / 10)[0]);
    }
}

/// Writing a version back and parsing the result restores the version
/// exactly, except that a wildcard specifier always comes back as
/// `"*"`, that is, as the wildcard with the zero triple.
pub proof fn lemma_serialize_then_parse(v: Version)
    ensures
        spec_parse(spec_serialize(v)) == Some(
            if v.specifier == VersionSpecifier::Any {
                Version { specifier: VersionSpecifier::Any, major: 0, minor: 0, patch: 0 }
            } else {
                v
            },
        ),
{
    let s = spec_serialize(v);
    if v.specifier == VersionSpecifier::Any {
        assert(s.len() == 1 && s[0] == '*');
    } else {
        let tg = spec_tag_str(v.specifier);
        let a = dec_rep(v.major as int);
        let b = dec_rep(v.minor as int);
        let c = dec_rep(v.patch as int);
        lemma_dec_rep_props(v.major as int);
        lemma_dec_rep_props(v.minor as int);
        lemma_dec_rep_props(v.patch as int);
        let t = tg.len() as int;
        let e1 = t + a.len();
        let e2 = e1 + 1 + b.len();
        let e3 = e2 + 1 + c.len();
        assert(s.len() == e3);
        assert(forall|m: int| 0 <= m < t ==> s[m] == tg[m]);
        assert(forall|m: int| t <= m < e1 ==> s[m] == a[m - t]);
        assert(s[e1] == '.');
        assert(forall|m: int| e1 + 1 <= m < e2 ==> s[m] == b[m - (e1 + 1)]);
        assert(s[e2] == '.');
        assert(forall|m: int| e2 + 1 <= m < e3 ==> s[m] == c[m - (e2 + 1)]);
        // the first character after the specifier is a digit, so the
        // written specifier is read back as written
        assert(is_digit(s[t]));
        assert(tag_len(s) == t);
        assert(tag_of(s) == v.specifier);
        lemma_digits_end_is(s, t, e1);
        lemma_digits_end_is(s, e1 + 1, e2);
        lemma_digits_end_is(s, e2 + 1, e3);
        assert(s.subrange(t, e1) =~= a);
        assert(s.subrange(e1 + 1, e2) =~= b);
        assert(s.subrange(e2 + 1, e3) =~= c);
        assert(s.subrange(e3, s.len() as int) =~= Seq::<char>::empty());
        assert(suffix_ok(s.subrange(e3, s.len() as int)));
        assert(!(s.len() == 1 && s[0] == '*'));
        assert(spec_parse(s) == Some(v));
    }
}

/// Parsing a valid version string and writing the result back yields a
/// string that parses to the same specifier and numeric triple; the bare
/// wildcard `"*"` likewise round-trips to the wildcard version.
pub proof fn lemma_parse_serialize_round_trip(s: Seq<char>, v: Version)
    requires
        spec_parse(s) == Some(v),
    ensures
        spec_parse(spec_serialize(v)) == Some(v),
{
    lemma_serialize_then_parse(v);
}

/// An `Equals` constraint is satisfied by its own triple, and an `Any`
/// constraint is satisfied by every candidate, `0.0.0` included.
pub proof fn lemma_compatible_reflexive(v: Version, cand: Version)
    ensures
        v.specifier == VersionSpecifier::Equals ==> spec_compatible(v, v),
        v.specifier == VersionSpecifier::Any ==> spec_compatible(v, cand),
{
}

} // verus!
