//! Line-level diffs of two texts, used to present a modified file before
//! asking for confirmation.
//!
//! The diff itself is computed by the `similar` crate; what is relied on
//! is the fundamental diff property: the changes cover the old text's
//! lines and the new text's lines completely and in order.

use vstd::prelude::*;

verus! {

/// How one line of the diff changed.
#[derive(Debug, Clone, Copy, PartialEq, Eq, Structural)]
pub enum DiffTag {
    /// The line is present in both texts.
    Equal,
    /// The line is only in the old text.
    Delete,
    /// The line is only in the new text.
    Insert,
}

/// One line of the diff: its tag, its position in the old and in the new
/// text (when present there), and the line itself, terminator included.
#[derive(Debug, Clone)]
pub struct DiffChange {
    pub tag: DiffTag,
    pub old_index: Option<usize>,
    pub new_index: Option<usize>,
    pub text: String,
}

/// Where the line starting at `i` ends: just past its `"\n"`, `"\r\n"`
/// or lone `"\r"` terminator, or at the end of the text.
pub open spec fn line_end(s: Seq<char>, i: int) -> int
    decreases s.len() - i,
{
    if i < 0 || i >= s.len() {
        s.len() as int
    } else if s[i] == '\n' {
        i + 1
    } else if s[i] == '\r' {
        if i + 1 < s.len() && s[i + 1] == '\n' {
            i + 2
        } else {
            i + 1
        }
    } else {
        line_end(s, i + 1)
    }
}

proof fn lemma_line_end_pos(s: Seq<char>, i: int)
    requires
        0 <= i < s.len(),
    ensures
        i + 1 <= line_end(s, i) <= s.len(),
    decreases s.len() - i,
{
    if s[i] != '\n' && s[i] != '\r' {
        if i + 1 < s.len() {
            lemma_line_end_pos(s, i + 1);
        } else {
            assert(line_end(s, i + 1) == s.len());
        }
    }
}

/// The text split into lines, each keeping its terminator; a final piece
/// without a terminator is a line too, and an empty text has no lines.
pub open spec fn spec_lines(s: Seq<char>) -> Seq<Seq<char>>
    decreases s.len(),
    via spec_lines_decreases
{
    if s.len() == 0 {
        Seq::empty()
    } else {
        seq![s.subrange(0, line_end(s, 0))] + spec_lines(s.skip(line_end(s, 0)))
    }
}

#[via_fn]
proof fn spec_lines_decreases(s: Seq<char>) {
    if s.len() > 0 {
        lemma_line_end_pos(s, 0);
    }
}

/// The old text's side of a diff: the lines tagged `Equal` or `Delete`.
pub open spec fn old_side(changes: Seq<DiffChange>) -> Seq<Seq<char>> {
    changes.filter(|c: DiffChange| c.tag != DiffTag::Insert).map_values(
        |c: DiffChange| c.text@,
    )
}

/// The new text's side of a diff: the lines tagged `Equal` or `Insert`.
pub open spec fn new_side(changes: Seq<DiffChange>) -> Seq<Seq<char>> {
    changes.filter(|c: DiffChange| c.tag != DiffTag::Delete).map_values(
        |c: DiffChange| c.text@,
    )
}

/// A change's position among the old text's lines: how many changes
/// before it also belong to the old side.
pub open spec fn old_rank(changes: Seq<DiffChange>, j: int) -> int {
    changes.take(j).filter(|c: DiffChange| c.tag != DiffTag::Insert).len() as int
}

/// A change's position among the new text's lines.
pub open spec fn new_rank(changes: Seq<DiffChange>, j: int) -> int {
    changes.take(j).filter(|c: DiffChange| c.tag != DiffTag::Delete).len() as int
}

/// Whether every change carries its line's position on the side or sides
/// it belongs to, and no position on the other.
pub open spec fn indices_consistent(changes: Seq<DiffChange>) -> bool {
    forall|j: int|
        0 <= j < changes.len() ==> (#[trigger] changes[j]).old_index == (
        if changes[j].tag == DiffTag::Insert {
            Option::<usize>::None
        } else {
            Some(old_rank(changes, j) as usize)
        }) && changes[j].new_index == (
        if changes[j].tag == DiffTag::Delete {
            Option::<usize>::None
        } else {
            Some(new_rank(changes, j) as usize)
        })
}

/// Relies on `similar::TextDiff::from_lines` and `iter_all_changes`: the
/// emitted changes cover both inputs completely and in order, so the
/// values tagged `Equal` or `Delete` are exactly the old text's lines,
/// those tagged `Equal` or `Insert` exactly the new text's, and each
/// change's `old_index` and `new_index` are its positions among them.
#[verifier::external_body]
fn lines_diff(old: &str, new: &str) -> (r: Vec<DiffChange>)
    ensures
        old_side(r@) == spec_lines(old@),
        new_side(r@) == spec_lines(new@),
        indices_consistent(r@),
{
    let diff = similar::TextDiff::from_lines(old, new);
    let mut changes = Vec::new();
    for c in diff.iter_all_changes() {
        let tag = match c.tag() {
            similar::ChangeTag::Equal => DiffTag::Equal,
            similar::ChangeTag::Delete => DiffTag::Delete,
            similar::ChangeTag::Insert => DiffTag::Insert,
        };
        let (old_index, new_index) = (c.old_index(), c.new_index());
        changes.push(DiffChange { tag, old_index, new_index, text: c.value().to_string() });
    }
    changes
}

/// The line-level diff from `old` to `new`: dropping the inserted lines
/// restores `old`'s lines, dropping the deleted ones restores `new`'s,
/// and each change is numbered by its position on the side or sides it
/// belongs to.  For a modified file during a pull, `old` is the
/// repository's content and `new` the deployed target's.
pub fn diff_lines(old: &str, new: &str) -> (r: Vec<DiffChange>)
    ensures
        old_side(r@) == spec_lines(old@),
        new_side(r@) == spec_lines(new@),
        indices_consistent(r@),
{
    lines_diff(old, new)
}

} // verus!
