//! The answer to the question whether to go on with an output directory that
//! is not empty.

use crate::text::same_text;
use vstd::prelude::*;

verus! {

/// A line without the white space at its beginning and its end, as
/// `str::trim` gives it.
pub uninterp spec fn trimmed(line: Seq<char>) -> Seq<char>;

/// `str::trim`. Nothing is proved of it; its result has a name.
#[verifier::external_body]
pub(crate) fn trim(line: &str) -> (rest: &str)
    ensures
        rest@ == trimmed(line@),
{
    line.trim()
}

/// Whether an answer, already without the white space around it, says yes:
/// it does only if it is the single letter `y`.
pub fn is_yes(answer: &str) -> (yes: bool)
    ensures
        yes == (answer@ == seq!['y']),
{
    proof {
        reveal_strlit("y");
        assert("y"@ =~= seq!['y']);
    }
    same_text(answer, "y")
}

/// Whether the line that was read says yes. No line, because none could be
/// read, says no.
pub fn confirmed(line: Option<&str>) -> (yes: bool)
    ensures
        yes == match line {
            Some(l) => trimmed(l@) == seq!['y'],
            None => false,
        },
{
    match line {
        Some(l) => is_yes(trim(l)),
        None => false,
    }
}

} // verus!
