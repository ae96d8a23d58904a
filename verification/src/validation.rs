//! The course-code allow-list: a fixed, small set of acceptable codes.
//! Anything outside the list, the empty string included, is rejected.

use vstd::prelude::*;

verus! {

/// A course code is acceptable iff it is one of the fixed allow-list entries.
pub open spec fn valid_course_code(code: Seq<char>) -> bool {
    ||| code == "OTHER"@
    ||| code == "COMP7082"@
    ||| code == "COMP7035"@
    ||| code == "COMP7071"@
    ||| code == "COMP7003"@
    ||| code == "MATH7808"@
}

/// Membership test against the allow-list. Pure: no side effects, no errors.
pub fn is_valid_course_code(code: &str) -> (r: bool)
    ensures
        r == valid_course_code(code@),
{
    let c: String = code.to_owned();
    c == String::from_str("OTHER") || c == String::from_str("COMP7082") || c == String::from_str(
        "COMP7035",
    ) || c == String::from_str("COMP7071") || c == String::from_str("COMP7003") || c
        == String::from_str("MATH7808")
}

} // verus!
