//! The text of the outcome of a comparison.

use crate::serializer::formatter::Formatter;
use std::cmp::Ordering;
use vstd::prelude::*;
use vstd::string::StringExecFns;

verus! {

/// The tag that stands for `ordering`: a union without a body.
pub open spec fn ordering_text(ordering: Ordering) -> Seq<char> {
    match ordering {
        Ordering::Less => "#less"@,
        Ordering::Equal => "#equal"@,
        Ordering::Greater => "#greater"@,
    }
}

/// Writes the outcome of a comparison. The layout changes nothing in it.
pub fn ordering_to_aon(ordering: Ordering, _formatter: &Formatter) -> (text: String)
    ensures
        text@ == ordering_text(ordering),
{
    match ordering {
        Ordering::Less => String::from_str("#less"),
        Ordering::Equal => String::from_str("#equal"),
        Ordering::Greater => String::from_str("#greater"),
    }
}

} // verus!
