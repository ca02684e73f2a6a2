//! The editable rule record that the renaming engine works on.

use vstd::prelude::*;

verus! {

/// A single renaming rule: a pattern matched against an entry's full path,
/// a destination template that may reference the pattern's capture groups,
/// and the counts written back by the last count operation.
///
/// The counts are `None` until a count has run; they are advisory display
/// state only, and execution always re-evaluates matches live.
pub struct Rule {
    pub from: String,
    pub to: String,
    pub file_match_count: Option<usize>,
    pub dir_match_count: Option<usize>,
}

impl core::default::Default for Rule {
    /// A fresh rule: empty pattern, empty destination, no counts.
    fn default() -> (r: Rule)
        ensures
            r.from@ == Seq::<char>::empty(),
            r.to@ == Seq::<char>::empty(),
            r.file_match_count is None,
            r.dir_match_count is None,
    {
        Rule {
            from: String::new(),
            to: String::new(),
            file_match_count: None,
            dir_match_count: None,
        }
    }
}

} // verus!
