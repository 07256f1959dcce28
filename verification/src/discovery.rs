use vstd::prelude::*;

use crate::text::same_text;

verus! {

/// Directories that hold no benchmarks: Criterion's `reports` and hidden ones.
pub open spec fn skipped_directory(name: Seq<char>) -> bool {
    name == "reports"@ || (name.len() > 0 && name[0] == '.')
}

/// Whether the walk over a Criterion directory passes over the subdirectory `name`.
pub fn is_skipped_directory(name: &str) -> (b: bool)
    ensures
        b == skipped_directory(name@),
{
    if same_text(name, "reports") {
        return true;
    }
    name.unicode_len() > 0 && name.get_char(0) == '.'
}

/// `reports` and every name that starts with `.` are passed over; any other name,
/// the empty one included, is walked, whatever it holds after its first character;
/// so two names other than `reports` that start alike are passed over alike.
pub proof fn lemma_skipped_names(name: Seq<char>, other: Seq<char>)
    ensures
        skipped_directory("reports"@),
        name.len() > 0 && name[0] == '.' ==> skipped_directory(name),
        name != "reports"@ && (name.len() == 0 || name[0] != '.') ==> !skipped_directory(name),
        name != "reports"@ && other != "reports"@ && name.len() > 0 && other.len() > 0 && name[0]
            == other[0] ==> skipped_directory(name) == skipped_directory(other),
{
}

} // verus!
