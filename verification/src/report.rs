use vstd::prelude::*;

verus! {

use vstd::string::StrSliceExecFns;
use vstd::string::StringExecFns;
use crate::strings::dec_digits;
use crate::strings::u64_text;

/// The batch's closing line: a distinct message when no file reached the
/// attempted stage, otherwise the count of files attempted.
pub open spec fn summary_spec(count: nat) -> Seq<char> {
    if count == 0 {
        "No files were processed. Please check the glob pattern and file locations."@
    } else {
        "Processed "@ + dec_digits(count) + " file(s)."@
    }
}

/// Builds the batch's closing line for the number of files attempted.
pub fn batch_summary(count: usize) -> (r: String)
    ensures
        r@ == summary_spec(count as nat),
{
    if count == 0 {
        String::from_str(
            "No files were processed. Please check the glob pattern and file locations.",
        )
    } else {
        let digits = u64_text(count as u64);
        String::from_str("Processed ").concat(digits.as_str()).concat(" file(s).")
    }
}

} // verus!
