//! The one failure the formatting engine can report: an unrecognized
//! `keywords_case` value in the rule set.

use vstd::prelude::*;
use vstd::string::StringExecFns;

verus! {

/// A fatal configuration error: the rule set's `keywords_case` holds a value
/// other than the recognized `lower`/`lowercase`/`upper`/`uppercase`.
/// `value` is the offending text, so the caller can reproduce the diagnosis.
#[derive(Debug)]
pub struct FormatError {
    pub value: String,
}

impl FormatError {
    /// A human-readable description naming the offending value.
    pub fn message(&self) -> (r: String)
        ensures
            r@ == "Unsupported case : "@ + self.value@,
    {
        let mut r = String::from_str("Unsupported case : ");
        r.append(self.value.as_str());
        r
    }
}

} // verus!
