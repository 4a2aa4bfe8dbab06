//! What a run asks for.

use vstd::prelude::*;

use crate::diag::Code;
use crate::text::{contains, spec_contains};

verus! {

/// What a run asks for.
#[derive(Debug, Clone)]
pub struct Options {
    /// Report a public sub with no annotation.
    pub strict_annotations: bool,
    /// Codes this project has turned off.
    pub disabled: Vec<Code>,
    /// Classes a value is held of for its destructor, beyond the ones the
    /// checker knows.
    pub guard_classes: Vec<String>,
}

impl Default for Options {
    fn default() -> (o: Options)
        ensures
            !o.strict_annotations,
            o.disabled@.len() == 0,
            o.guard_classes@.len() == 0,
    {
        Options { strict_annotations: false, disabled: Vec::new(), guard_classes: Vec::new() }
    }
}

impl Options {
    /// What a fixture asks for, read from where it lives: a fixture under a
    /// path naming `strict-annotations` asks for it, so that no marker inside
    /// the file is needed.
    pub fn for_fixture(path: &str) -> (o: Options)
        ensures
            o.strict_annotations == spec_contains(path@, "strict-annotations"@),
            o.disabled@.len() == 0,
            o.guard_classes@.len() == 0,
    {
        Options { strict_annotations: contains(path, "strict-annotations"), disabled: Vec::new(), guard_classes: Vec::new() }
    }

    /// Whether the run turned `code` off.
    pub fn is_disabled(&self, code: Code) -> (r: bool)
        ensures
            r == self.disabled@.contains(code),
    {
        let mut i: usize = 0;
        while i < self.disabled.len()
            invariant
                i <= self.disabled@.len(),
                forall|j: int| 0 <= j < i ==> self.disabled@[j] != code,
            decreases self.disabled@.len() - i,
        {
            if self.disabled[i] == code {
                return true;
            }
            i += 1;
        }
        false
    }
}

} // verus!
