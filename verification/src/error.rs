use vstd::prelude::*;

verus! {

/// A usage error detected by a selector registry.
///
/// Both variants report a violated precondition of the evaluation-pass
/// protocol: the set of selectors an observer declares must be identical in
/// number, kind and order on every pass. They indicate a programming error
/// in the observer, never a data error, so they are not recoverable.
#[derive(Clone, Copy, Debug, PartialEq, Eq, Structural)]
pub enum StoreError {
    /// The number of selectors declared in the current pass differs from the
    /// number declared in the first pass.
    SelectorCountMismatch,
    /// A selector of one kind (value or reference) was declared at a
    /// position that held a selector of the other kind in the first pass.
    SelectorKindMismatch,
}

impl StoreError {
    /// A human-readable description of the violated precondition.
    pub fn message(&self) -> (r: &'static str)
        ensures
            *self is SelectorCountMismatch ==> r@ == spec_count_mismatch_message(),
            *self is SelectorKindMismatch ==> r@ == spec_kind_mismatch_message(),
    {
        match self {
            StoreError::SelectorCountMismatch => {
                "selectors must be declared unconditionally: the number of selectors changed between evaluation passes"
            },
            StoreError::SelectorKindMismatch => {
                "selectors must be declared in the same order every evaluation pass: a value selector and a reference selector swapped positions"
            },
        }
    }
}

/// The text reported for a selector count mismatch.
pub open spec fn spec_count_mismatch_message() -> Seq<char> {
    "selectors must be declared unconditionally: the number of selectors changed between evaluation passes"@
}

/// The text reported for a selector kind mismatch.
pub open spec fn spec_kind_mismatch_message() -> Seq<char> {
    "selectors must be declared in the same order every evaluation pass: a value selector and a reference selector swapped positions"@
}

} // verus!
