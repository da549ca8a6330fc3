//! The settings of a run, fixed before the first line is read.
use crate::comparator::Comparator;
use vstd::prelude::*;

verus! {

/// How lines are split, ordered and handled.
#[derive(Clone, Copy, Debug, PartialEq, Eq)]
pub struct Options {
    /// Separates fields when splitting (unless `white_space` is set) and
    /// always when joining.
    pub delim: char,
    /// Split on runs of white space instead of `delim`.
    pub white_space: bool,
    /// Compare the upper-case forms of fields.
    pub fold_case: bool,
    /// Accepted and kept; it changes nothing.
    pub numeric: bool,
    /// Invert the order.
    pub reverse: bool,
    /// Only check that each line is sorted; write nothing.
    pub check: bool,
}

impl Options {
    pub fn new(
        delim: char,
        white_space: bool,
        fold_case: bool,
        numeric: bool,
        reverse: bool,
        check: bool,
    ) -> (r: Options)
        ensures
            r == (Options { delim, white_space, fold_case, numeric, reverse, check }),
    {
        Options { delim, white_space, fold_case, numeric, reverse, check }
    }

    /// The ordering these options ask for.
    pub open spec fn spec_comparator(self) -> Comparator {
        Comparator { fold_case: self.fold_case, reverse: self.reverse }
    }

    pub fn comparator(&self) -> (r: Comparator)
        ensures
            r == self.spec_comparator(),
    {
        Comparator::new(self.fold_case, self.reverse)
    }
}

impl Default for Options {
    /// Tab as delimiter, every switch off.
    fn default() -> (r: Options)
        ensures
            r == (Options {
                delim: '\t',
                white_space: false,
                fold_case: false,
                numeric: false,
                reverse: false,
                check: false,
            }),
    {
        Options {
            delim: '\t',
            white_space: false,
            fold_case: false,
            numeric: false,
            reverse: false,
            check: false,
        }
    }
}

} // verus!
