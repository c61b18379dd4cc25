//! The failures that abort a query.

use vstd::prelude::*;

verus! {

/// A failed precondition of a query.
#[derive(Clone, Copy, Debug, PartialEq, Eq, Structural)]
pub enum SearchError {
    /// The collection of views has no element.
    EmptyViewSet,
    /// The sample window round a position does not lie inside the image.
    OutOfBounds,
    /// The views differ in width, height or channel count.
    InconsistentViewGeometry,
}

impl SearchError {
    /// A description of the failure for a message to the user.
    pub fn describe(&self) -> (text: &'static str)
        ensures
            text@ == match *self {
                SearchError::EmptyViewSet => "the view set is empty"@,
                SearchError::OutOfBounds => "the patch window leaves the image"@,
                SearchError::InconsistentViewGeometry => "the views differ in size or channel count"@,
            },
    {
        match self {
            SearchError::EmptyViewSet => "the view set is empty",
            SearchError::OutOfBounds => "the patch window leaves the image",
            SearchError::InconsistentViewGeometry => "the views differ in size or channel count",
        }
    }
}

} // verus!
