//! What can go wrong around the cutter, and what a run does about it.

use vstd::prelude::*;

verus! {

/// The kinds of failure of a run.
#[derive(Clone, Copy, Debug, PartialEq, Eq, Structural)]
pub enum FailureKind {
    /// An image file cannot be read or decoded.
    ImageDecodeFailure,
    /// A sprite cannot be encoded or written.
    ImageSaveFailure,
    /// The output directory cannot be created, or the input directory cannot
    /// be listed.
    DirectoryAccessFailure,
}

/// What a run does after a failure.
#[derive(Clone, Copy, Debug, PartialEq, Eq, Structural)]
pub enum Reaction {
    /// The run ends with the failure.
    AbortRun,
    /// The failure is reported, the image is given up, and the run goes on
    /// with the next image. Nothing is tried again.
    SkipImage,
}

impl FailureKind {
    /// Whether a failure of this kind ends the run: a failure of a directory
    /// does, a failure of a single image does not.
    pub open spec fn is_fatal(self) -> bool {
        self == FailureKind::DirectoryAccessFailure
    }

    /// The reaction that a failure of this kind calls for.
    pub fn reaction(&self) -> (r: Reaction)
        ensures
            self.is_fatal() ==> r == Reaction::AbortRun,
            !self.is_fatal() ==> r == Reaction::SkipImage,
    {
        match self {
            FailureKind::DirectoryAccessFailure => Reaction::AbortRun,
            FailureKind::ImageDecodeFailure => Reaction::SkipImage,
            FailureKind::ImageSaveFailure => Reaction::SkipImage,
        }
    }
}

} // verus!
