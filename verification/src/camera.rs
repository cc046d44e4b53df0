//! The camera that the autoguider shoots with.
use vstd::prelude::*;

verus! {

/// A camera reached through the `gphoto2` command; it holds no state of its
/// own.
pub struct Camera {}

impl Camera {
    /// The camera.
    pub fn new() -> (res: Camera)
        ensures
            res == (Camera {}),
    {
        Camera {}
    }
}

} // verus!
