use crate::Image;
use vstd::prelude::*;

verus! {

/// A programme that shows one image for ever.
pub struct Still {
    image: Image,
}

impl Still {
    /// The image that this programme shows.
    pub closed spec fn shown(self) -> Image {
        self.image
    }

    pub(crate) fn new(image: Image) -> (still: Still)
        ensures
            still.shown() == image,
    {
        Still { image }
    }

    pub(crate) fn image(&self) -> (image: Image)
        ensures
            image == self.shown(),
    {
        self.image
    }
}

} // verus!
