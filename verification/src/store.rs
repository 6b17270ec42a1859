//! The source image and its keeper.
//!
//! The image is loaded once and from then on only looked at. Whoever works on
//! it holds the store exclusively for as long as the work takes, so no two
//! pieces of work on it ever run at once; a caller that serves several
//! requests at a time keeps the store behind a lock and lets them wait their
//! turn. The work gets the image to read and cannot change it.

use vstd::prelude::*;

verus! {

/// The keeper of the source image. `T` is whatever holds the pixels.
pub struct ImageStore<T> {
    image: T,
}

impl<T> ImageStore<T> {
    /// The image in the store.
    pub closed spec fn image(&self) -> T {
        self.image
    }

    /// A store that holds `image`.
    pub fn new(image: T) -> (store: Self)
        ensures
            store.image() == image,
    {
        ImageStore { image }
    }

    /// Runs `work` on the stored image and hands back what it made, be that a
    /// result or a failure. The store is held exclusively meanwhile, and the
    /// image in it is afterwards what it was before.
    pub fn with_source_image<R, F: FnOnce(&T) -> R>(&mut self, work: F) -> (made: R)
        requires
            work.requires((&old(self).image(),)),
        ensures
            work.ensures((&old(self).image(),), made),
            final(self).image() == old(self).image(),
    {
        work(&self.image)
    }
}

} // verus!
