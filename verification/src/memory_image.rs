//! The guest memory that a program starts with.

use vstd::prelude::*;

verus! {

/// The initial contents of guest memory: the words at the addresses that are set.
#[verifier::external_body]
#[derive(Debug)]
pub struct MemoryImage {
    words: hashbrown::HashMap<u64, u64>,
}

/// The words of an image, by address.
pub uninterp spec fn image_words(image: MemoryImage) -> Map<u64, u64>;

impl MemoryImage {
    /// Calls `hashbrown::HashMap::new`: no address is set.
    #[verifier::external_body]
    pub(crate) fn new() -> (image: Self)
        ensures
            (image_words(image) == Map::<u64, u64>::empty()),
    {
        MemoryImage { words: hashbrown::HashMap::new() }
    }
}

} // verus!
