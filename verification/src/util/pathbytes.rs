//! Paths as bytes.
use vstd::prelude::*;
use vstd::string::StringSliceAdditionalSpecFns;

verus! {

/// A path whose bytes are those of the file system.
pub trait AsUnixPathBytes {
    /// The bytes of the path.
    spec fn unix_bytes(&self) -> Seq<u8>;

    fn to_bytes(&self) -> (r: &[u8])
        ensures
            r@ == self.unix_bytes(),
    ;
}

impl AsUnixPathBytes for str {
    open spec fn unix_bytes(&self) -> Seq<u8> {
        self.spec_bytes()
    }

    fn to_bytes(&self) -> &[u8] {
        self.as_bytes()
    }
}

} // verus!
