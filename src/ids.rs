use vstd::prelude::*;
use crate::bytes::bytes_equal;
use crate::vpath::copy_bytes;

verus! {

/// A content-addressed image identifier: a fixed-length byte string.
#[derive(Debug, Clone)]
pub struct ImageId {
    pub bytes: Vec<u8>,
}

impl View for ImageId {
    type V = Seq<u8>;

    open spec fn view(&self) -> Seq<u8> {
        self.bytes@
    }
}

impl ImageId {
    pub fn from_bytes(b: &[u8]) -> (r: ImageId)
        ensures
            r@ == b@,
    {
        ImageId { bytes: copy_bytes(b) }
    }

    /// Byte equality of two image ids.
    pub fn same(&self, other: &ImageId) -> (r: bool)
        ensures
            r == (self@ == other@),
    {
        bytes_equal(self.bytes.as_slice(), other.bytes.as_slice())
    }

    pub fn copy(&self) -> (r: ImageId)
        ensures
            r@ == self@,
    {
        ImageId::from_bytes(self.bytes.as_slice())
    }
}

/// A fixed-width digest.
#[derive(Debug, Clone)]
pub struct Hash {
    pub bytes: Vec<u8>,
}

impl View for Hash {
    type V = Seq<u8>;

    open spec fn view(&self) -> Seq<u8> {
        self.bytes@
    }
}

impl Hash {
    pub fn same(&self, other: &Hash) -> (r: bool)
        ensures
            r == (self@ == other@),
    {
        bytes_equal(self.bytes.as_slice(), other.bytes.as_slice())
    }
}

} // verus!
