//! Byte sources: values that present their contents as a run of bytes.

use vstd::prelude::*;

verus! {

/// A value that can present its contents as a contiguous run of immutable bytes.
pub trait ByteSource {
    /// The bytes that the value presents.
    spec fn bytes(&self) -> Seq<u8>;

    /// Borrow the bytes as a slice.
    fn as_bytes(&self) -> (r: &[u8])
        ensures
            r@ == self.bytes(),
    ;
}

impl ByteSource for Vec<u8> {
    open spec fn bytes(&self) -> Seq<u8> {
        self@
    }

    fn as_bytes(&self) -> (r: &[u8]) {
        self.as_slice()
    }
}

impl<'a> ByteSource for &'a [u8] {
    open spec fn bytes(&self) -> Seq<u8> {
        (*self)@
    }

    fn as_bytes(&self) -> (r: &[u8]) {
        *self
    }
}

} // verus!
