//! An owned byte buffer handed to scripts as an opaque value.

use vstd::prelude::*;

verus! {

/// A byte buffer. Its contents never change.
#[derive(Clone, Debug)]
pub struct BytesBox {
    bytes: Vec<u8>,
}

impl View for BytesBox {
    type V = Seq<u8>;

    closed spec fn view(&self) -> Seq<u8> {
        self.bytes@
    }
}

impl BytesBox {
    pub fn new(bytes: Vec<u8>) -> (r: BytesBox)
        ensures
            r@ == bytes@,
    {
        BytesBox { bytes }
    }

    pub fn as_bytes(&self) -> (r: &[u8])
        ensures
            r@ == self@,
    {
        self.bytes.as_slice()
    }

    pub fn len(&self) -> (r: usize)
        ensures
            r == self@.len(),
    {
        self.bytes.len()
    }
}

impl From<Vec<u8>> for BytesBox {
    fn from(bytes: Vec<u8>) -> (r: BytesBox) {
        BytesBox { bytes }
    }
}

impl vstd::std_specs::convert::FromSpecImpl<Vec<u8>> for BytesBox {
    open spec fn obeys_from_spec() -> bool {
        true
    }

    closed spec fn from_spec(bytes: Vec<u8>) -> BytesBox {
        BytesBox { bytes }
    }
}

} // verus!
