//! Buffers into other holders of bytes.
use vstd::prelude::*;
use vstd::std_specs::convert::FromSpecImpl;
use super::buffer::Data;

verus! {

impl From<Data> for Vec<u8> {
    /// The bytes of `data`.
    fn from(data: Data) -> (r: Vec<u8>) {
        data.bytes
    }
}

impl FromSpecImpl<Data> for Vec<u8> {
    open spec fn obeys_from_spec() -> bool {
        true
    }

    open spec fn from_spec(data: Data) -> Vec<u8> {
        data.bytes
    }
}

} // verus!
