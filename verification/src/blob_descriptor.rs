//! Where the bytes of a blob lie.

use vstd::prelude::*;
use vstd::string::*;

verus! {

/// The bytes of a blob: `length` bytes of the file at `uri`, from `offset`
/// on. A length of -1 stands for all that follows.
#[derive(Debug)]
pub struct BlobDescriptor {
    uri: String,
    offset: i64,
    length: i64,
}

/// What a descriptor holds.
pub struct DescriptorView {
    pub uri: Seq<char>,
    pub offset: i64,
    pub length: i64,
}

impl View for BlobDescriptor {
    type V = DescriptorView;

    closed spec fn view(&self) -> DescriptorView {
        DescriptorView { uri: self.uri@, offset: self.offset, length: self.length }
    }
}

impl BlobDescriptor {
    pub fn new(uri: String, offset: i64, length: i64) -> (descriptor: Self)
        ensures
            descriptor@ == (DescriptorView { uri: uri@, offset, length }),
    {
        BlobDescriptor { uri, offset, length }
    }

    pub fn uri(&self) -> (uri: &str)
        ensures
            uri@ == self@.uri,
    {
        self.uri.as_str()
    }

    pub fn offset(&self) -> (offset: i64)
        ensures
            offset == self@.offset,
    {
        self.offset
    }

    pub fn length(&self) -> (length: i64)
        ensures
            length == self@.length,
    {
        self.length
    }
}

} // verus!
