//! Application payloads. The library never interprets their contents.
use bytes::Bytes;
use vstd::prelude::*;

use crate::codec::{bytes_clone, bytes_content, bytes_from_vec};

verus! {

/// Opaque application command payload.
#[derive(Debug, PartialEq, Eq)]
pub struct AppRecord {
    pub data: Bytes,
}

impl View for AppRecord {
    type V = Seq<u8>;

    open spec fn view(&self) -> Seq<u8> {
        bytes_content(self.data)
    }
}

impl Clone for AppRecord {
    fn clone(&self) -> (r: Self)
        ensures
            r@ == self@,
    {
        AppRecord { data: bytes_clone(&self.data) }
    }
}

impl AppRecord {
    pub fn new(data: Vec<u8>) -> (r: Self)
        ensures
            r@ == data@,
    {
        AppRecord { data: bytes_from_vec(data) }
    }
}

/// Opaque application snapshot payload.
#[derive(Debug, PartialEq, Eq)]
pub struct AppSnapshot {
    pub data: Vec<u8>,
}

impl View for AppSnapshot {
    type V = Seq<u8>;

    open spec fn view(&self) -> Seq<u8> {
        self.data@
    }
}

impl Clone for AppSnapshot {
    fn clone(&self) -> (r: Self)
        ensures
            r@ == self@,
    {
        let data = self.data.clone();
        assert(data@ =~= self.data@);
        AppSnapshot { data }
    }
}

impl AppSnapshot {
    pub fn new(data: Vec<u8>) -> (r: Self)
        ensures
            r@ == data@,
    {
        AppSnapshot { data }
    }
}

} // verus!
