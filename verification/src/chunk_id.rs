//! Where records live: the chunk that holds them and their byte span.

use vstd::prelude::*;

use crate::num::{spec_format_grouped, decimal};
use crate::text::push_str;

verus! {

/// A chunk of the WAL, named by the global offset it starts at.
#[derive(Debug, Clone, Copy, PartialEq, Eq, PartialOrd, Ord, Hash)]
pub struct ChunkId(pub u64);

impl ChunkId {
    /// Return the global offset this chunk starts at.
    pub fn offset(&self) -> (r: u64)
        ensures
            r == self.0,
    {
        self.0
    }

    /// The chunk that starts at `offset`.
    pub fn from_offset(offset: u64) -> (r: Self)
        ensures
            r.0 == offset,
    {
        ChunkId(offset)
    }

    /// `ChunkId(…)` around the offset, padded to 20 digits and grouped.
    pub open spec fn spec_display(self) -> Seq<char> {
        "ChunkId("@ + spec_format_grouped(self.0 as nat, 20) + ")"@
    }

    /// How the chunk id is displayed, e.g. `ChunkId(00_000_000_000_000_000_324)`.
    pub fn display(&self) -> (r: String)
        ensures
            r@ == self.spec_display(),
    {
        let mut s = String::new();
        push_str(&mut s, "ChunkId(");
        let n = crate::num::format_pad_u64(self.0);
        push_str(&mut s, n.as_str());
        push_str(&mut s, ")");
        s
    }
}

/// A span of bytes in the WAL: a global offset and a size.
#[derive(Debug, Clone, Copy, PartialEq, Eq, Default)]
pub struct Segment {
    pub offset: u64,
    pub size: u64,
}

impl Segment {
    pub fn new(offset: u64, size: u64) -> (r: Self)
        ensures
            r.offset == offset,
            r.size == size,
    {
        Segment { offset, size }
    }

    pub fn offset(&self) -> (r: u64)
        ensures
            r == self.offset,
    {
        self.offset
    }

    pub fn size(&self) -> (r: u64)
        ensures
            r == self.size,
    {
        self.size
    }

    /// The offset just past the span.
    pub fn end(&self) -> (r: u64)
        requires
            self.offset + self.size <= u64::MAX,
        ensures
            r == self.offset + self.size,
    {
        self.offset + self.size
    }

    /// How a size is displayed: `Size(n)`.
    pub open spec fn spec_size_display(self) -> Seq<char> {
        "Size("@ + decimal(self.size as nat) + ")"@
    }

    pub fn size_display(&self) -> (r: String)
        ensures
            r@ == self.spec_size_display(),
    {
        let mut s = String::new();
        push_str(&mut s, "Size(");
        let d = crate::num::decimal_chars(self.size);
        crate::text::push_chars(&mut s, &d);
        push_str(&mut s, ")");
        s
    }
}

} // verus!
