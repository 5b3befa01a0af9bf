use vstd::prelude::*;

verus! {

/// Where a token sits in its source: the character offset of its first
/// character and the number of characters it spans.
#[derive(Debug, Clone, Copy, PartialEq, Eq, Structural)]
pub struct Ann {
    pub offset: usize,
    pub length: usize,
}

impl Ann {
    pub fn new(offset: usize, length: usize) -> (r: Ann)
        ensures
            r.offset == offset,
            r.length == length,
    {
        Ann { offset, length }
    }
}

} // verus!
