use vstd::prelude::*;

verus! {

/// Identifier of a file registered in a source context.
#[derive(Debug, Clone, Copy, PartialEq, Eq, Structural, Hash)]
pub struct FileId(pub usize);

} // verus!
