//! Run-tiling builder for decoders that walk a decoded string in lockstep
//! with the source bytes it came from.
//!
//! Feed a [`ProvenanceBuilder`] a sequence of `verbatim` / `replacement`
//! calls describing how content bytes were produced from source bytes, in
//! content order; `finish()` emits a `SourceInfo` that is contiguous when it
//! safely can be, and a `Concat` otherwise.

use std::ops::Range;
use std::sync::Arc;
use vstd::prelude::*;

use crate::source_info::{share, SourceInfo, SourcePiece};
use crate::types::FileId;

verus! {

/// Where a builder's pieces are rooted: directly in a file, or as
/// substrings of a parent `SourceInfo` (which may itself be a `Concat`).
pub enum Root {
    File(FileId),
    Parent(Arc<SourceInfo>),
}

/// One accumulated piece, before it is turned into a `SourcePiece`.
///
/// `verbatim` is what the caller asserted by the method it called (source
/// and content bytes identical); it is never re-derived from `src_range`
/// and `content_len`.
pub struct Piece {
    pub src_range: Range<usize>,
    pub content_len: usize,
    pub verbatim: bool,
}

/// Builds a `SourceInfo` by tiling a decoded string's content against the
/// source bytes it came from.
///
/// Construct with [`ProvenanceBuilder::in_file`] or
/// [`ProvenanceBuilder::in_parent`], describe the decode with
/// [`verbatim`](Self::verbatim) and [`replacement`](Self::replacement) calls
/// in content order, then call [`finish`](Self::finish).
pub struct ProvenanceBuilder {
    root: Root,
    anchor: usize,
    pieces: Vec<Piece>,
}

/// The abstract state of a [`ProvenanceBuilder`]: its root, its anchor and
/// the pieces accumulated so far, in content order.
pub struct BuilderModel {
    pub root: Root,
    pub anchor: usize,
    pub pieces: Seq<Piece>,
}

impl View for ProvenanceBuilder {
    type V = BuilderModel;

    closed spec fn view(&self) -> BuilderModel {
        BuilderModel { root: self.root, anchor: self.anchor, pieces: self.pieces@ }
    }
}

/// The number of bytes in `r`: `end - start`, or 0 for a reversed range.
pub open spec fn range_len(r: Range<usize>) -> nat {
    if r.start <= r.end {
        (r.end - r.start) as nat
    } else {
        0
    }
}

/// The leaf `SourceInfo` for `[start, end)` in `root`'s coordinate space:
/// an `Original` range of the file, or a `Substring` of the parent.
pub open spec fn leaf_in(root: Root, start: usize, end: usize) -> SourceInfo {
    match root {
        Root::File(file_id) => SourceInfo::Original {
            file_id,
            start_offset: start,
            end_offset: end,
        },
        Root::Parent(parent) => SourceInfo::Substring {
            parent,
            start_offset: start,
            end_offset: end,
        },
    }
}

impl BuilderModel {
    /// A piece for `src_range` merges into the last piece: both are
    /// verbatim and the last piece's source range ends where `src_range`
    /// starts.
    pub open spec fn coalesces(self, src_range: Range<usize>, verbatim: bool) -> bool {
        &&& verbatim
        &&& self.pieces.len() > 0
        &&& self.pieces.last().verbatim
        &&& self.pieces.last().src_range.end == src_range.start
    }

    /// Recording the piece keeps every content length within a `usize`.
    pub open spec fn push_fits(self, src_range: Range<usize>, content_len: nat, verbatim: bool) -> bool {
        self.coalesces(src_range, verbatim) ==> self.pieces.last().content_len + content_len
            <= usize::MAX
    }

    /// The state after recording `src_range` decoding to `content_len`
    /// content bytes: merged into the last piece where it coalesces,
    /// appended as a new piece otherwise.
    pub open spec fn pushed(self, src_range: Range<usize>, content_len: nat, verbatim: bool) -> BuilderModel {
        let last = self.pieces.last();
        BuilderModel {
            root: self.root,
            anchor: self.anchor,
            pieces: if self.coalesces(src_range, verbatim) {
                self.pieces.update(
                    self.pieces.len() - 1,
                    Piece {
                        src_range: Range { start: last.src_range.start, end: src_range.end },
                        content_len: (last.content_len + content_len) as usize,
                        verbatim: true,
                    },
                )
            } else {
                self.pieces.push(Piece { src_range, content_len: content_len as usize, verbatim })
            },
        }
    }

    /// The pieces tile their source contiguously: each piece's source range
    /// starts where the previous one ends (no gap, no overlap).
    pub open spec fn tiles(self) -> bool {
        forall|i: int|
            #![trigger self.pieces[i]]
            0 <= i < self.pieces.len() - 1 ==> self.pieces[i].src_range.end == self.pieces[i
                + 1].src_range.start
    }

    /// The leaf for `[start, end)` in this builder's root.
    pub open spec fn leaf(self, start: usize, end: usize) -> SourceInfo {
        leaf_in(self.root, start, end)
    }

    /// The list collapses to one leaf: it is empty, or it is exactly one
    /// verbatim piece.
    pub open spec fn collapses(self) -> bool {
        self.pieces.len() == 0 || (self.pieces.len() == 1 && self.pieces[0].verbatim)
    }

    /// `r` is what `finish` emits for this state: a zero-length leaf at the
    /// anchor for no pieces; the piece's own leaf for exactly one verbatim
    /// piece; otherwise a `Concat` with one piece per accumulated piece, each
    /// the leaf of that piece's source range with that piece's content
    /// length.
    pub open spec fn emits(self, r: SourceInfo) -> bool {
        if self.pieces.len() == 0 {
            r == self.leaf(self.anchor, self.anchor)
        } else if self.pieces.len() == 1 && self.pieces[0].verbatim {
            r == self.leaf(self.pieces[0].src_range.start, self.pieces[0].src_range.end)
        } else {
            &&& r matches SourceInfo::Concat { pieces }
            &&& pieces@.len() == self.pieces.len()
            &&& forall|i: int|
                #![trigger pieces@[i]]
                0 <= i < self.pieces.len() ==> pieces@[i] == (SourcePiece {
                    source_info: self.leaf(
                        self.pieces[i].src_range.start,
                        self.pieces[i].src_range.end,
                    ),
                    length: self.pieces[i].content_len,
                })
        }
    }
}

impl ProvenanceBuilder {
    /// Start a builder whose pieces are `Original` ranges directly in
    /// `file_id`.
    ///
    /// `anchor` is the scalar's span start; `finish()` uses it when the
    /// piece list ends up empty, since an empty piece list has no source
    /// range to infer a position from.
    pub fn in_file(file_id: FileId, anchor: usize) -> (b: Self)
        ensures
            b@ == (BuilderModel { root: Root::File(file_id), anchor, pieces: Seq::empty() }),
    {
        ProvenanceBuilder { root: Root::File(file_id), anchor, pieces: Vec::new() }
    }

    /// Start a builder whose pieces are `Substring` ranges over `parent`.
    ///
    /// `parent` may itself be a `Concat`: the builder never resolves
    /// absolute positions out of `parent`, so any shape is fine. `anchor` is
    /// the scalar's span start, in `parent`'s coordinate space.
    pub fn in_parent(parent: SourceInfo, anchor: usize) -> (b: Self)
        ensures
            b@.root matches Root::Parent(p) && *p == parent,
            b@.anchor == anchor,
            b@.pieces == Seq::<Piece>::empty(),
    {
        ProvenanceBuilder { root: Root::Parent(Arc::new(parent)), anchor, pieces: Vec::new() }
    }

    /// Record `src_range.len()` source bytes decoding to that many content
    /// bytes, unchanged.
    ///
    /// This is the caller's assertion of byte identity. Adjacent `verbatim`
    /// calls whose source ranges abut are merged; a `replacement` never
    /// coalesces with anything.
    pub fn verbatim(&mut self, src_range: Range<usize>)
        requires
            old(self)@.push_fits(src_range, range_len(src_range), true),
        ensures
            final(self)@ == old(self)@.pushed(src_range, range_len(src_range), true),
    {
        let content_len: usize = if src_range.start <= src_range.end {
            src_range.end - src_range.start
        } else {
            0
        };
        self.push(src_range, content_len, true);
    }

    /// Record `src_range.len()` source bytes decoding to `out_len` content
    /// bytes, where source and content are not asserted to be
    /// byte-identical.
    ///
    /// `out_len == 0` is a deletion. An empty `src_range` with
    /// `out_len > 0` is synthesis: content with no corresponding source
    /// byte.
    pub fn replacement(&mut self, src_range: Range<usize>, out_len: usize)
        ensures
            final(self)@ == old(self)@.pushed(src_range, out_len as nat, false),
    {
        self.push(src_range, out_len, false);
    }

    fn push(&mut self, src_range: Range<usize>, content_len: usize, verbatim: bool)
        requires
            old(self)@.push_fits(src_range, content_len as nat, verbatim),
        ensures
            final(self)@ == old(self)@.pushed(src_range, content_len as nat, verbatim),
    {
        let n = self.pieces.len();
        if verbatim && n > 0 && self.pieces[n - 1].verbatim && self.pieces[n - 1].src_range.end
            == src_range.start {
            let start = self.pieces[n - 1].src_range.start;
            let merged_len = self.pieces[n - 1].content_len + content_len;
            self.pieces.set(
                n - 1,
                Piece { src_range: start..src_range.end, content_len: merged_len, verbatim: true },
            );
            return ;
        }
        self.pieces.push(Piece { src_range, content_len, verbatim });
    }

    /// Emit the tiled `SourceInfo`: an `Original` / `Substring` leaf if the
    /// piece list is empty (zero-length, at the anchor) or is exactly one
    /// verbatim piece, a `Concat` otherwise.
    ///
    /// Nothing weaker may collapse: a 2->1 replacement collapsing would break
    /// the length invariant, and a 1->1 fold collapsing would license copying
    /// its source bytes for its (different) content bytes. Positions are
    /// always built from a piece's own source range, never resolved out of
    /// the root.
    pub fn finish(self) -> (r: SourceInfo)
        requires
            self@.tiles(),
        ensures
            self@.emits(r),
    {
        let n = self.pieces.len();
        if n == 0 {
            return self.leaf(self.anchor, self.anchor);
        }
        if n == 1 && self.pieces[0].verbatim {
            return self.leaf(self.pieces[0].src_range.start, self.pieces[0].src_range.end);
        }
        let mut concat_pieces: Vec<(SourceInfo, usize)> = Vec::new();
        let mut i: usize = 0;
        while i < n
            invariant
                n == self.pieces@.len(),
                i <= n,
                concat_pieces@.len() == i,
                forall|j: int|
                    #![trigger concat_pieces@[j]]
                    0 <= j < i ==> concat_pieces@[j] == (
                        self@.leaf(self.pieces@[j].src_range.start, self.pieces@[j].src_range.end),
                        self.pieces@[j].content_len,
                    ),
            decreases n - i,
        {
            let leaf = self.leaf(self.pieces[i].src_range.start, self.pieces[i].src_range.end);
            concat_pieces.push((leaf, self.pieces[i].content_len));
            i = i + 1;
        }
        SourceInfo::concat(concat_pieces)
    }

    /// The leaf `SourceInfo` (`Original` or `Substring`) over `[start, end)`
    /// in the root's coordinate space.
    fn leaf(&self, start: usize, end: usize) -> (r: SourceInfo)
        ensures
            r == self@.leaf(start, end),
    {
        match &self.root {
            Root::File(file_id) => SourceInfo::Original {
                file_id: *file_id,
                start_offset: start,
                end_offset: end,
            },
            Root::Parent(parent) => SourceInfo::Substring {
                parent: share(parent),
                start_offset: start,
                end_offset: end,
            },
        }
    }
}

} // verus!
