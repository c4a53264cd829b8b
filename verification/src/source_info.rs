//! `SourceInfo`: a location plus the transformation that produced it.

use std::sync::Arc;
use vstd::prelude::*;

use crate::types::FileId;

verus! {

/// Where a piece of text came from.
///
/// Offsets are byte offsets. `Original` is a range of a registered file,
/// `Substring` a range of the text that `parent` describes (in `parent`'s
/// own coordinate space), and `Concat` the concatenation of its pieces in
/// order.
#[derive(Debug, PartialEq)]
pub enum SourceInfo {
    Original { file_id: FileId, start_offset: usize, end_offset: usize },
    Substring { parent: Arc<SourceInfo>, start_offset: usize, end_offset: usize },
    Concat { pieces: Vec<SourcePiece> },
}

/// One piece of a `Concat`: where it came from, and how many bytes of the
/// concatenated text it accounts for.
#[derive(Debug, PartialEq)]
pub struct SourcePiece {
    pub source_info: SourceInfo,
    pub length: usize,
}

/// The sum of the `length` fields of `pieces`.
pub open spec fn pieces_length(pieces: Seq<SourcePiece>) -> int
    decreases pieces.len(),
{
    if pieces.len() == 0 {
        0
    } else {
        pieces_length(pieces.drop_last()) + pieces.last().length
    }
}

/// A prefix of a piece list never accounts for more bytes than the whole list.
pub proof fn lemma_pieces_length_prefix(pieces: Seq<SourcePiece>, k: int)
    requires
        0 <= k <= pieces.len(),
    ensures
        0 <= pieces_length(pieces.take(k)) <= pieces_length(pieces),
    decreases pieces.len(),
{
    if pieces.len() > 0 {
        if k == pieces.len() {
            assert(pieces.take(k) =~= pieces);
            lemma_pieces_length_prefix(pieces.drop_last(), k - 1);
            assert(pieces.drop_last().take(k - 1) =~= pieces.drop_last());
        } else {
            lemma_pieces_length_prefix(pieces.drop_last(), k);
            assert(pieces.drop_last().take(k) =~= pieces.take(k));
        }
    }
}

impl SourceInfo {
    /// The number of bytes of text this `SourceInfo` describes.
    pub open spec fn spec_length(self) -> int {
        match self {
            SourceInfo::Original { start_offset, end_offset, .. } => end_offset - start_offset,
            SourceInfo::Substring { start_offset, end_offset, .. } => end_offset - start_offset,
            SourceInfo::Concat { pieces } => pieces_length(pieces@),
        }
    }

    /// The start offset of an `Original` or `Substring` leaf (0 for a
    /// `Concat`).
    pub open spec fn leaf_start(self) -> int {
        match self {
            SourceInfo::Original { start_offset, .. } => start_offset as int,
            SourceInfo::Substring { start_offset, .. } => start_offset as int,
            SourceInfo::Concat { .. } => 0,
        }
    }

    /// The end offset of an `Original` or `Substring` leaf (0 for a
    /// `Concat`).
    pub open spec fn leaf_end(self) -> int {
        match self {
            SourceInfo::Original { end_offset, .. } => end_offset as int,
            SourceInfo::Substring { end_offset, .. } => end_offset as int,
            SourceInfo::Concat { .. } => 0,
        }
    }

    /// `length` is defined: a range is not reversed, and a concatenation's
    /// total fits in a `usize`.
    pub open spec fn length_defined(self) -> bool {
        match self {
            SourceInfo::Original { start_offset, end_offset, .. } => start_offset <= end_offset,
            SourceInfo::Substring { start_offset, end_offset, .. } => start_offset <= end_offset,
            SourceInfo::Concat { pieces } => pieces_length(pieces@) <= usize::MAX,
        }
    }

    /// The absolute range `(file, start, end)` this `SourceInfo` stands for,
    /// when it is a contiguous range of one file.
    pub open spec fn spec_resolve(self) -> Option<(FileId, int, int)>
        decreases self,
    {
        match self {
            SourceInfo::Original { file_id, start_offset, end_offset } => Some(
                (file_id, start_offset as int, end_offset as int),
            ),
            SourceInfo::Substring { parent, start_offset, end_offset } => {
                match (*parent).spec_resolve() {
                    Some((file_id, parent_start, _)) => Some(
                        (file_id, parent_start + start_offset, parent_start + end_offset),
                    ),
                    None => None,
                }
            },
            SourceInfo::Concat { .. } => None,
        }
    }

    /// Every absolute offset that resolving computes fits in a `usize`.
    pub open spec fn resolve_fits(self) -> bool
        decreases self,
    {
        match self {
            SourceInfo::Original { .. } => true,
            SourceInfo::Substring { parent, start_offset, end_offset } => {
                &&& (*parent).resolve_fits()
                &&& match (*parent).spec_resolve() {
                    Some((_, parent_start, _)) => {
                        &&& parent_start + start_offset <= usize::MAX
                        &&& parent_start + end_offset <= usize::MAX
                    },
                    None => true,
                }
            },
            SourceInfo::Concat { .. } => true,
        }
    }

    /// A range of a registered file.
    pub fn original(file_id: FileId, start_offset: usize, end_offset: usize) -> (r: SourceInfo)
        ensures
            r == (SourceInfo::Original { file_id, start_offset, end_offset }),
    {
        SourceInfo::Original { file_id, start_offset, end_offset }
    }

    /// The concatenation of `(source_info, length)` pieces, in order.
    pub fn concat(pieces: Vec<(SourceInfo, usize)>) -> (r: SourceInfo)
        ensures
            r matches SourceInfo::Concat { pieces: out } && out@.len() == pieces@.len() && (
            forall|i: int|
                #![trigger out@[i]]
                0 <= i < pieces@.len() ==> out@[i] == (SourcePiece {
                    source_info: pieces@[i].0,
                    length: pieces@[i].1,
                })),
    {
        let mut rest = pieces;
        let mut out: Vec<SourcePiece> = Vec::new();
        while rest.len() > 0
            invariant
                out@.len() + rest@.len() == pieces@.len(),
                rest@ == pieces@.skip(out@.len() as int),
                forall|i: int|
                    #![trigger out@[i]]
                    0 <= i < out@.len() ==> out@[i] == (SourcePiece {
                        source_info: pieces@[i].0,
                        length: pieces@[i].1,
                    }),
            decreases rest@.len(),
        {
            let (source_info, length) = rest.remove(0);
            out.push(SourcePiece { source_info, length });
            assert(rest@ =~= pieces@.skip(out@.len() as int));
        }
        SourceInfo::Concat { pieces: out }
    }

    /// `self` is a copy of `other`: equal for a leaf; for a `Concat`, as
    /// many pieces, each with the same length and, recursively, a copy of
    /// the corresponding piece's `source_info`.
    pub open spec fn copies(self, other: SourceInfo) -> bool
        decreases other,
    {
        match other {
            SourceInfo::Concat { pieces } => {
                &&& self matches SourceInfo::Concat { pieces: out }
                &&& out@.len() == pieces@.len()
                &&& forall|i: int|
                    #![trigger pieces@[i]]
                    0 <= i < pieces@.len() ==> {
                        &&& out@[i].length == pieces@[i].length
                        &&& out@[i].source_info.copies(pieces@[i].source_info)
                    }
            },
            _ => self == other,
        }
    }

    /// A copy of this `SourceInfo`. A `Substring`'s parent is shared, not
    /// copied.
    pub fn deep_clone(&self) -> (r: SourceInfo)
        ensures
            r.copies(*self),
        decreases self,
    {
        match self {
            SourceInfo::Original { file_id, start_offset, end_offset } => SourceInfo::Original {
                file_id: *file_id,
                start_offset: *start_offset,
                end_offset: *end_offset,
            },
            SourceInfo::Substring { parent, start_offset, end_offset } => SourceInfo::Substring {
                parent: share(parent),
                start_offset: *start_offset,
                end_offset: *end_offset,
            },
            SourceInfo::Concat { pieces } => {
                let mut out: Vec<SourcePiece> = Vec::new();
                let mut i: usize = 0;
                while i < pieces.len()
                    invariant
                        i <= pieces@.len(),
                        out@.len() == i,
                        *self == (SourceInfo::Concat { pieces: *pieces }),
                        forall|j: int|
                            #![trigger out@[j]]
                            0 <= j < i ==> {
                                &&& out@[j].length == pieces@[j].length
                                &&& out@[j].source_info.copies(pieces@[j].source_info)
                            },
                    decreases pieces@.len() - i,
                {
                    proof {
                        assert(decreases_to!(*self => (*self)->pieces));
                        assert(decreases_to!(*pieces => pieces@));
                        assert(decreases_to!(pieces@ => pieces@[i as int]));
                        assert(decreases_to!(pieces@[i as int] => pieces@[i as int].source_info));
                    }
                    let source_info = pieces[i].source_info.deep_clone();
                    out.push(SourcePiece { source_info, length: pieces[i].length });
                    i = i + 1;
                }
                let r = SourceInfo::Concat { pieces: out };
                proof {
                    assert forall|j: int|
                        #![trigger pieces@[j]]
                        0 <= j < pieces@.len() implies {
                            &&& out@[j].length == pieces@[j].length
                            &&& out@[j].source_info.copies(pieces@[j].source_info)
                        } by {
                        assert(out@[j].length == pieces@[j].length);
                    }
                }
                r
            },
        }
    }

    /// The number of bytes of text this `SourceInfo` describes.
    pub fn length(&self) -> (n: usize)
        requires
            self.length_defined(),
        ensures
            n == self.spec_length(),
    {
        match self {
            SourceInfo::Original { start_offset, end_offset, .. } => *end_offset - *start_offset,
            SourceInfo::Substring { start_offset, end_offset, .. } => *end_offset - *start_offset,
            SourceInfo::Concat { pieces } => {
                let mut total: usize = 0;
                let mut i: usize = 0;
                while i < pieces.len()
                    invariant
                        i <= pieces@.len(),
                        total == pieces_length(pieces@.take(i as int)),
                        pieces_length(pieces@) <= usize::MAX,
                    decreases pieces@.len() - i,
                {
                    proof {
                        lemma_pieces_length_prefix(pieces@, i + 1);
                        assert(pieces@.take(i + 1).drop_last() =~= pieces@.take(i as int));
                    }
                    total = total + pieces[i].length;
                    i = i + 1;
                }
                proof {
                    assert(pieces@.take(i as int) =~= pieces@);
                }
                total
            },
        }
    }

    /// The absolute `(file, start, end)` range, or `None` where the text is
    /// not one contiguous range of one file (a `Concat`, or a `Substring`
    /// of one).
    pub fn resolve_byte_range(&self) -> (r: Option<(FileId, usize, usize)>)
        requires
            self.resolve_fits(),
        ensures
            match r {
                Some((file_id, start, end)) => self.spec_resolve() == Some(
                    (file_id, start as int, end as int),
                ),
                None => self.spec_resolve() is None,
            },
        decreases self,
    {
        match self {
            SourceInfo::Original { file_id, start_offset, end_offset } => Some(
                (*file_id, *start_offset, *end_offset),
            ),
            SourceInfo::Substring { parent, start_offset, end_offset } => {
                match parent.resolve_byte_range() {
                    Some((file_id, parent_start, _)) => Some(
                        (file_id, parent_start + *start_offset, parent_start + *end_offset),
                    ),
                    None => None,
                }
            },
            SourceInfo::Concat { .. } => None,
        }
    }
}

impl SourceInfo {
    /// Following `Substring` parents from here reaches a `Concat`.
    pub open spec fn reaches_concat(self) -> bool
        decreases self,
    {
        match self {
            SourceInfo::Original { .. } => false,
            SourceInfo::Substring { parent, .. } => (*parent).reaches_concat(),
            SourceInfo::Concat { .. } => true,
        }
    }
}

/// A file range resolves to itself.
pub proof fn lemma_original_resolves_to_itself(file_id: FileId, start: usize, end: usize)
    ensures
        (SourceInfo::Original { file_id, start_offset: start, end_offset: end }).spec_resolve()
            == Some((file_id, start as int, end as int)),
{
}

/// Resolution composes through substrings: a `Substring` of a parent that
/// resolves to `(file, ps, pe)` resolves to `(file, ps + start, ps + end)`,
/// offsets taken in the parent's coordinates; a `Substring` of a parent that
/// does not resolve does not resolve either.
pub proof fn lemma_resolve_composes(parent: Arc<SourceInfo>, start: usize, end: usize)
    ensures
        (*parent).spec_resolve() matches Some((file_id, ps, pe)) ==> (SourceInfo::Substring {
            parent,
            start_offset: start,
            end_offset: end,
        }).spec_resolve() == Some((file_id, ps + start, ps + end)),
        (*parent).spec_resolve() is None ==> (SourceInfo::Substring {
            parent,
            start_offset: start,
            end_offset: end,
        }).spec_resolve() is None,
{
}

/// Only a `Concat` stops resolution: a `SourceInfo` fails to resolve
/// exactly when following its parents reaches a `Concat`; otherwise it
/// resolves into the file at the root of its parent chain.
pub proof fn lemma_resolve_fails_only_at_concat(si: &SourceInfo)
    ensures
        si.spec_resolve() is None <==> si.reaches_concat(),
    decreases si,
{
    if let SourceInfo::Substring { parent, .. } = si {
        lemma_resolve_fails_only_at_concat(&**parent);
    }
}

/// A resolved range spans as many bytes as the `SourceInfo` describes.
pub proof fn lemma_resolved_range_has_the_length(si: SourceInfo)
    ensures
        si.spec_resolve() matches Some((_, start, end)) ==> end - start == si.spec_length(),
{
}

/// A copy is equal to the original at every leaf: for a leaf the copy is
/// equal; for a `Concat` the copy is a `Concat` with as many pieces, each of
/// the same length, describing the same text, equal wherever the piece is a
/// leaf (whatever its length, deletions included) and a copy again wherever
/// it is a `Concat`.
pub proof fn lemma_copy_equals_at_leaves(a: SourceInfo, b: SourceInfo)
    requires
        a.copies(b),
    ensures
        !(b is Concat) ==> a == b,
        b matches SourceInfo::Concat { pieces } ==> (a matches SourceInfo::Concat { pieces: out }
            && out@.len() == pieces@.len() && forall|i: int|
            #![trigger pieces@[i]]
            0 <= i < pieces@.len() ==> {
                &&& out@[i].length == pieces@[i].length
                &&& (out@[i].source_info is Concat) == (pieces@[i].source_info is Concat)
                &&& !(pieces@[i].source_info is Concat) ==> out@[i].source_info
                    == pieces@[i].source_info
                &&& out@[i].source_info.spec_length() == pieces@[i].source_info.spec_length()
                &&& out@[i].source_info.spec_resolve() == pieces@[i].source_info.spec_resolve()
            }),
{
    if let SourceInfo::Concat { pieces } = b {
        if let SourceInfo::Concat { pieces: out } = a {
            assert forall|i: int| #![trigger pieces@[i]] 0 <= i < pieces@.len() implies {
                &&& out@[i].length == pieces@[i].length
                &&& (out@[i].source_info is Concat) == (pieces@[i].source_info is Concat)
                &&& !(pieces@[i].source_info is Concat) ==> out@[i].source_info
                    == pieces@[i].source_info
                &&& out@[i].source_info.spec_length() == pieces@[i].source_info.spec_length()
                &&& out@[i].source_info.spec_resolve() == pieces@[i].source_info.spec_resolve()
            } by {
                lemma_copy_describes_the_same_text(out@[i].source_info, pieces@[i].source_info);
            }
        }
    }
}

/// A copy describes the same text: the same length and the same resolved
/// range.
pub proof fn lemma_copy_describes_the_same_text(a: SourceInfo, b: SourceInfo)
    requires
        a.copies(b),
    ensures
        a.spec_length() == b.spec_length(),
        a.spec_resolve() == b.spec_resolve(),
        a.length_defined() == b.length_defined(),
{
    if let SourceInfo::Concat { pieces } = b {
        if let SourceInfo::Concat { pieces: out } = a {
            lemma_same_lengths_same_total(out@, pieces@);
        }
    }
}

proof fn lemma_same_lengths_same_total(a: Seq<SourcePiece>, b: Seq<SourcePiece>)
    requires
        a.len() == b.len(),
        forall|i: int| #![trigger b[i]] 0 <= i < b.len() ==> a[i].length == b[i].length,
    ensures
        pieces_length(a) == pieces_length(b),
    decreases a.len(),
{
    if a.len() > 0 {
        assert forall|i: int| #![trigger b.drop_last()[i]] 0 <= i < b.len() - 1 implies a.drop_last()[i].length
            == b.drop_last()[i].length by {
            assert(b.drop_last()[i] == b[i]);
        }
        lemma_same_lengths_same_total(a.drop_last(), b.drop_last());
        assert(b.last() == b[b.len() - 1]);
    }
}

impl Clone for SourceInfo {
    /// A copy: see [`SourceInfo::copies`].
    fn clone(&self) -> (r: Self)
        ensures
            r.copies(*self),
    {
        self.deep_clone()
    }
}

impl Clone for SourcePiece {
    /// A copy: the same length, and a copy of the `source_info`.
    fn clone(&self) -> (r: Self)
        ensures
            r.length == self.length,
            r.source_info.copies(self.source_info),
    {
        SourcePiece { source_info: self.source_info.deep_clone(), length: self.length }
    }
}

/// Another pointer to the value `parent` points to.
///
/// Calls `Arc::clone`, which std documents as making a new pointer to the
/// same allocation: the contract claims that both point to equal values.
#[verifier::external_body]
pub(crate) fn share(parent: &Arc<SourceInfo>) -> (r: Arc<SourceInfo>)
    ensures
        r == *parent,
{
    Arc::clone(parent)
}

} // verus!
