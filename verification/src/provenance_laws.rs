//! What a whole run of `verbatim` / `replacement` calls on a fresh
//! [`ProvenanceBuilder`](crate::provenance_builder::ProvenanceBuilder) does,
//! stated over its model.
//!
//! `BuilderModel::after` is exactly the change that `verbatim` and
//! `replacement` state in their `ensures`, so `after_all` is the model of a
//! builder after the calls, and `emits` is what `finish` returns for it.

use std::ops::Range;
use vstd::prelude::*;

use crate::provenance_builder::{range_len, BuilderModel, Piece, Root};
use crate::source_info::{pieces_length, SourceInfo, SourcePiece};

verus! {

/// One call on a builder: `verbatim(range)` or `replacement(range, out_len)`.
pub enum Call {
    Verbatim(Range<usize>),
    Replacement(Range<usize>, usize),
}

impl Call {
    pub open spec fn src_range(self) -> Range<usize> {
        match self {
            Call::Verbatim(r) => r,
            Call::Replacement(r, _) => r,
        }
    }

    /// The content bytes the call describes.
    pub open spec fn content_len(self) -> nat {
        match self {
            Call::Verbatim(r) => range_len(r),
            Call::Replacement(_, out_len) => out_len as nat,
        }
    }

    pub open spec fn is_verbatim(self) -> bool {
        self is Verbatim
    }
}

/// The calls' source ranges are none of them reversed.
pub open spec fn calls_ordered(calls: Seq<Call>) -> bool {
    forall|i: int|
        #![trigger calls[i]]
        0 <= i < calls.len() ==> calls[i].src_range().start <= calls[i].src_range().end
}

/// Each call's source range starts where the previous call's ends.
pub open spec fn calls_abut(calls: Seq<Call>) -> bool {
    forall|i: int|
        #![trigger calls[i]]
        0 <= i < calls.len() - 1 ==> calls[i].src_range().end == calls[i + 1].src_range().start
}

/// The content bytes all the calls describe together.
pub open spec fn calls_content(calls: Seq<Call>) -> int
    decreases calls.len(),
{
    if calls.len() == 0 {
        0
    } else {
        calls_content(calls.drop_last()) + calls.last().content_len()
    }
}

/// The content bytes a list of accumulated pieces accounts for.
pub open spec fn pieces_content(pieces: Seq<Piece>) -> int
    decreases pieces.len(),
{
    if pieces.len() == 0 {
        0
    } else {
        pieces_content(pieces.drop_last()) + pieces.last().content_len
    }
}

impl BuilderModel {
    /// The state after one call.
    pub open spec fn after(self, call: Call) -> BuilderModel {
        self.pushed(call.src_range(), call.content_len(), call.is_verbatim())
    }

    /// The state after the calls, in order.
    pub open spec fn after_all(self, calls: Seq<Call>) -> BuilderModel
        decreases calls.len(),
    {
        if calls.len() == 0 {
            self
        } else {
            self.after_all(calls.drop_last()).after(calls.last())
        }
    }

    /// Every one of the calls, in order, meets the `requires` of the method
    /// that makes it.
    pub open spec fn accepts_all(self, calls: Seq<Call>) -> bool
        decreases calls.len(),
    {
        if calls.len() == 0 {
            true
        } else {
            &&& self.accepts_all(calls.drop_last())
            &&& self.after_all(calls.drop_last()).push_fits(
                calls.last().src_range(),
                calls.last().content_len(),
                calls.last().is_verbatim(),
            )
        }
    }

    /// Every piece's source range is ordered, and a verbatim piece accounts
    /// for exactly as many content bytes as it has source bytes.
    pub open spec fn faithful(self) -> bool {
        forall|i: int|
            #![trigger self.pieces[i]]
            0 <= i < self.pieces.len() ==> {
                &&& self.pieces[i].src_range.start <= self.pieces[i].src_range.end
                &&& self.pieces[i].verbatim ==> self.pieces[i].content_len
                    == self.pieces[i].src_range.end - self.pieces[i].src_range.start
            }
    }
}

impl BuilderModel {
    /// No two neighbouring pieces could still be merged: never both verbatim
    /// with the first ending where the second starts.
    pub open spec fn maximally_coalesced(self) -> bool {
        forall|i: int|
            #![trigger self.pieces[i]]
            0 <= i < self.pieces.len() - 1 ==> !(self.pieces[i].verbatim && self.pieces[i
                + 1].verbatim && self.pieces[i].src_range.end == self.pieces[i + 1].src_range.start)
    }
}

/// The number of non-verbatim (replacement) pieces.
pub open spec fn replacement_pieces(pieces: Seq<Piece>) -> nat
    decreases pieces.len(),
{
    if pieces.len() == 0 {
        0
    } else {
        replacement_pieces(pieces.drop_last()) + if pieces.last().verbatim {
            0nat
        } else {
            1nat
        }
    }
}

/// One call keeps the tiling: recording a range that starts where the last
/// piece ends keeps the pieces tiling, adds exactly its content bytes, adds
/// at most one piece, keeps where the first piece starts, and makes the
/// last piece end where the range ends.
pub proof fn lemma_push_keeps_tiling_and_content(
    m: BuilderModel,
    src_range: Range<usize>,
    content_len: nat,
    verbatim: bool,
)
    requires
        m.push_fits(src_range, content_len, verbatim),
        content_len <= usize::MAX,
    ensures
        pieces_content(m.pushed(src_range, content_len, verbatim).pieces) == pieces_content(
            m.pieces,
        ) + content_len,
        m.pushed(src_range, content_len, verbatim).pieces.len() == m.pieces.len()
            || m.pushed(src_range, content_len, verbatim).pieces.len() == m.pieces.len() + 1,
        m.pushed(src_range, content_len, verbatim).pieces.last().src_range.end == src_range.end,
        m.pieces.len() > 0 ==> m.pushed(src_range, content_len, verbatim).pieces[0].src_range.start
            == m.pieces[0].src_range.start,
        m.pieces.len() == 0 ==> m.pushed(src_range, content_len, verbatim).pieces[0].src_range.start
            == src_range.start,
        m.tiles() && (m.pieces.len() == 0 || m.pieces.last().src_range.end == src_range.start)
            ==> m.pushed(src_range, content_len, verbatim).tiles(),
{
    let next = m.pushed(src_range, content_len, verbatim);
    if m.coalesces(src_range, verbatim) {
        let last = m.pieces.last();
        lemma_pieces_content_update_last(m.pieces, next.pieces.last());
        assert(next.pieces.last() == next.pieces[m.pieces.len() - 1]);
    } else {
        lemma_pieces_content_push(
            m.pieces,
            Piece { src_range, content_len: content_len as usize, verbatim },
        );
    }
    if m.tiles() && (m.pieces.len() == 0 || m.pieces.last().src_range.end == src_range.start) {
        assert forall|i: int| 0 <= i < next.pieces.len() - 1 implies next.pieces[i].src_range.end
            == next.pieces[i + 1].src_range.start by {
            if i + 1 < m.pieces.len() - 1 || (!m.coalesces(src_range, verbatim) && i + 1
                < m.pieces.len()) {
                assert(m.pieces[i].src_range.end == m.pieces[i + 1].src_range.start);
            }
            if i + 1 == m.pieces.len() - 1 && m.pieces.len() >= 2 {
                assert(m.pieces[i].src_range.end == m.pieces[i + 1].src_range.start);
            }
        }
    }
}

/// One call keeps the list maximally coalesced, and a `replacement` always
/// stays a piece of its own: the number of replacement pieces grows by one
/// for a replacement and not at all for a `verbatim` call.
pub proof fn lemma_push_keeps_coalesced(
    m: BuilderModel,
    src_range: Range<usize>,
    content_len: nat,
    verbatim: bool,
)
    requires
        m.maximally_coalesced(),
    ensures
        m.pushed(src_range, content_len, verbatim).maximally_coalesced(),
        replacement_pieces(m.pushed(src_range, content_len, verbatim).pieces) == replacement_pieces(
            m.pieces,
        ) + if verbatim {
            0nat
        } else {
            1nat
        },
{
    let next = m.pushed(src_range, content_len, verbatim);
    if m.coalesces(src_range, verbatim) {
        assert(next.pieces.drop_last() =~= m.pieces.drop_last());
        assert(m.pieces.last() == m.pieces[m.pieces.len() - 1]);
        assert forall|i: int| #![trigger next.pieces[i]] 0 <= i < next.pieces.len() - 1 implies !(
        next.pieces[i].verbatim && next.pieces[i + 1].verbatim && next.pieces[i].src_range.end
            == next.pieces[i + 1].src_range.start) by {
            assert(m.pieces[i] == next.pieces[i]);
            if i + 1 < m.pieces.len() - 1 {
                assert(m.pieces[i + 1] == next.pieces[i + 1]);
            } else {
                assert(next.pieces[i + 1].src_range.start == m.pieces[i + 1].src_range.start);
                assert(m.pieces[i + 1].verbatim);
            }
        }
    } else {
        assert(next.pieces.drop_last() =~= m.pieces);
        assert forall|i: int| #![trigger next.pieces[i]] 0 <= i < next.pieces.len() - 1 implies !(
        next.pieces[i].verbatim && next.pieces[i + 1].verbatim && next.pieces[i].src_range.end
            == next.pieces[i + 1].src_range.start) by {
            assert(m.pieces[i] == next.pieces[i]);
            if i + 1 < m.pieces.len() {
                assert(m.pieces[i + 1] == next.pieces[i + 1]);
            } else {
                assert(m.pieces.last() == m.pieces[i]);
            }
        }
    }
}

/// The number of `replacement` calls.
pub open spec fn replacement_calls(calls: Seq<Call>) -> nat
    decreases calls.len(),
{
    if calls.len() == 0 {
        0
    } else {
        replacement_calls(calls.drop_last()) + if calls.last().is_verbatim() {
            0nat
        } else {
            1nat
        }
    }
}

/// Over a whole run from a fresh builder, the pieces stay maximally
/// coalesced and every `replacement` call keeps a piece of its own.
pub proof fn lemma_calls_keep_coalesced(m: BuilderModel, calls: Seq<Call>)
    requires
        m.pieces.len() == 0,
    ensures
        m.after_all(calls).maximally_coalesced(),
        replacement_pieces(m.after_all(calls).pieces) == replacement_calls(calls),
    decreases calls.len(),
{
    if calls.len() > 0 {
        lemma_calls_keep_coalesced(m, calls.drop_last());
        let c = calls.last();
        lemma_push_keeps_coalesced(
            m.after_all(calls.drop_last()),
            c.src_range(),
            c.content_len(),
            c.is_verbatim(),
        );
    } else {
        assert(replacement_pieces(m.pieces) == 0);
    }
}

/// Calls change only the pieces: root and anchor stay as they were.
pub proof fn lemma_calls_keep_root_and_anchor(m: BuilderModel, calls: Seq<Call>)
    ensures
        m.after_all(calls).root == m.root,
        m.after_all(calls).anchor == m.anchor,
    decreases calls.len(),
{
    if calls.len() > 0 {
        lemma_calls_keep_root_and_anchor(m, calls.drop_last());
    }
}

proof fn lemma_pieces_content_update_last(pieces: Seq<Piece>, p: Piece)
    requires
        pieces.len() > 0,
    ensures
        pieces_content(pieces.update(pieces.len() - 1, p)) == pieces_content(pieces)
            - pieces.last().content_len + p.content_len,
{
    let u = pieces.update(pieces.len() - 1, p);
    assert(u.drop_last() =~= pieces.drop_last());
}

proof fn lemma_pieces_content_push(pieces: Seq<Piece>, p: Piece)
    ensures
        pieces_content(pieces.push(p)) == pieces_content(pieces) + p.content_len,
{
    assert(pieces.push(p).drop_last() =~= pieces);
}

/// The pieces of a fresh builder fed calls whose source ranges abut tile
/// their source contiguously, from the first call's start to the last
/// call's end: `finish` may be called on it.
pub proof fn lemma_abutting_calls_tile(m: BuilderModel, calls: Seq<Call>)
    requires
        m.pieces.len() == 0,
        calls_abut(calls),
    ensures
        m.after_all(calls).tiles(),
        m.after_all(calls).pieces.len() > 0 <==> calls.len() > 0,
        calls.len() > 0 ==> m.after_all(calls).pieces[0].src_range.start
            == calls[0].src_range().start,
        calls.len() > 0 ==> m.after_all(calls).pieces.last().src_range.end
            == calls.last().src_range().end,
    decreases calls.len(),
{
    if calls.len() > 0 {
        let prefix = calls.drop_last();
        assert(calls_abut(prefix)) by {
            assert forall|i: int| 0 <= i < prefix.len() - 1 implies prefix[i].src_range().end
                == prefix[i + 1].src_range().start by {
                assert(prefix[i] == calls[i]);
                assert(prefix[i + 1] == calls[i + 1]);
                assert(calls[i].src_range().end == calls[i + 1].src_range().start);
            }
        }
        lemma_abutting_calls_tile(m, prefix);
        let prev = m.after_all(prefix);
        let c = calls.last();
        if prefix.len() > 0 {
            assert(prefix.last() == calls[calls.len() - 2]);
            assert(calls[calls.len() - 2].src_range().end == calls[calls.len() - 1].src_range().start);
        }
        let next = m.after_all(calls);
        assert(next == prev.after(c));
        assert forall|i: int| 0 <= i < next.pieces.len() - 1 implies next.pieces[i].src_range.end
            == next.pieces[i + 1].src_range.start by {
            assert(prev.pieces[i].src_range.end == prev.pieces[i + 1].src_range.start || i + 1
                == prev.pieces.len() || i + 1 == prev.pieces.len() - 1);
        }
    }
}

/// A fresh builder fed calls with ordered source ranges accepts every one
/// of them, keeps its pieces faithful, and its pieces account for exactly
/// the content bytes the calls describe.
pub proof fn lemma_ordered_calls_faithful(m: BuilderModel, calls: Seq<Call>)
    requires
        m.pieces.len() == 0,
        calls_ordered(calls),
    ensures
        m.accepts_all(calls),
        m.after_all(calls).faithful(),
        pieces_content(m.after_all(calls).pieces) == calls_content(calls),
    decreases calls.len(),
{
    if calls.len() > 0 {
        let prefix = calls.drop_last();
        assert(calls_ordered(prefix)) by {
            assert forall|i: int| 0 <= i < prefix.len() implies prefix[i].src_range().start
                <= prefix[i].src_range().end by {
                assert(prefix[i] == calls[i]);
            }
        }
        lemma_ordered_calls_faithful(m, prefix);
        let prev = m.after_all(prefix);
        let c = calls.last();
        assert(c == calls[calls.len() - 1]);
        assert(c.src_range().start <= c.src_range().end);
        if prev.coalesces(c.src_range(), c.is_verbatim()) {
            let last = prev.pieces.last();
            assert(last == prev.pieces[prev.pieces.len() - 1]);
            let merged = Piece {
                src_range: Range { start: last.src_range.start, end: c.src_range().end },
                content_len: (last.content_len + c.content_len()) as usize,
                verbatim: true,
            };
            lemma_pieces_content_update_last(prev.pieces, merged);
        } else {
            lemma_pieces_content_push(
                prev.pieces,
                Piece {
                    src_range: c.src_range(),
                    content_len: c.content_len() as usize,
                    verbatim: c.is_verbatim(),
                },
            );
        }
        let next = m.after_all(calls);
        assert forall|i: int| 0 <= i < next.pieces.len() implies {
            &&& next.pieces[i].src_range.start <= next.pieces[i].src_range.end
            &&& next.pieces[i].verbatim ==> next.pieces[i].content_len
                == next.pieces[i].src_range.end - next.pieces[i].src_range.start
        } by {
            if i < prev.pieces.len() {
                assert(prev.pieces[i].src_range.start <= prev.pieces[i].src_range.end);
            }
        }
    }
}

proof fn lemma_pieces_length_matches(out: Seq<SourcePiece>, pieces: Seq<Piece>)
    requires
        out.len() == pieces.len(),
        forall|i: int|
            #![trigger out[i]]
            0 <= i < out.len() ==> out[i].length == pieces[i].content_len,
    ensures
        pieces_length(out) == pieces_content(pieces),
    decreases out.len(),
{
    if out.len() > 0 {
        lemma_pieces_length_matches(out.drop_last(), pieces.drop_last());
        assert(out.last() == out[out.len() - 1]);
    }
}

/// Length invariant: what `finish` emits for a faithful state describes
/// exactly as many bytes as the pieces account for.
pub proof fn lemma_emitted_length(m: BuilderModel, r: SourceInfo)
    requires
        m.faithful(),
        m.emits(r),
    ensures
        r.spec_length() == pieces_content(m.pieces),
{
    if m.pieces.len() == 0 {
        assert(pieces_content(m.pieces) == 0);
        assert(r.spec_length() == 0);
    } else if m.pieces.len() == 1 && m.pieces[0].verbatim {
        assert(m.pieces.drop_last() =~= Seq::<Piece>::empty());
        assert(m.pieces.last() == m.pieces[0]);
        assert(pieces_content(m.pieces.drop_last()) == 0);
        assert(pieces_content(m.pieces) == m.pieces[0].content_len);
        assert(r.spec_length() == m.pieces[0].src_range.end - m.pieces[0].src_range.start);
    } else {
        if let SourceInfo::Concat { pieces } = r {
            lemma_pieces_length_matches(pieces@, m.pieces);
        }
    }
}

/// Content accounting: whatever the ranges, calls that every method accepts
/// add exactly the content bytes they describe to what the pieces account
/// for.
pub proof fn lemma_calls_content(m: BuilderModel, calls: Seq<Call>)
    requires
        m.accepts_all(calls),
    ensures
        pieces_content(m.after_all(calls).pieces) == pieces_content(m.pieces) + calls_content(calls),
    decreases calls.len(),
{
    if calls.len() > 0 {
        lemma_calls_content(m, calls.drop_last());
        let c = calls.last();
        lemma_push_keeps_tiling_and_content(
            m.after_all(calls.drop_last()),
            c.src_range(),
            c.content_len(),
            c.is_verbatim(),
        );
    }
}

/// All-verbatim collapse: a fresh builder fed only `verbatim` calls whose
/// source ranges abut (and that it accepts) holds one verbatim piece from
/// the first call's start to the last call's end, accounting for all their
/// content bytes, and `finish` emits that contiguous leaf, not a one-piece
/// `Concat`.
pub proof fn lemma_verbatim_run_collapses(m: BuilderModel, calls: Seq<Call>)
    requires
        m.pieces.len() == 0,
        calls.len() > 0,
        forall|i: int| #![trigger calls[i]] 0 <= i < calls.len() ==> calls[i].is_verbatim(),
        calls_abut(calls),
        m.accepts_all(calls),
    ensures
        0 <= calls_content(calls) <= usize::MAX,
        m.after_all(calls).pieces == seq![
            Piece {
                src_range: Range {
                    start: calls[0].src_range().start,
                    end: calls.last().src_range().end,
                },
                content_len: calls_content(calls) as usize,
                verbatim: true,
            },
        ],
        forall|r: SourceInfo|
            #![trigger m.after_all(calls).emits(r)]
            m.after_all(calls).emits(r) ==> r == m.leaf(
                calls[0].src_range().start,
                calls.last().src_range().end,
            ),
    decreases calls.len(),
{
    let prefix = calls.drop_last();
    let c = calls.last();
    assert(c == calls[calls.len() - 1]);
    assert(c.is_verbatim());
    if prefix.len() == 0 {
        assert(m.after_all(prefix) == m);
        assert(calls_content(prefix) == 0);
    } else {
        assert forall|i: int| #![trigger prefix[i]] 0 <= i < prefix.len() implies prefix[i].is_verbatim() by {
            assert(prefix[i] == calls[i]);
        }
        assert(calls_abut(prefix)) by {
            assert forall|i: int| 0 <= i < prefix.len() - 1 implies prefix[i].src_range().end
                == prefix[i + 1].src_range().start by {
                assert(prefix[i] == calls[i]);
                assert(prefix[i + 1] == calls[i + 1]);
            }
        }
        lemma_verbatim_run_collapses(m, prefix);
        assert(prefix[0] == calls[0]);
        assert(prefix.last() == calls[calls.len() - 2]);
        assert(calls[calls.len() - 2].src_range().end == calls[calls.len() - 1].src_range().start);
        let prev = m.after_all(prefix);
        assert(prev.pieces.last() == prev.pieces[0]);
        assert(prev.coalesces(c.src_range(), true));
    }
    assert(m.after_all(calls) == m.after_all(prefix).after(c));
    lemma_calls_keep_root_and_anchor(m, calls);
}

/// The whole decode. A fresh builder fed calls whose source ranges abut, in
/// content order, and that it accepts, emits:
/// - for no calls, the zero-length leaf at the anchor;
/// - when every call is `verbatim`, the contiguous leaf from the first
///   call's start to the last call's end, and only then a leaf;
/// - otherwise a `Concat` whose pieces account for exactly the content
///   bytes the calls describe and whose leaves abut in order from the first
///   call's start to the last call's end.
///
/// The emitted `SourceInfo` describes exactly as many bytes as the calls
/// do, unless every call is `verbatim` and some range is reversed (a
/// reversed range decodes to no content but moves the collapsed leaf's end
/// back).
pub proof fn lemma_decode(m: BuilderModel, calls: Seq<Call>, r: SourceInfo)
    requires
        m.pieces.len() == 0,
        calls_abut(calls),
        m.accepts_all(calls),
        m.after_all(calls).emits(r),
    ensures
        calls.len() == 0 ==> r == m.leaf(m.anchor, m.anchor),
        (forall|i: int| #![trigger calls[i]] 0 <= i < calls.len() ==> calls[i].is_verbatim())
            <==> !(r is Concat),
        calls.len() > 0 && (forall|i: int|
            #![trigger calls[i]]
            0 <= i < calls.len() ==> calls[i].is_verbatim()) ==> r == m.leaf(
            calls[0].src_range().start,
            calls.last().src_range().end,
        ),
        r is Concat ==> (r matches SourceInfo::Concat { pieces } && pieces@.len() > 0
            && pieces_length(pieces@) == calls_content(calls) && pieces@[0].source_info.leaf_start()
            == calls[0].src_range().start && pieces@.last().source_info.leaf_end()
            == calls.last().src_range().end && forall|i: int|
            #![trigger pieces@[i]]
            0 <= i < pieces@.len() - 1 ==> pieces@[i].source_info.leaf_end()
                == pieces@[i + 1].source_info.leaf_start()),
        (r is Concat || calls_ordered(calls)) ==> r.spec_length() == calls_content(calls),
{
    let a = m.after_all(calls);
    lemma_abutting_calls_tile(m, calls);
    lemma_calls_keep_root_and_anchor(m, calls);
    lemma_calls_content(m, calls);
    assert(pieces_content(m.pieces) == 0);
    let all_verbatim = forall|i: int|
        #![trigger calls[i]]
        0 <= i < calls.len() ==> calls[i].is_verbatim();
    if calls.len() == 0 {
        assert(a == m);
    } else if all_verbatim {
        lemma_verbatim_run_collapses(m, calls);
        assert(a.pieces[0] == a.pieces.last());
        if calls_ordered(calls) {
            lemma_ordered_calls_faithful(m, calls);
            assert(a.pieces[0].src_range.start <= a.pieces[0].src_range.end);
        }
    } else {
        let k = choose|k: int| #![trigger calls[k]] 0 <= k < calls.len() && !calls[k].is_verbatim();
        lemma_replacement_never_collapses(m, calls, k, r);
        lemma_replacement_piece_stays(m, calls, k);
        lemma_emitted_pieces_abut(a, r);
        if let SourceInfo::Concat { pieces } = r {
            lemma_pieces_length_matches(pieces@, a.pieces);
            assert(pieces@[0].source_info == a.leaf(a.pieces[0].src_range.start, a.pieces[0].src_range.end));
            let n = pieces@.len() - 1;
            assert(pieces@.last() == pieces@[n]);
            assert(a.pieces.last() == a.pieces[n]);
            assert(pieces@[n].source_info == a.leaf(a.pieces[n].src_range.start, a.pieces[n].src_range.end));
        }
    }
}

/// A replacement never collapses: once any call is a `replacement`, the
/// emitted `SourceInfo` is a `Concat` with one piece per accumulated piece,
/// however the lengths line up.
pub proof fn lemma_replacement_never_collapses(m: BuilderModel, calls: Seq<Call>, k: int, r: SourceInfo)
    requires
        m.pieces.len() == 0,
        0 <= k < calls.len(),
        !calls[k].is_verbatim(),
        m.after_all(calls).emits(r),
    ensures
        r matches SourceInfo::Concat { pieces } && pieces@.len() == m.after_all(calls).pieces.len(),
{
    lemma_replacement_piece_stays(m, calls, k);
}

/// After a `replacement` call, a non-verbatim piece stays in the list for
/// good: later calls never merge into it.
proof fn lemma_replacement_piece_stays(m: BuilderModel, calls: Seq<Call>, k: int)
    requires
        m.pieces.len() == 0,
        0 <= k < calls.len(),
        !calls[k].is_verbatim(),
    ensures
        exists|i: int|
            #![trigger m.after_all(calls).pieces[i]]
            0 <= i < m.after_all(calls).pieces.len() && !m.after_all(calls).pieces[i].verbatim,
    decreases calls.len(),
{
    let prefix = calls.drop_last();
    let prev = m.after_all(prefix);
    let next = m.after_all(calls);
    let c = calls.last();
    assert(next == prev.after(c));
    if k == calls.len() - 1 {
        assert(c == calls[k]);
        assert(!prev.coalesces(c.src_range(), c.is_verbatim()));
        assert(!next.pieces[prev.pieces.len() as int].verbatim);
    } else {
        assert(prefix[k] == calls[k]);
        lemma_replacement_piece_stays(m, prefix, k);
        let i = choose|i: int|
            #![trigger prev.pieces[i]]
            0 <= i < prev.pieces.len() && !prev.pieces[i].verbatim;
        if prev.coalesces(c.src_range(), c.is_verbatim()) {
            assert(i != prev.pieces.len() - 1);
        }
        assert(next.pieces[i] == prev.pieces[i]);
    }
}

/// Gap-free tiling: when the pieces tile their source, the leaves of the
/// emitted `Concat` abut too, each starting where the previous one ends.
pub proof fn lemma_emitted_pieces_abut(m: BuilderModel, r: SourceInfo)
    requires
        m.tiles(),
        m.emits(r),
        !m.collapses(),
    ensures
        r matches SourceInfo::Concat { pieces } && forall|i: int|
            #![trigger pieces@[i]]
            0 <= i < pieces@.len() - 1 ==> pieces@[i].source_info.leaf_end()
                == pieces@[i + 1].source_info.leaf_start(),
{
    if let SourceInfo::Concat { pieces } = r {
        assert forall|i: int| #![trigger pieces@[i]] 0 <= i < pieces@.len() - 1 implies pieces@[
            i].source_info.leaf_end() == pieces@[i + 1].source_info.leaf_start() by {
            assert(m.pieces[i].src_range.end == m.pieces[i + 1].src_range.start);
            assert(pieces@[i + 1].source_info == m.leaf(
                m.pieces[i + 1].src_range.start,
                m.pieces[i + 1].src_range.end,
            ));
        }
    }
}

/// File-rooted pieces: a builder started in a file emits only ranges of
/// that very file, an `Original` with its file id, or a `Concat` every piece
/// of which is such an `Original`.
pub proof fn lemma_file_rooted_leaves(m: BuilderModel, r: SourceInfo)
    requires
        m.root is File,
        m.emits(r),
    ensures
        m.collapses() ==> (r matches SourceInfo::Original { file_id, .. } && file_id
            == m.root->File_0),
        !m.collapses() ==> (r matches SourceInfo::Concat { pieces } && forall|i: int|
            #![trigger pieces@[i]]
            0 <= i < pieces@.len() ==> (pieces@[i].source_info matches SourceInfo::Original {
                file_id,
                ..
            } && file_id == m.root->File_0)),
{
    if !m.collapses() {
        if let SourceInfo::Concat { pieces } = r {
            assert forall|i: int| #![trigger pieces@[i]] 0 <= i < pieces@.len() implies (
            pieces@[i].source_info matches SourceInfo::Original { file_id, .. } && file_id
                == m.root->File_0) by {
                assert(pieces@[i].source_info == m.leaf(
                    m.pieces[i].src_range.start,
                    m.pieces[i].src_range.end,
                ));
            }
        }
    }
}

/// Positions come from the pieces' own ranges: the emitted leaf spans the
/// anchor (zero-length) for no pieces and the piece's range for one verbatim
/// piece; the `i`-th leaf of a `Concat` spans the `i`-th piece's range and
/// carries its content length.
pub proof fn lemma_emitted_positions(m: BuilderModel, r: SourceInfo)
    requires
        m.emits(r),
    ensures
        m.pieces.len() == 0 ==> !(r is Concat) && r.leaf_start() == m.anchor && r.leaf_end()
            == m.anchor,
        m.pieces.len() == 1 && m.pieces[0].verbatim ==> !(r is Concat) && r.leaf_start()
            == m.pieces[0].src_range.start && r.leaf_end() == m.pieces[0].src_range.end,
        !m.collapses() ==> (r matches SourceInfo::Concat { pieces } && pieces@.len()
            == m.pieces.len() && forall|i: int|
            #![trigger pieces@[i]]
            0 <= i < pieces@.len() ==> {
                &&& !(pieces@[i].source_info is Concat)
                &&& pieces@[i].source_info.leaf_start() == m.pieces[i].src_range.start
                &&& pieces@[i].source_info.leaf_end() == m.pieces[i].src_range.end
                &&& pieces@[i].length == m.pieces[i].content_len
            }),
{
    if !m.collapses() {
        if let SourceInfo::Concat { pieces } = r {
            assert forall|i: int| #![trigger pieces@[i]] 0 <= i < pieces@.len() implies {
                &&& !(pieces@[i].source_info is Concat)
                &&& pieces@[i].source_info.leaf_start() == m.pieces[i].src_range.start
                &&& pieces@[i].source_info.leaf_end() == m.pieces[i].src_range.end
                &&& pieces@[i].length == m.pieces[i].content_len
            } by {
                assert(pieces@[i].source_info == m.leaf(
                    m.pieces[i].src_range.start,
                    m.pieces[i].src_range.end,
                ));
            }
        }
    }
}

/// Parent-relative pieces: a builder rooted in a parent emits only
/// `Substring`s over that very parent, whatever its shape; nothing is
/// resolved out of it.
pub proof fn lemma_parent_rooted_leaves(m: BuilderModel, r: SourceInfo)
    requires
        m.root is Parent,
        m.emits(r),
    ensures
        m.collapses() ==> (r matches SourceInfo::Substring { parent, .. } && parent
            == m.root->Parent_0),
        !m.collapses() ==> (r matches SourceInfo::Concat { pieces } && forall|i: int|
            #![trigger pieces@[i]]
            0 <= i < pieces@.len() ==> (pieces@[i].source_info matches SourceInfo::Substring {
                parent,
                ..
            } && parent == m.root->Parent_0)),
{
    if !m.collapses() {
        if let SourceInfo::Concat { pieces } = r {
            assert forall|i: int| #![trigger pieces@[i]] 0 <= i < pieces@.len() implies (
            pieces@[i].source_info matches SourceInfo::Substring { parent, .. } && parent
                == m.root->Parent_0) by {
                assert(pieces@[i].source_info == m.leaf(
                    m.pieces[i].src_range.start,
                    m.pieces[i].src_range.end,
                ));
            }
        }
    }
}

} // verus!
