use std::ops::Range;

use quarto_source_map::{FileId, ProvenanceBuilder, SourceInfo};

// -------------------------------------------------------------------
// Frozen test: all-verbatim -> a contiguous SourceInfo, not a
// 1-piece Concat.
// -------------------------------------------------------------------
#[test]
fn test_all_verbatim_collapses_to_contiguous() {
    let mut b = ProvenanceBuilder::in_file(FileId(0), 100);
    b.verbatim(0..3);
    b.verbatim(3..7);
    b.verbatim(7..10);
    let si = b.finish();
    match si {
        SourceInfo::Original {
            file_id,
            start_offset,
            end_offset,
        } => {
            assert_eq!(file_id, FileId(0));
            assert_eq!(start_offset, 0);
            assert_eq!(end_offset, 10);
        }
        other => panic!("expected a contiguous Original, got {other:?}"),
    }
}

// -------------------------------------------------------------------
// Frozen test: the fold shape (verbatim / 1->1 replacement /
// verbatim) stays a 3-piece Concat and must not collapse.
// -------------------------------------------------------------------
#[test]
fn test_fold_shape_stays_uncollapsed_concat() {
    // root plain, col-0 continuation: "aaa\nbbb" -> "aaa bbb"
    // verbatim 0..3, replacement 3..4 (1 source byte -> 1 content
    // byte, but NOT byte-identical: \n -> ' '), verbatim 4..7.
    let mut b = ProvenanceBuilder::in_file(FileId(0), 0);
    b.verbatim(0..3);
    b.replacement(3..4, 1);
    b.verbatim(4..7);
    let si = b.finish();
    match si {
        SourceInfo::Concat { pieces } => {
            assert_eq!(pieces.len(), 3, "fold shape must not collapse");
            assert_eq!(si_length(&pieces[0].source_info), 3);
            assert_eq!(pieces[0].length, 3);
            assert_eq!(si_length(&pieces[1].source_info), 1);
            assert_eq!(pieces[1].length, 1);
            assert_eq!(si_length(&pieces[2].source_info), 3);
            assert_eq!(pieces[2].length, 3);
        }
        other => panic!("expected a 3-piece Concat, got {other:?}"),
    }
}

// -------------------------------------------------------------------
// Frozen test: zero pieces -> a zero-length SourceInfo at the
// anchor.
// -------------------------------------------------------------------
#[test]
fn test_zero_pieces_yields_zero_length_at_anchor() {
    let b = ProvenanceBuilder::in_file(FileId(3), 42);
    let si = b.finish();
    match si {
        SourceInfo::Original {
            file_id,
            start_offset,
            end_offset,
        } => {
            assert_eq!(file_id, FileId(3));
            assert_eq!(start_offset, 42);
            assert_eq!(end_offset, 42);
        }
        other => panic!("expected a zero-length Original at the anchor, got {other:?}"),
    }
}

// -------------------------------------------------------------------
// Frozen test: an out_len == 0 piece (a deletion) is STORED, and
// the source tiling stays gap-free.
// -------------------------------------------------------------------
#[test]
fn test_deletion_piece_is_stored_and_tiling_is_gap_free() {
    // verbatim 4..7, deleted 7..11, verbatim 11..14 (the
    // escaped-break shape from the fixtures note).
    let mut b = ProvenanceBuilder::in_file(FileId(0), 0);
    b.verbatim(4..7);
    b.replacement(7..11, 0);
    b.verbatim(11..14);
    let si = b.finish();
    match si {
        SourceInfo::Concat { pieces } => {
            assert_eq!(pieces.len(), 3, "the deletion piece must not be dropped");
            assert_eq!(si_length(&pieces[1].source_info), 4);
            assert_eq!(pieces[1].length, 0, "deletion produces zero content bytes");
            // Tiling: pieces' source ranges must abut with no gap.
            assert_eq!(source_range(&pieces[0].source_info), 4..7);
            assert_eq!(source_range(&pieces[1].source_info), 7..11);
            assert_eq!(source_range(&pieces[2].source_info), 11..14);
        }
        other => panic!("expected a 3-piece Concat, got {other:?}"),
    }
}

// -------------------------------------------------------------------
// Frozen test: in_parent over a real Concat parent yields
// parent-relative pieces (never resolves absolute positions).
// -------------------------------------------------------------------
#[test]
fn test_in_parent_over_concat_parent_yields_parent_relative_pieces() {
    let parent = SourceInfo::concat(vec![
        (SourceInfo::original(FileId(1), 0, 5), 5),
        (SourceInfo::original(FileId(1), 10, 15), 5),
    ]);
    assert!(
        parent.resolve_byte_range().is_none(),
        "sanity: Concat has no resolvable range"
    );

    // Case A: a single verbatim piece collapses to a Substring
    // directly over the Concat parent — no resolve_byte_range call
    // is needed or made.
    let mut single = ProvenanceBuilder::in_parent(parent.clone(), 0);
    single.verbatim(2..6);
    match single.finish() {
        SourceInfo::Substring {
            parent: p,
            start_offset,
            end_offset,
        } => {
            assert!(matches!(*p, SourceInfo::Concat { .. }));
            assert_eq!(start_offset, 2);
            assert_eq!(end_offset, 6);
        }
        other => panic!("expected a Substring over the Concat parent, got {other:?}"),
    }

    // Case B: verbatim + replacement (does not collapse) yields a
    // Concat whose pieces are each Substrings over the same parent.
    let mut multi = ProvenanceBuilder::in_parent(parent.clone(), 0);
    multi.verbatim(0..4);
    multi.replacement(4..6, 1);
    match multi.finish() {
        SourceInfo::Concat { pieces } => {
            assert_eq!(pieces.len(), 2);
            for piece in &pieces {
                match &piece.source_info {
                    SourceInfo::Substring { parent: p, .. } => {
                        assert!(matches!(**p, SourceInfo::Concat { .. }));
                    }
                    other => panic!("expected a Substring piece, got {other:?}"),
                }
            }
            match &pieces[0].source_info {
                SourceInfo::Substring {
                    start_offset,
                    end_offset,
                    ..
                } => {
                    assert_eq!(*start_offset, 0);
                    assert_eq!(*end_offset, 4);
                }
                _ => unreachable!(),
            }
            match &pieces[1].source_info {
                SourceInfo::Substring {
                    start_offset,
                    end_offset,
                    ..
                } => {
                    assert_eq!(*start_offset, 4);
                    assert_eq!(*end_offset, 6);
                }
                _ => unreachable!(),
            }
        }
        other => panic!("expected a 2-piece Concat, got {other:?}"),
    }
}

// -------------------------------------------------------------------
// Additional cases named alongside the frozen tests: one
// replacement, synthesis, adjacent replacements, a replacement at
// offset 0, and a replacement at the end.
// -------------------------------------------------------------------

#[test]
fn test_single_replacement_does_not_collapse() {
    // k: '''' -> value "'" : a single 2->1 replacement. Must stay a
    // 1-piece Concat, not collapse to Original{4,6} (which would
    // violate the length invariant: length() 2 != decoded.len() 1).
    let mut b = ProvenanceBuilder::in_file(FileId(0), 4);
    b.replacement(4..6, 1);
    let si = b.finish();
    match si {
        SourceInfo::Concat { pieces } => {
            assert_eq!(pieces.len(), 1);
            assert_eq!(pieces[0].length, 1);
            assert_eq!(si_length(&pieces[0].source_info), 2);
        }
        other => panic!("expected a 1-piece Concat, got {other:?}"),
    }
}

#[test]
fn test_synthesis_empty_src_range_with_positive_out_len() {
    // block | no final newline: verbatim 7..10, then a synthesized
    // trailing newline with no source byte at all: replacement(10..10, 1).
    let mut b = ProvenanceBuilder::in_file(FileId(0), 7);
    b.verbatim(7..10);
    b.replacement(10..10, 1);
    let si = b.finish();
    match si {
        SourceInfo::Concat { pieces } => {
            assert_eq!(pieces.len(), 2);
            assert_eq!(pieces[1].length, 1);
            assert_eq!(source_range(&pieces[1].source_info), 10..10);
        }
        other => panic!("expected a 2-piece Concat, got {other:?}"),
    }
}

#[test]
fn test_adjacent_replacements_do_not_coalesce() {
    let mut b = ProvenanceBuilder::in_file(FileId(0), 0);
    b.replacement(0..2, 1);
    b.replacement(2..4, 1);
    let si = b.finish();
    match si {
        SourceInfo::Concat { pieces } => {
            assert_eq!(
                pieces.len(),
                2,
                "replacements never coalesce, even when adjacent"
            );
            assert_eq!(source_range(&pieces[0].source_info), 0..2);
            assert_eq!(source_range(&pieces[1].source_info), 2..4);
        }
        other => panic!("expected a 2-piece Concat, got {other:?}"),
    }
}

#[test]
fn test_replacement_at_offset_zero() {
    let mut b = ProvenanceBuilder::in_file(FileId(0), 0);
    b.replacement(0..2, 1);
    b.verbatim(2..5);
    let si = b.finish();
    match si {
        SourceInfo::Concat { pieces } => {
            assert_eq!(pieces.len(), 2);
            assert_eq!(source_range(&pieces[0].source_info), 0..2);
        }
        other => panic!("expected a 2-piece Concat, got {other:?}"),
    }
}

#[test]
fn test_replacement_at_the_end() {
    let mut b = ProvenanceBuilder::in_file(FileId(0), 0);
    b.verbatim(0..3);
    b.replacement(3..5, 1);
    let si = b.finish();
    match si {
        SourceInfo::Concat { pieces } => {
            assert_eq!(pieces.len(), 2);
            assert_eq!(source_range(&pieces[1].source_info), 3..5);
            assert_eq!(pieces[1].length, 1);
        }
        other => panic!("expected a 2-piece Concat, got {other:?}"),
    }
}

// -------------------------------------------------------------------
// Test helpers
// -------------------------------------------------------------------

fn si_length(si: &SourceInfo) -> usize {
    si.length()
}

fn source_range(si: &SourceInfo) -> Range<usize> {
    match si {
        SourceInfo::Original {
            start_offset,
            end_offset,
            ..
        } => *start_offset..*end_offset,
        SourceInfo::Substring {
            start_offset,
            end_offset,
            ..
        } => *start_offset..*end_offset,
        other => panic!("source_range: unexpected variant {other:?}"),
    }
}

// -------------------------------------------------------------------
// Further cases: laws on concrete values and edge cases.
// -------------------------------------------------------------------

#[test]
fn test_emitted_length_is_the_decoded_length() {
    // "aaa\nbbb" -> "aaa bbb": 7 content bytes.
    let mut b = ProvenanceBuilder::in_file(FileId(0), 0);
    b.verbatim(0..3);
    b.replacement(3..4, 1);
    b.verbatim(4..7);
    assert_eq!(b.finish().length(), 7);

    // k: '''' -> "'": 1 content byte from 2 source bytes.
    let mut b = ProvenanceBuilder::in_file(FileId(0), 4);
    b.replacement(4..6, 1);
    assert_eq!(b.finish().length(), 1);

    // A deletion contributes nothing.
    let mut b = ProvenanceBuilder::in_file(FileId(0), 0);
    b.verbatim(4..7);
    b.replacement(7..11, 0);
    b.verbatim(11..14);
    assert_eq!(b.finish().length(), 6);

    // All-verbatim: the collapsed leaf has the content's length.
    let mut b = ProvenanceBuilder::in_file(FileId(2), 0);
    b.verbatim(5..8);
    b.verbatim(8..20);
    assert_eq!(b.finish().length(), 15);
}

#[test]
fn test_verbatim_after_replacement_merges_with_next_verbatim_only() {
    let mut b = ProvenanceBuilder::in_file(FileId(1), 0);
    b.replacement(0..2, 1);
    b.verbatim(2..4);
    b.verbatim(4..6);
    match b.finish() {
        SourceInfo::Concat { pieces } => {
            assert_eq!(pieces.len(), 2);
            assert_eq!(source_range(&pieces[0].source_info), 0..2);
            assert_eq!(pieces[0].length, 1);
            assert_eq!(source_range(&pieces[1].source_info), 2..6);
            assert_eq!(pieces[1].length, 4);
        }
        other => panic!("expected a 2-piece Concat, got {other:?}"),
    }
}

#[test]
fn test_verbatim_runs_around_a_replacement_stay_separate() {
    let mut b = ProvenanceBuilder::in_file(FileId(0), 0);
    b.verbatim(0..1);
    b.verbatim(1..2);
    b.replacement(2..3, 2);
    b.verbatim(3..4);
    b.verbatim(4..9);
    match b.finish() {
        SourceInfo::Concat { pieces } => {
            assert_eq!(pieces.len(), 3);
            assert_eq!(source_range(&pieces[0].source_info), 0..2);
            assert_eq!(pieces[0].length, 2);
            assert_eq!(source_range(&pieces[1].source_info), 2..3);
            assert_eq!(pieces[1].length, 2);
            assert_eq!(source_range(&pieces[2].source_info), 3..9);
            assert_eq!(pieces[2].length, 6);
        }
        other => panic!("expected a 3-piece Concat, got {other:?}"),
    }
}

#[test]
fn test_single_verbatim_in_parent_is_a_substring() {
    let parent = SourceInfo::original(FileId(4), 100, 200);
    let mut b = ProvenanceBuilder::in_parent(parent.clone(), 0);
    b.verbatim(10..20);
    match b.finish() {
        SourceInfo::Substring {
            parent: p,
            start_offset,
            end_offset,
        } => {
            assert_eq!(*p, parent);
            assert_eq!(start_offset, 10);
            assert_eq!(end_offset, 20);
        }
        other => panic!("expected a Substring, got {other:?}"),
    }
}

#[test]
fn test_zero_pieces_in_parent_yields_empty_substring_at_anchor() {
    let parent = SourceInfo::original(FileId(1), 0, 50);
    let b = ProvenanceBuilder::in_parent(parent.clone(), 17);
    match b.finish() {
        SourceInfo::Substring {
            parent: p,
            start_offset,
            end_offset,
        } => {
            assert_eq!(*p, parent);
            assert_eq!(start_offset, 17);
            assert_eq!(end_offset, 17);
        }
        other => panic!("expected a zero-length Substring, got {other:?}"),
    }
}

#[test]
fn test_every_concat_piece_shares_the_parent() {
    let parent = SourceInfo::concat(vec![
        (SourceInfo::original(FileId(1), 0, 5), 5),
        (SourceInfo::original(FileId(2), 10, 15), 5),
    ]);
    let mut b = ProvenanceBuilder::in_parent(parent.clone(), 0);
    b.verbatim(0..2);
    b.replacement(2..3, 0);
    b.verbatim(3..10);
    match b.finish() {
        SourceInfo::Concat { pieces } => {
            assert_eq!(pieces.len(), 3);
            for piece in &pieces {
                match &piece.source_info {
                    SourceInfo::Substring { parent: p, .. } => assert_eq!(**p, parent),
                    other => panic!("expected a Substring piece, got {other:?}"),
                }
            }
            assert_eq!(pieces[1].length, 0);
            assert_eq!(source_range(&pieces[2].source_info), 3..10);
        }
        other => panic!("expected a 3-piece Concat, got {other:?}"),
    }
}

#[test]
fn test_empty_verbatim_range_adds_nothing_to_a_run() {
    let mut b = ProvenanceBuilder::in_file(FileId(0), 0);
    b.verbatim(2..5);
    b.verbatim(5..5);
    b.verbatim(5..8);
    match b.finish() {
        SourceInfo::Original {
            start_offset,
            end_offset,
            ..
        } => {
            assert_eq!(start_offset, 2);
            assert_eq!(end_offset, 8);
        }
        other => panic!("expected a contiguous Original, got {other:?}"),
    }
}

#[test]
fn test_synthesis_alone_is_a_one_piece_concat() {
    let mut b = ProvenanceBuilder::in_file(FileId(0), 9);
    b.replacement(9..9, 1);
    match b.finish() {
        SourceInfo::Concat { pieces } => {
            assert_eq!(pieces.len(), 1);
            assert_eq!(source_range(&pieces[0].source_info), 9..9);
            assert_eq!(pieces[0].length, 1);
        }
        other => panic!("expected a 1-piece Concat, got {other:?}"),
    }
}

#[test]
fn test_resolve_byte_range() {
    let orig = SourceInfo::original(FileId(3), 10, 40);
    assert_eq!(orig.resolve_byte_range(), Some((FileId(3), 10, 40)));

    let mut b = ProvenanceBuilder::in_parent(orig.clone(), 0);
    b.verbatim(5..9);
    let sub = b.finish();
    assert_eq!(sub.resolve_byte_range(), Some((FileId(3), 15, 19)));

    let cat = SourceInfo::concat(vec![(orig.clone(), 30)]);
    assert_eq!(cat.resolve_byte_range(), None);

    let mut b = ProvenanceBuilder::in_parent(cat, 0);
    b.verbatim(1..2);
    assert_eq!(b.finish().resolve_byte_range(), None);
}

#[test]
fn test_concat_length_is_the_sum_of_its_pieces() {
    let cat = SourceInfo::concat(vec![
        (SourceInfo::original(FileId(0), 0, 3), 3),
        (SourceInfo::original(FileId(0), 3, 4), 1),
        (SourceInfo::original(FileId(0), 4, 8), 0),
    ]);
    assert_eq!(cat.length(), 4);
    assert_eq!(SourceInfo::concat(Vec::new()).length(), 0);
    assert_eq!(SourceInfo::original(FileId(0), 6, 6).length(), 0);
}

#[test]
fn test_clone_keeps_the_shape() {
    let cat = SourceInfo::concat(vec![
        (SourceInfo::original(FileId(0), 0, 3), 3),
        (SourceInfo::original(FileId(1), 7, 9), 2),
    ]);
    assert_eq!(cat.clone(), cat);
}

#[test]
fn test_clone_copies_nested_pieces() {
    let inner = SourceInfo::concat(vec![
        (SourceInfo::original(FileId(5), 1, 2), 1),
        (SourceInfo::original(FileId(6), 3, 7), 4),
    ]);
    let mut b = ProvenanceBuilder::in_parent(inner.clone(), 0);
    b.verbatim(0..2);
    b.replacement(2..5, 1);
    let outer = SourceInfo::concat(vec![(inner.clone(), 5), (b.finish(), 3)]);
    let copy = outer.clone();
    assert_eq!(copy, outer);
    assert_eq!(copy.length(), 8);
    match &copy {
        SourceInfo::Concat { pieces } => {
            assert_eq!(pieces[0].source_info, inner);
            assert_eq!(pieces[1].clone(), pieces[1]);
        }
        other => panic!("expected a Concat, got {other:?}"),
    }
}
