//! Structured provenance for virtual files.
//!
//! Some registered files are *virtual*: their content was extracted from
//! another file, such as a notebook cell from a `.ipynb`. [`FileOrigin`]
//! records that relationship so consumers can address the position the
//! author knows (the owning cell) and the real file on disk, instead of
//! encoding all of that into a synthetic file path.

use vstd::prelude::*;

verus! {

/// Where a virtual file's content really comes from.
///
/// The canonical display label (see [`FileOrigin::to_string`]) is what
/// diagnostics show the user; the structured fields are what structured
/// consumers get.
#[derive(Debug, Clone, PartialEq)]
pub enum FileOrigin {
    /// Content extracted from one cell of a computational notebook.
    NotebookCell {
        /// Path of the notebook file on disk.
        notebook_path: String,
        /// 1-based index of the cell within the notebook, counted over all
        /// cells regardless of type.
        cell_index: usize,
        /// The cell's `id` field, when present. Structured output only,
        /// never part of the text label.
        cell_id: Option<String>,
        /// The notebook cell type (`"code"`, `"markdown"`, `"raw"`).
        cell_type: String,
    },
}

/// The ASCII digit for `d` (`d < 10`).
pub open spec fn digit_char(d: nat) -> char {
    (d + 48) as char
}

/// The decimal representation of `n`: no sign, no leading zeros, `"0"` for
/// zero.
pub open spec fn decimal(n: nat) -> Seq<char>
    decreases n,
{
    if n < 10 {
        seq![digit_char(n)]
    } else {
        decimal(n / 10).push(digit_char(n % 10))
    }
}

impl FileOrigin {
    /// The display label: `{notebook_path}[cell {cell_index}, {cell_type}]`.
    pub open spec fn label(self) -> Seq<char> {
        match self {
            FileOrigin::NotebookCell { notebook_path, cell_index, cell_type, .. } => notebook_path@
                + seq!['[', 'c', 'e', 'l', 'l', ' '] + decimal(cell_index as nat) + seq![',', ' ']
                + cell_type@ + seq![']'],
        }
    }

    /// The canonical display label, e.g. `notebook.ipynb[cell 2, markdown]`.
    /// The cell id never appears in it.
    pub fn to_string(&self) -> (s: String)
        ensures
            s@ == self.label(),
    {
        match self {
            FileOrigin::NotebookCell { notebook_path, cell_index, cell_type, .. } => {
                let mut s = String::new();
                s.append(notebook_path.as_str());
                s.append("[cell ");
                push_decimal(&mut s, *cell_index);
                s.append(", ");
                s.append(cell_type.as_str());
                s.append("]");
                proof {
                    reveal_strlit("[cell ");
                    reveal_strlit(", ");
                    reveal_strlit("]");
                    assert(s@ =~= self.label());
                }
                s
            },
        }
    }
}

/// A label never depends on the cell id: two notebook-cell origins that
/// differ only in `cell_id` (one may have none) display the same.
pub proof fn lemma_label_ignores_cell_id(a: FileOrigin, b: FileOrigin)
    requires
        a->notebook_path == b->notebook_path,
        a->cell_index == b->cell_index,
        a->cell_type == b->cell_type,
    ensures
        a.label() == b.label(),
{
}

/// `s` is a base-10 numeral as written: at least one digit, only ASCII
/// digits, and no leading zero unless it is `"0"` itself.
pub open spec fn is_canonical_numeral(s: Seq<char>) -> bool {
    &&& s.len() > 0
    &&& forall|i: int| #![trigger s[i]] 0 <= i < s.len() ==> 48 <= (s[i] as int) <= 57
    &&& s.len() > 1 ==> s[0] != '0'
}

/// The number a string of ASCII digits reads as in base 10.
pub open spec fn numeral_value(s: Seq<char>) -> int
    decreases s.len(),
{
    if s.len() == 0 {
        0
    } else {
        numeral_value(s.drop_last()) * 10 + (s.last() as int - 48)
    }
}

/// The index text is the number itself: `decimal(n)` is a canonical
/// numeral that reads back as `n`.
pub proof fn lemma_decimal_reads_back(n: nat)
    ensures
        is_canonical_numeral(decimal(n)),
        numeral_value(decimal(n)) == n,
        n >= 1 ==> decimal(n)[0] != '0',
    decreases n,
{
    if n < 10 {
        let d = decimal(n);
        assert(d == seq![digit_char(n)]);
        assert((digit_char(n) as int) == n + 48);
        assert(d.drop_last() =~= Seq::<char>::empty());
        assert(numeral_value(d.drop_last()) == 0);
    } else {
        let q = (n / 10) as nat;
        let r = (n % 10) as nat;
        lemma_decimal_reads_back(q);
        let d = decimal(n);
        let dq = decimal(q);
        assert(d == dq.push(digit_char(r)));
        assert(d.drop_last() =~= dq);
        assert((digit_char(r) as int) == r + 48);
        assert(q * 10 + r == n) by (nonlinear_arith)
            requires
                q == n / 10,
                r == n % 10,
        ;
        assert forall|i: int| #![trigger d[i]] 0 <= i < d.len() implies 48 <= (d[i] as int) <= 57 by {
            if i < dq.len() {
                assert(d[i] == dq[i]);
            }
        }
        assert(d[0] == dq[0]);
    }
}

/// The label spells out the origin: the whole notebook path, unchanged,
/// then `[cell `, then the decimal numeral of the cell index, then `, `,
/// the whole cell type, and `]`.
pub proof fn lemma_label_spells_out_the_origin(o: FileOrigin)
    ensures
        o.label().take(o->notebook_path@.len() as int) == o->notebook_path@,
        exists|d: Seq<char>|
            #![trigger is_canonical_numeral(d)]
            is_canonical_numeral(d) && numeral_value(d) == o->cell_index && o.label() == o->notebook_path@
                + seq!['[', 'c', 'e', 'l', 'l', ' '] + d + seq![',', ' '] + o->cell_type@ + seq![
                ']',
            ],
{
    let d = decimal(o->cell_index as nat);
    lemma_decimal_reads_back(o->cell_index as nat);
    assert(o.label() == o->notebook_path@ + seq!['[', 'c', 'e', 'l', 'l', ' '] + d + seq![',', ' ']
        + o->cell_type@ + seq![']']);
    assert(o.label().take(o->notebook_path@.len() as int) =~= o->notebook_path@);
}

/// Appends the decimal representation of `n` to `s`.
fn push_decimal(s: &mut String, n: usize)
    ensures
        final(s)@ == old(s)@ + decimal(n as nat),
    decreases n,
{
    if n >= 10 {
        push_decimal(s, n / 10);
    }
    let d: u8 = (n % 10) as u8;
    push_char(s, (48u8 + d) as char);
    proof {
        assert(((48u8 + d) as char) == digit_char((n % 10) as nat));
        if n >= 10 {
            assert(decimal(n as nat) == decimal((n / 10) as nat).push(digit_char((n % 10) as nat)));
        }
        assert(s@ =~= old(s)@ + decimal(n as nat));
    }
}

/// Appends `c` to the end of `s`.
///
/// Calls `String::push`, which std documents as appending the given char to
/// the end of the string: the contract claims exactly that of the view.
#[verifier::external_body]
fn push_char(s: &mut String, c: char)
    ensures
        final(s)@ == old(s)@.push(c),
{
    s.push(c)
}

} // verus!
