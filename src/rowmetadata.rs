//! What the session records about each ledger row: whether it is hidden and
//! which receipt file is assigned to it, and the canonical name of that file.

use vstd::prelude::*;
use crate::ledger::CsvRow;
use crate::naming::{
    dir_part, dir_prefix, file_name, file_name_part, index_text, lemma_dir_part_of_join,
    lemma_index_text_no_slash, lemma_no_slash_concat, lemma_sanitized_no_slash, no_slash,
    padded_index, sanitize_label, sanitized,
};

verus! {

/// The abstract value of a row's metadata.
pub struct RowMeta {
    pub hidden: bool,
    pub receipt: Option<Seq<char>>,
}

/// The metadata of one ledger row.
#[derive(Debug, Clone)]
pub struct RowMetaData {
    pub hidden: bool,
    pub receipt: Option<String>,
}

/// The text of an optional string.
pub open spec fn opt_text(s: Option<String>) -> Option<Seq<char>> {
    match s {
        Some(t) => Some(t@),
        None => None,
    }
}

impl View for RowMetaData {
    type V = RowMeta;

    open spec fn view(&self) -> RowMeta {
        RowMeta { hidden: self.hidden, receipt: opt_text(self.receipt) }
    }
}

/// Metadata of a row that nothing has touched: shown, no receipt.
pub open spec fn default_meta() -> RowMeta {
    RowMeta { hidden: false, receipt: None }
}

/// The canonical file name of the receipt of row `idx` with cells `cells`:
/// the zero-padded row number, a dash, the date (cell 0), the amount (cell 3),
/// `EUR-`, the label (cell 2) with `'/'` turned into `'_'`, and `.pdf`.
pub open spec fn receipt_name(idx: nat, cells: Seq<Seq<char>>) -> Seq<char> {
    index_text(idx) + seq!['-'] + cells[0] + cells[3] + seq!['E', 'U', 'R', '-'] + sanitized(
        cells[2],
    ) + seq!['.', 'p', 'd', 'f']
}

/// Where the receipt at `receipt` belongs once assigned to row `idx` with
/// cells `cells`: its canonical name, in the receipt's own directory. A row of
/// fewer than four cells gives no name.
pub open spec fn target_path(receipt: Seq<char>, idx: nat, cells: Seq<Seq<char>>) -> Option<
    Seq<char>,
> {
    if cells.len() >= 4 {
        Some(dir_part(receipt) + receipt_name(idx, cells))
    } else {
        None
    }
}

impl RowMeta {
    /// The path this row's receipt should have, if a receipt is assigned and
    /// the row has the cells that name it.
    pub open spec fn target(self, idx: nat, cells: Seq<Seq<char>>) -> Option<Seq<char>> {
        match self.receipt {
            Some(r) => target_path(r, idx, cells),
            None => None,
        }
    }

    /// No receipt, or the receipt already at its canonical path.
    pub open spec fn name_correct(self, idx: nat, cells: Seq<Seq<char>>) -> bool {
        match self.receipt {
            Some(r) => self.target(idx, cells) == Some(r),
            None => true,
        }
    }
}

impl Default for RowMetaData {
    fn default() -> (r: RowMetaData)
        ensures
            r@ == default_meta(),
    {
        RowMetaData { hidden: false, receipt: None }
    }
}

/// The canonical name of the receipt of row `idx`; the row has at least four cells.
fn canonical_name(idx: usize, row: &CsvRow) -> (r: String)
    requires
        row@.len() >= 4,
    ensures
        r@ == receipt_name(idx as nat, row@),
{
    proof {
        reveal_strlit("-");
        reveal_strlit("EUR-");
        reveal_strlit(".pdf");
    }
    let mut r = padded_index(idx);
    r.append("-");
    r.append(row.cells[0].as_str());
    r.append(row.cells[3].as_str());
    r.append("EUR-");
    let label = sanitize_label(row.cells[2].as_str());
    r.append(label.as_str());
    r.append(".pdf");
    assert("-"@ =~= seq!['-']);
    assert("EUR-"@ =~= seq!['E', 'U', 'R', '-']);
    assert(".pdf"@ =~= seq!['.', 'p', 'd', 'f']);
    r
}

impl RowMetaData {
    /// The path that this row's receipt should have: its canonical name in the
    /// receipt's directory. `None` without a receipt. A row with a receipt has
    /// the four cells that name it.
    pub fn target_file_name(&self, idx: usize, row: &CsvRow) -> (r: Option<String>)
        requires
            self@.receipt is Some ==> row@.len() >= 4,
        ensures
            opt_text(r) == self@.target(idx as nat, row@),
    {
        match &self.receipt {
            Some(receipt) => {
                let mut target = String::from_str(dir_prefix(receipt.as_str()));
                let name = canonical_name(idx, row);
                target.append(name.as_str());
                Some(target)
            },
            None => None,
        }
    }

    /// Whether the receipt, if any, already has its canonical path. A row with
    /// a receipt has the four cells that name it.
    pub fn is_name_correct(&self, idx: usize, row: &CsvRow) -> (r: bool)
        requires
            self@.receipt is Some ==> row@.len() >= 4,
        ensures
            r == self@.name_correct(idx as nat, row@),
    {
        let target = self.target_file_name(idx, row);
        match &self.receipt {
            Some(receipt) => match target {
                Some(t) => t == *receipt,
                None => false,
            },
            None => true,
        }
    }

    /// The file name of the assigned receipt, for display; `None` without a
    /// receipt or when its path has no file name (it ends in `..`, or is the
    /// root or empty).
    pub fn get_receipt_filename(&self) -> (r: Option<&str>)
        ensures
            match self@.receipt {
                Some(p) => match file_name(p) {
                    Some(f) => r matches Some(g) && g@ == f,
                    None => r is None,
                },
                None => r is None,
            },
    {
        match &self.receipt {
            Some(receipt) => file_name_part(receipt.as_str()),
            None => None,
        }
    }
}

/// A receipt already at its canonical path stays there: the canonical path of
/// a canonical path is itself, when the row's date and amount hold no `'/'`.
/// Naming depends on nothing but the receipt's directory, the row index and
/// the cells.
pub proof fn lemma_target_is_settled(receipt: Seq<char>, idx: nat, cells: Seq<Seq<char>>)
    requires
        cells.len() >= 4,
        no_slash(cells[0]),
        no_slash(cells[3]),
    ensures
        target_path(target_path(receipt, idx, cells)->0, idx, cells) == target_path(receipt, idx, cells),
{
    let name = receipt_name(idx, cells);
    lemma_index_text_no_slash(idx);
    lemma_sanitized_no_slash(cells[2]);
    assert(no_slash(seq!['-']));
    assert(no_slash(seq!['E', 'U', 'R', '-']));
    assert(no_slash(seq!['.', 'p', 'd', 'f']));
    lemma_no_slash_concat(index_text(idx), seq!['-']);
    lemma_no_slash_concat(index_text(idx) + seq!['-'], cells[0]);
    lemma_no_slash_concat(index_text(idx) + seq!['-'] + cells[0], cells[3]);
    lemma_no_slash_concat(index_text(idx) + seq!['-'] + cells[0] + cells[3], seq!['E', 'U', 'R', '-']);
    lemma_no_slash_concat(
        index_text(idx) + seq!['-'] + cells[0] + cells[3] + seq!['E', 'U', 'R', '-'],
        sanitized(cells[2]),
    );
    lemma_no_slash_concat(
        index_text(idx) + seq!['-'] + cells[0] + cells[3] + seq!['E', 'U', 'R', '-'] + sanitized(cells[2]),
        seq!['.', 'p', 'd', 'f'],
    );
    lemma_dir_part_of_join(receipt, name);
}

} // verus!
