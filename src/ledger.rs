//! Ledger rows: parsing the delimited ledger text and the widest row.

use vstd::prelude::*;

verus! {

/// One ledger record: its cells, in order. Rows of a ledger may differ in length.
#[derive(Debug)]
pub struct CsvRow {
    pub cells: Vec<String>,
}

impl View for CsvRow {
    type V = Seq<Seq<char>>;

    open spec fn view(&self) -> Seq<Seq<char>> {
        self.cells@.map_values(|c: String| c@)
    }
}

/// The cells of each row of `rows`.
pub open spec fn rows_view(rows: Seq<CsvRow>) -> Seq<Seq<Seq<char>>> {
    rows.map_values(|r: CsvRow| r@)
}

/// The length of the longest row (zero for no rows).
pub open spec fn max_width(rows: Seq<Seq<Seq<char>>>) -> nat
    decreases rows.len(),
{
    if rows.len() == 0 {
        0
    } else {
        let m = max_width(rows.drop_last());
        if rows.last().len() > m {
            rows.last().len()
        } else {
            m
        }
    }
}

/// The records, each as its cells, that the csv crate's reader finds in `bytes`.
pub uninterp spec fn csv_records(bytes: Seq<u8>, delimiter: u8) -> Seq<Seq<Seq<char>>>;

/// Relies on csv's `ReaderBuilder` with `flexible(true)` and the given delimiter,
/// and on its `byte_records`: the records after the header record, each field
/// decoded with `String::from_utf8_lossy`. Reading from a byte slice with
/// flexible records reports no error (the reader cannot fail on the slice, no
/// record is refused for its length, and byte records are not checked as UTF-8).
#[verifier::external_body]
pub(crate) fn read_records(bytes: &[u8], delimiter: u8) -> (r: Vec<CsvRow>)
    ensures
        rows_view(r@) == csv_records(bytes@, delimiter),
{
    let mut reader = csv::ReaderBuilder::new().flexible(true).delimiter(delimiter).from_reader(
        bytes,
    );
    let mut rows = Vec::new();
    for record in reader.byte_records().flatten() {
        let cells = record.iter().map(|f| String::from_utf8_lossy(f).to_string()).collect();
        rows.push(CsvRow { cells });
    }
    rows
}

/// The number of cells in the longest of `rows`.
pub fn max_cells(rows: &Vec<CsvRow>) -> (r: usize)
    ensures
        r == max_width(rows_view(rows@)),
{
    let mut m: usize = 0;
    let mut i: usize = 0;
    while i < rows.len()
        invariant
            i <= rows@.len(),
            m == max_width(rows_view(rows@.subrange(0, i as int))),
        decreases rows.len() - i,
    {
        let len = rows[i].cells.len();
        assert(rows_view(rows@.subrange(0, i + 1)).drop_last() =~= rows_view(
            rows@.subrange(0, i as int),
        ));
        assert(rows_view(rows@.subrange(0, i + 1)).last() == rows[i as int]@);
        if len > m {
            m = len;
        }
        i = i + 1;
    }
    assert(rows@.subrange(0, i as int) =~= rows@);
    m
}

/// The widest row is as wide as every row, and, unless there are no rows, as
/// wide as one of them; with no rows it is zero, ragged rows included.
pub proof fn lemma_max_width_is_max(rows: Seq<Seq<Seq<char>>>)
    ensures
        forall|i: int| 0 <= i < rows.len() ==> #[trigger] rows[i].len() <= max_width(rows),
        rows.len() > 0 ==> exists|i: int| 0 <= i < rows.len() && #[trigger] rows[i].len() == max_width(rows),
        rows.len() == 0 ==> max_width(rows) == 0,
    decreases rows.len(),
{
    if rows.len() > 0 {
        let prev = rows.drop_last();
        lemma_max_width_is_max(prev);
        assert forall|i: int| 0 <= i < rows.len() implies #[trigger] rows[i].len() <= max_width(rows) by {
            if i < rows.len() - 1 {
                assert(prev[i] == rows[i]);
            }
        }
        if rows.last().len() > max_width(prev) {
            assert(rows[rows.len() - 1].len() == max_width(rows));
        } else if prev.len() > 0 {
            let j = choose|j: int| 0 <= j < prev.len() && #[trigger] prev[j].len() == max_width(prev);
            assert(rows[j].len() == max_width(rows));
        } else {
            assert(rows[0].len() == max_width(rows));
        }
    }
}

} // verus!
