//! The reconciliation session: ledger rows, their metadata, the pool of
//! unassigned receipts, the rows on display, and the commands that change them.

use vstd::prelude::*;
use crate::ledger::{max_cells, max_width, read_records, rows_view, csv_records, CsvRow};
use crate::naming::{
    dir_part, dir_prefix, has_csv_extension, has_pdf_extension, is_csv_path, is_pdf_path,
};
use crate::naming::no_slash;
use crate::rowmetadata::{
    default_meta, lemma_target_is_settled, opt_text, target_path, RowMeta, RowMetaData,
};

verus! {

/// Each index of `v` as an integer.
pub open spec fn as_ints(v: Seq<usize>) -> Seq<int> {
    v.map_values(|x: usize| x as int)
}

/// The text of each string of `v`.
pub open spec fn texts(v: Seq<String>) -> Seq<Seq<char>> {
    v.map_values(|s: String| s@)
}

/// The abstract value of each metadata record of `v`.
pub open spec fn meta_view(v: Seq<RowMetaData>) -> Seq<RowMeta> {
    v.map_values(|m: RowMetaData| m@)
}

/// No receipt path is assigned to two rows.
pub open spec fn receipts_unique(meta: Seq<RowMeta>) -> bool {
    forall|i: int, j: int|
        0 <= i < meta.len() && 0 <= j < meta.len() && i != j && (#[trigger] meta[i]).receipt
            is Some ==> meta[i].receipt != (#[trigger] meta[j]).receipt
}

/// Some row holds the receipt at `path`.
pub open spec fn is_assigned(meta: Seq<RowMeta>, path: Seq<char>) -> bool {
    exists|i: int| 0 <= i < meta.len() && (#[trigger] meta[i]).receipt == Some(path)
}

/// The paths of `scan` that no row holds, in scan order.
pub open spec fn unassigned(scan: Seq<Seq<char>>, meta: Seq<RowMeta>) -> Seq<Seq<char>>
    decreases scan.len(),
{
    if scan.len() == 0 {
        scan
    } else {
        let prev = unassigned(scan.drop_last(), meta);
        if is_assigned(meta, scan.last()) {
            prev
        } else {
            prev.push(scan.last())
        }
    }
}

/// The paths of `listing` that name receipt documents, in order.
pub open spec fn pdf_paths(listing: Seq<Seq<char>>) -> Seq<Seq<char>>
    decreases listing.len(),
{
    if listing.len() == 0 {
        listing
    } else {
        let prev = pdf_paths(listing.drop_last());
        if is_pdf_path(listing.last()) {
            prev.push(listing.last())
        } else {
            prev
        }
    }
}

/// The rows that are not hidden, in increasing order.
pub open spec fn shown_rows(meta: Seq<RowMeta>) -> Seq<int>
    decreases meta.len(),
{
    if meta.len() == 0 {
        Seq::empty()
    } else {
        let prev = shown_rows(meta.drop_last());
        if meta.last().hidden {
            prev
        } else {
            prev.push(meta.len() - 1)
        }
    }
}

/// The rows on display: all of them in "show hidden" mode, else the rows not hidden.
pub open spec fn displayed(meta: Seq<RowMeta>, show_hidden: bool) -> Seq<int> {
    if show_hidden {
        Seq::new(meta.len(), |i: int| i)
    } else {
        shown_rows(meta)
    }
}

/// No row before `i` holds the receipt of row `i`.
pub open spec fn first_holder(meta: Seq<RowMeta>, i: int) -> bool {
    forall|j: int| 0 <= j < i ==> meta[j].receipt != meta[i].receipt
}

/// `meta` with each receipt that an earlier row already holds taken off its
/// later row; hidden flags and every other receipt are kept.
pub open spec fn drop_repeated_receipts(meta: Seq<RowMeta>) -> Seq<RowMeta> {
    Seq::new(
        meta.len(),
        |i: int|
            RowMeta {
                hidden: meta[i].hidden,
                receipt: if first_holder(meta, i) {
                    meta[i].receipt
                } else {
                    None
                },
            },
    )
}

/// The metadata that loading `persisted` gives a ledger of `n` rows: `n`
/// fresh records when fewer than `n` were saved, else the first `n` saved
/// records, with a receipt that repeats an earlier row's taken off.
pub open spec fn loaded_meta(persisted: Seq<RowMeta>, n: nat) -> Seq<RowMeta> {
    if persisted.len() < n {
        Seq::new(n, |_i: int| default_meta())
    } else {
        drop_repeated_receipts(persisted.take(n as int))
    }
}

/// The abstract value of persisted session state.
pub struct StateView {
    pub show_hidden: bool,
    pub meta: Seq<RowMeta>,
}

/// The durable part of a session: the display mode and the metadata of every row.
#[derive(Debug)]
pub struct StateData {
    pub show_hidden: bool,
    pub row_meta_data: Vec<RowMetaData>,
}

impl View for StateData {
    type V = StateView;

    open spec fn view(&self) -> StateView {
        StateView { show_hidden: self.show_hidden, meta: meta_view(self.row_meta_data@) }
    }
}

impl Default for StateData {
    fn default() -> (r: StateData)
        ensures
            r@.show_hidden == false,
            r@.meta.len() == 0,
    {
        StateData { show_hidden: false, row_meta_data: Vec::new() }
    }
}

/// Why a session command was refused.
#[derive(Debug, Clone, Copy, PartialEq, Eq, Structural)]
pub enum ProjectError {
    /// The ledger file's extension is not `csv`.
    NotCsv,
    /// The row index is not below the number of rows.
    RowOutOfRange,
    /// The index of the dragged receipt is not below the size of the pool.
    ReceiptOutOfRange,
    /// The row already holds a receipt; clear it first.
    RowOccupied,
    /// Another row already holds this receipt.
    ReceiptInUse,
    /// The row has fewer than four cells, so its receipt has no canonical name.
    NoCanonicalName,
    /// The canonical path is held by another row's receipt or names a file
    /// that the scan found.
    TargetInUse,
}

/// What renaming the receipt of row `idx` takes: `Ok(None)` when there is
/// nothing to do (no receipt, or it already has its canonical path), else the
/// move from the current path to the canonical one; refused when the row does
/// not exist, has no canonical name, or the canonical path is taken: another
/// row holds it or the scan lists a file there.
pub open spec fn rename_step(v: ProjectView, idx: int) -> Result<
    Option<(Seq<char>, Seq<char>)>,
    ProjectError,
> {
    if idx < 0 || idx >= v.meta.len() {
        Err(ProjectError::RowOutOfRange)
    } else {
        match v.meta[idx].receipt {
            None => Ok(None),
            Some(from) => match target_path(from, idx as nat, v.rows[idx]) {
                None => Err(ProjectError::NoCanonicalName),
                Some(to) => if to == from {
                    Ok(None)
                } else if is_assigned(v.meta, to) || v.scan.contains(to) {
                    Err(ProjectError::TargetInUse)
                } else {
                    Ok(Some((from, to)))
                },
            },
        }
    }
}

/// `scan` with every occurrence of `from` replaced by `to`.
pub open spec fn replace_path(scan: Seq<Seq<char>>, from: Seq<char>, to: Seq<char>) -> Seq<
    Seq<char>,
> {
    scan.map_values(|f: Seq<char>| if f == from { to } else { f })
}

/// The session after the receipt of row `idx` moved from `from` to `to`.
pub open spec fn renamed_view(v: ProjectView, idx: int, from: Seq<char>, to: Seq<char>) -> ProjectView {
    let meta = v.meta.update(idx, RowMeta { hidden: v.meta[idx].hidden, receipt: Some(to) });
    let scan = replace_path(v.scan, from, to);
    ProjectView { meta, scan, pool: unassigned(scan, meta), visible: shown_rows(meta).len(), ..v }
}

/// A file move that a rename asks for.
#[derive(Debug)]
pub struct RenameStep {
    pub from: String,
    pub to: String,
}

/// The abstract value of a session.
pub struct ProjectView {
    pub show_hidden: bool,
    pub input: Seq<char>,
    pub rows: Seq<Seq<Seq<char>>>,
    pub meta: Seq<RowMeta>,
    pub scan: Seq<Seq<char>>,
    pub pool: Seq<Seq<char>>,
    pub visible: nat,
    pub max_cells: nat,
    pub drag_source: Option<usize>,
    pub drop_target: Option<usize>,
}

impl ProjectView {
    /// One metadata record per row, no receipt on two rows, the widest row known.
    pub open spec fn base_ok(self) -> bool {
        &&& self.rows.len() == self.meta.len()
        &&& receipts_unique(self.meta)
        &&& self.max_cells == max_width(self.rows)
    }

    /// The session's invariant: `base_ok`, the pool is the scanned receipts no
    /// row holds, and the visible count is the number of rows not hidden.
    pub open spec fn wf(self) -> bool {
        &&& self.base_ok()
        &&& self.pool == unassigned(self.scan, self.meta)
        &&& self.visible == shown_rows(self.meta).len()
    }

    /// This session with metadata `meta`, and the pool and visible count that
    /// follow from it.
    pub open spec fn with_meta(self, meta: Seq<RowMeta>) -> ProjectView {
        ProjectView {
            meta,
            pool: unassigned(self.scan, meta),
            visible: shown_rows(meta).len(),
            ..self
        }
    }

    /// This session without a gesture under way.
    pub open spec fn without_gesture(self) -> ProjectView {
        ProjectView { drag_source: None, drop_target: None, ..self }
    }
}

/// Why assigning the receipt at `path` to row `idx` is refused, if it is.
pub open spec fn assign_error(v: ProjectView, idx: int, path: Seq<char>) -> Option<ProjectError> {
    if idx < 0 || idx >= v.meta.len() {
        Some(ProjectError::RowOutOfRange)
    } else if v.meta[idx].receipt is Some {
        Some(ProjectError::RowOccupied)
    } else if is_assigned(v.meta, path) {
        Some(ProjectError::ReceiptInUse)
    } else {
        None
    }
}

/// The session after row `idx` is given the receipt at `path`.
pub open spec fn assigned_view(v: ProjectView, idx: int, path: Seq<char>) -> ProjectView {
    v.with_meta(v.meta.update(idx, RowMeta { hidden: v.meta[idx].hidden, receipt: Some(path) }))
}

/// The session that opening a ledger gives: rows `rows`, receipts found in
/// `listing`, metadata loaded from `persisted`, no gesture under way.
pub open spec fn opened(
    input: Seq<char>,
    rows: Seq<Seq<Seq<char>>>,
    listing: Seq<Seq<char>>,
    persisted: StateView,
) -> ProjectView {
    let meta = loaded_meta(persisted.meta, rows.len());
    let scan = pdf_paths(listing);
    ProjectView {
        show_hidden: persisted.show_hidden,
        input,
        rows,
        meta,
        scan,
        pool: unassigned(scan, meta),
        visible: shown_rows(meta).len(),
        max_cells: max_width(rows),
        drag_source: None,
        drop_target: None,
    }
}

/// A reconciliation session over one ledger file.
#[derive(Debug)]
pub struct Project {
    state: StateData,
    input_file: String,
    rows: Vec<CsvRow>,
    scanned: Vec<String>,
    pdfs: Vec<String>,
    visible_rows: usize,
    max_cells: usize,
    drop_row: Option<usize>,
    drag_row: Option<usize>,
}

impl View for Project {
    type V = ProjectView;

    closed spec fn view(&self) -> ProjectView {
        ProjectView {
            show_hidden: self.state.show_hidden,
            input: self.input_file@,
            rows: rows_view(self.rows@),
            meta: meta_view(self.state.row_meta_data@),
            scan: texts(self.scanned@),
            pool: texts(self.pdfs@),
            visible: self.visible_rows as nat,
            max_cells: self.max_cells as nat,
            drag_source: self.drag_row,
            drop_target: self.drop_row,
        }
    }
}

/// The first row below `upto` that holds the receipt at `path`.
fn holder_of(meta: &Vec<RowMetaData>, upto: usize, path: &String) -> (r: Option<usize>)
    requires
        upto <= meta@.len(),
    ensures
        match r {
            Some(j) => j < upto && meta@[j as int]@.receipt == Some(path@),
            None => forall|j: int| 0 <= j < upto ==> meta@[j]@.receipt != Some(path@),
        },
{
    let mut j: usize = 0;
    while j < upto
        invariant
            upto <= meta@.len(),
            j <= upto,
            forall|k: int| 0 <= k < j ==> meta@[k]@.receipt != Some(path@),
        decreases upto - j,
    {
        match &meta[j].receipt {
            Some(p) => {
                if *p == *path {
                    return Some(j);
                }
            },
            None => {},
        }
        j = j + 1;
    }
    None
}

/// The first `n` records of `meta`, with each receipt that an earlier record
/// already holds taken off.
fn without_repeats(meta: &Vec<RowMetaData>, n: usize) -> (r: Vec<RowMetaData>)
    requires
        n <= meta@.len(),
    ensures
        meta_view(r@) == drop_repeated_receipts(meta_view(meta@).take(n as int)),
{
    let ghost mv = meta_view(meta@).take(n as int);
    let mut r: Vec<RowMetaData> = Vec::new();
    let mut i: usize = 0;
    while i < n
        invariant
            n <= meta@.len(),
            i <= n,
            mv == meta_view(meta@).take(n as int),
            r@.len() == i,
            forall|k: int| 0 <= k < i ==> #[trigger] r@[k]@ == drop_repeated_receipts(mv)[k],
        decreases n - i,
    {
        let receipt = match &meta[i].receipt {
            Some(p) => match holder_of(meta, i, p) {
                Some(j) => {
                    assert(mv[j as int].receipt == mv[i as int].receipt);
                    None
                },
                None => Some(p.clone()),
            },
            None => None,
        };
        assert(mv[i as int] == meta@[i as int]@);
        r.push(RowMetaData { hidden: meta[i].hidden, receipt });
        i = i + 1;
    }
    assert(meta_view(r@) =~= drop_repeated_receipts(mv));
    r
}

/// Taking repeated receipts off leaves no receipt on two rows.
proof fn lemma_drop_repeated_unique(meta: Seq<RowMeta>)
    ensures
        receipts_unique(drop_repeated_receipts(meta)),
{
    let d = drop_repeated_receipts(meta);
    assert forall|i: int, j: int|
        0 <= i < d.len() && 0 <= j < d.len() && i != j && (#[trigger] d[i]).receipt
            is Some implies d[i].receipt != (#[trigger] d[j]).receipt by {
        if d[j].receipt is Some && d[i].receipt == d[j].receipt {
            if i < j {
                assert(meta[i].receipt == meta[j].receipt);
            } else {
                assert(meta[j].receipt == meta[i].receipt);
            }
        }
    }
}

/// The receipt documents among the paths of a directory listing, in order.
pub fn find_pdfs(listing: &Vec<String>) -> (r: Vec<String>)
    ensures
        texts(r@) == pdf_paths(texts(listing@)),
{
    let mut r: Vec<String> = Vec::new();
    let mut i: usize = 0;
    while i < listing.len()
        invariant
            i <= listing@.len(),
            texts(r@) == pdf_paths(texts(listing@.take(i as int))),
        decreases listing.len() - i,
    {
        assert(texts(listing@.take(i + 1)).drop_last() =~= texts(listing@.take(i as int)));
        assert(texts(listing@.take(i + 1)).last() == listing@[i as int]@);
        if has_pdf_extension(listing[i].as_str()) {
            r.push(listing[i].clone());
            assert(texts(r@) =~= pdf_paths(texts(listing@.take(i as int))).push(listing@[i as int]@));
        }
        i = i + 1;
    }
    assert(listing@.take(i as int) =~= listing@);
    r
}

/// The path of the state file that belongs with the ledger at `input_file`:
/// `state.ron` in the ledger's directory.
pub fn state_file_path(input_file: &str) -> (r: String)
    ensures
        r@ == dir_part(input_file@) + "state.ron"@,
{
    let mut r = String::from_str(dir_prefix(input_file));
    r.append("state.ron");
    r
}

proof fn lemma_shown_rows_len(meta: Seq<RowMeta>)
    ensures
        shown_rows(meta).len() <= meta.len(),
    decreases meta.len(),
{
    if meta.len() > 0 {
        lemma_shown_rows_len(meta.drop_last());
    }
}

/// `n` metadata records with default values.
fn fresh_meta(n: usize) -> (r: Vec<RowMetaData>)
    ensures
        meta_view(r@) == Seq::new(n as nat, |_i: int| default_meta()),
{
    let mut r: Vec<RowMetaData> = Vec::new();
    let mut i: usize = 0;
    while i < n
        invariant
            i <= n,
            r@.len() == i,
            forall|k: int| 0 <= k < i ==> #[trigger] r@[k]@ == default_meta(),
        decreases n - i,
    {
        r.push(RowMetaData { hidden: false, receipt: None });
        i = i + 1;
    }
    assert(meta_view(r@) =~= Seq::new(n as nat, |_i: int| default_meta()));
    r
}

impl Project {
    /// The session invariant holds.
    pub open spec fn wf(&self) -> bool {
        self@.wf()
    }

    /// Recomputes the pool: the scanned receipts that no row holds.
    fn refresh_pool(&mut self)
        requires
            old(self)@.base_ok(),
        ensures
            final(self)@ == (ProjectView { pool: unassigned(old(self)@.scan, old(self)@.meta), ..old(self)@ }),
    {
        let n = self.state.row_meta_data.len();
        let ghost mv = meta_view(self.state.row_meta_data@);
        let ghost sv = texts(self.scanned@);
        let mut pool: Vec<String> = Vec::new();
        let mut i: usize = 0;
        while i < self.scanned.len()
            invariant
                i <= self.scanned@.len(),
                n == self.state.row_meta_data@.len(),
                mv == meta_view(self.state.row_meta_data@),
                sv == texts(self.scanned@),
                texts(pool@) == unassigned(sv.take(i as int), mv),
            decreases self.scanned.len() - i,
        {
            assert(sv.take(i + 1).drop_last() =~= sv.take(i as int));
            assert(sv.take(i + 1).last() == self.scanned@[i as int]@);
            match holder_of(&self.state.row_meta_data, n, &self.scanned[i]) {
                Some(j) => {
                    assert(mv[j as int].receipt == Some(sv[i as int]));
                },
                None => {
                    assert(!is_assigned(mv, sv[i as int]));
                    pool.push(self.scanned[i].clone());
                    assert(texts(pool@) =~= unassigned(sv.take(i as int), mv).push(sv[i as int]));
                },
            }
            i = i + 1;
        }
        assert(sv.take(i as int) =~= sv);
        self.pdfs = pool;
    }

    /// Recomputes the count of rows that are not hidden.
    pub fn update_hidden(&mut self)
        requires
            old(self)@.base_ok(),
            old(self)@.pool == unassigned(old(self)@.scan, old(self)@.meta),
        ensures
            final(self)@ == (ProjectView { visible: shown_rows(old(self)@.meta).len(), ..old(self)@ }),
            final(self).wf(),
    {
        let ghost mv = meta_view(self.state.row_meta_data@);
        let mut count: usize = 0;
        let mut i: usize = 0;
        while i < self.state.row_meta_data.len()
            invariant
                i <= self.state.row_meta_data@.len(),
                mv == meta_view(self.state.row_meta_data@),
                count == shown_rows(mv.take(i as int)).len(),
            decreases self.state.row_meta_data.len() - i,
        {
            assert(mv.take(i + 1).drop_last() =~= mv.take(i as int));
            proof {
                lemma_shown_rows_len(mv.take(i as int));
            }
            if !self.state.row_meta_data[i].hidden {
                count = count + 1;
            }
            i = i + 1;
        }
        assert(mv.take(i as int) =~= mv);
        self.visible_rows = count;
    }

    /// Takes over persisted state: its display mode, and its metadata when it
    /// has a record for every row, with a receipt that repeats an earlier row's
    /// taken off; when it has fewer records than rows, every row starts afresh.
    /// Records past the last row are dropped.
    pub fn load(&mut self, persisted: StateData)
        requires
            old(self)@.max_cells == max_width(old(self)@.rows),
        ensures
            final(self).wf(),
            final(self)@ == (ProjectView {
                show_hidden: persisted@.show_hidden,
                meta: loaded_meta(persisted@.meta, old(self)@.rows.len()),
                pool: unassigned(old(self)@.scan, loaded_meta(persisted@.meta, old(self)@.rows.len())),
                visible: shown_rows(loaded_meta(persisted@.meta, old(self)@.rows.len())).len(),
                drag_source: None,
                drop_target: None,
                ..old(self)@
            }),
    {
        let n = self.rows.len();
        let show_hidden = persisted.show_hidden;
        let meta = if persisted.row_meta_data.len() < n {
            let fresh = fresh_meta(n);
            proof {
                let f = Seq::new(n as nat, |_i: int| default_meta());
                assert forall|i: int, j: int|
                    0 <= i < f.len() && 0 <= j < f.len() && i != j && (#[trigger] f[i]).receipt
                        is Some implies f[i].receipt != (#[trigger] f[j]).receipt by {}
            }
            fresh
        } else {
            proof {
                lemma_drop_repeated_unique(persisted@.meta.take(n as int));
            }
            without_repeats(&persisted.row_meta_data, n)
        };
        self.state = StateData { show_hidden, row_meta_data: meta };
        self.drag_row = None;
        self.drop_row = None;
        self.refresh_pool();
        self.update_hidden();
    }

    /// The session over ledger rows already parsed: `listing` is the content of
    /// the ledger's directory and `persisted` the state saved last time.
    pub fn from_rows(input_file: String, rows: Vec<CsvRow>, listing: &Vec<String>, persisted: StateData) -> (p: Project)
        ensures
            p.wf(),
            p@ == opened(input_file@, rows_view(rows@), texts(listing@), persisted@),
    {
        let max_cells = max_cells(&rows);
        let scanned = find_pdfs(listing);
        let mut p = Project {
            state: StateData::default(),
            input_file,
            rows,
            scanned,
            pdfs: Vec::new(),
            visible_rows: 0,
            max_cells,
            drop_row: None,
            drag_row: None,
        };
        p.load(persisted);
        p
    }

    /// Opens a session on the ledger file `input_file` whose text is `ledger`,
    /// fields separated by `delimiter`; bytes that are not UTF-8 are decoded
    /// lossily. Refused only when the file's extension is not `csv`.
    pub fn new(
        input_file: String,
        ledger: &[u8],
        delimiter: u8,
        listing: &Vec<String>,
        persisted: StateData,
    ) -> (r: Result<Project, ProjectError>)
        ensures
            !is_csv_path(input_file@) ==> r == Err::<Project, ProjectError>(ProjectError::NotCsv),
            is_csv_path(input_file@) ==> (r matches Ok(p) && p.wf() && p@ == opened(
                input_file@,
                csv_records(ledger@, delimiter),
                texts(listing@),
                persisted@,
            )),
    {
        if !has_csv_extension(input_file.as_str()) {
            return Err(ProjectError::NotCsv);
        }
        let rows = read_records(ledger, delimiter);
        Ok(Project::from_rows(input_file, rows, listing, persisted))
    }
}

/// A copy of an optional receipt path.
fn copy_receipt(r: &Option<String>) -> (c: Option<String>)
    ensures
        opt_text(c) == opt_text(*r),
{
    match r {
        Some(p) => Some(p.clone()),
        None => None,
    }
}

/// Giving row `idx` a receipt that no other row holds keeps receipts unique.
proof fn lemma_unique_update(meta: Seq<RowMeta>, idx: int, m: RowMeta)
    requires
        receipts_unique(meta),
        0 <= idx < meta.len(),
        m.receipt is None || m.receipt == meta[idx].receipt || !is_assigned(meta, m.receipt->0),
    ensures
        receipts_unique(meta.update(idx, m)),
{
    let u = meta.update(idx, m);
    assert forall|i: int, j: int|
        0 <= i < u.len() && 0 <= j < u.len() && i != j && (#[trigger] u[i]).receipt
            is Some implies u[i].receipt != (#[trigger] u[j]).receipt by {
        if i == idx && m.receipt != meta[idx].receipt {
            assert(meta[j].receipt != Some(m.receipt->0));
        } else if j == idx && m.receipt != meta[idx].receipt {
            if u[i].receipt == u[j].receipt {
                assert(meta[i].receipt == Some(m.receipt->0));
            }
        }
    }
}

impl Project {
    /// Replaces the metadata of row `idx` and recomputes what follows from it.
    fn put_meta(&mut self, idx: usize, m: RowMetaData)
        requires
            old(self).wf(),
            idx < old(self)@.meta.len(),
            m@.receipt is None || m@.receipt == old(self)@.meta[idx as int].receipt || !is_assigned(
                old(self)@.meta,
                m@.receipt->0,
            ),
        ensures
            final(self).wf(),
            final(self)@ == old(self)@.with_meta(old(self)@.meta.update(idx as int, m@)),
    {
        proof {
            lemma_unique_update(self@.meta, idx as int, m@);
        }
        self.state.row_meta_data.set(idx, m);
        assert(meta_view(self.state.row_meta_data@) =~= old(self)@.meta.update(idx as int, m@));
        self.refresh_pool();
        self.update_hidden();
    }

    /// Hides or shows row `idx`.
    pub fn set_hidden(&mut self, idx: usize, hidden: bool) -> (r: Result<(), ProjectError>)
        requires
            old(self).wf(),
        ensures
            final(self).wf(),
            idx >= old(self)@.meta.len() ==> r == Err::<(), ProjectError>(ProjectError::RowOutOfRange)
                && final(self)@ == old(self)@,
            idx < old(self)@.meta.len() ==> r is Ok && final(self)@ == old(self)@.with_meta(
                old(self)@.meta.update(
                    idx as int,
                    RowMeta { hidden, receipt: old(self)@.meta[idx as int].receipt },
                ),
            ),
    {
        if idx >= self.rows.len() {
            return Err(ProjectError::RowOutOfRange);
        }
        let receipt = copy_receipt(&self.state.row_meta_data[idx].receipt);
        self.put_meta(idx, RowMetaData { hidden, receipt });
        Ok(())
    }

    /// Turns "show hidden" mode on or off.
    pub fn set_show_hidden(&mut self, show_hidden: bool)
        requires
            old(self).wf(),
        ensures
            final(self).wf(),
            final(self)@ == (ProjectView { show_hidden, ..old(self)@ }),
    {
        self.state.show_hidden = show_hidden;
    }

    /// Assigns the receipt at `path` to row `idx`. Refused, with nothing
    /// changed, when the row does not exist, already holds a receipt, or
    /// another row holds this one.
    pub fn assign_receipt(&mut self, idx: usize, path: String) -> (r: Result<(), ProjectError>)
        requires
            old(self).wf(),
        ensures
            final(self).wf(),
            match assign_error(old(self)@, idx as int, path@) {
                Some(e) => r == Err::<(), ProjectError>(e) && final(self)@ == old(self)@,
                None => r is Ok && final(self)@ == assigned_view(old(self)@, idx as int, path@),
            },
    {
        if idx >= self.rows.len() {
            return Err(ProjectError::RowOutOfRange);
        }
        if self.state.row_meta_data[idx].receipt.is_some() {
            return Err(ProjectError::RowOccupied);
        }
        let n = self.rows.len();
        match holder_of(&self.state.row_meta_data, n, &path) {
            Some(j) => {
                assert(self@.meta[j as int].receipt == Some(path@));
                return Err(ProjectError::ReceiptInUse);
            },
            None => {},
        }
        let hidden = self.state.row_meta_data[idx].hidden;
        self.put_meta(idx, RowMetaData { hidden, receipt: Some(path) });
        Ok(())
    }

    /// Takes the receipt off row `idx`; it returns to the pool if it was scanned.
    pub fn clear_receipt(&mut self, idx: usize) -> (r: Result<(), ProjectError>)
        requires
            old(self).wf(),
        ensures
            final(self).wf(),
            idx >= old(self)@.meta.len() ==> r == Err::<(), ProjectError>(ProjectError::RowOutOfRange)
                && final(self)@ == old(self)@,
            idx < old(self)@.meta.len() ==> r is Ok && final(self)@ == old(self)@.with_meta(
                old(self)@.meta.update(
                    idx as int,
                    RowMeta { hidden: old(self)@.meta[idx as int].hidden, receipt: None },
                ),
            ),
    {
        if idx >= self.rows.len() {
            return Err(ProjectError::RowOutOfRange);
        }
        let hidden = self.state.row_meta_data[idx].hidden;
        self.put_meta(idx, RowMetaData { hidden, receipt: None });
        Ok(())
    }

    /// Takes every receipt off its row.
    pub fn clear_all(&mut self)
        requires
            old(self).wf(),
        ensures
            final(self).wf(),
            final(self)@ == old(self)@.with_meta(
                Seq::new(
                    old(self)@.meta.len(),
                    |i: int| RowMeta { hidden: old(self)@.meta[i].hidden, receipt: None },
                ),
            ),
    {
        let ghost target = Seq::new(
            old(self)@.meta.len(),
            |i: int| RowMeta { hidden: old(self)@.meta[i].hidden, receipt: None },
        );
        let n = self.state.row_meta_data.len();
        let mut i: usize = 0;
        while i < n
            invariant
                n == self.state.row_meta_data@.len() == old(self)@.meta.len(),
                i <= n,
                forall|k: int| 0 <= k < i ==> #[trigger] meta_view(self.state.row_meta_data@)[k] == target[k],
                forall|k: int| i <= k < n ==> #[trigger] meta_view(self.state.row_meta_data@)[k] == old(self)@.meta[k],
                target == Seq::new(
                    old(self)@.meta.len(),
                    |i: int| RowMeta { hidden: old(self)@.meta[i].hidden, receipt: None },
                ),
                self.rows@ == old(self).rows@,
                self.max_cells == old(self).max_cells,
                self.scanned@ == old(self).scanned@,
                self.input_file@ == old(self).input_file@,
                self.state.show_hidden == old(self).state.show_hidden,
                self.drag_row == old(self).drag_row,
                self.drop_row == old(self).drop_row,
            decreases n - i,
        {
            let hidden = self.state.row_meta_data[i].hidden;
            let ghost before = self.state.row_meta_data@;
            assert(meta_view(before)[i as int] == old(self)@.meta[i as int]);
            self.state.row_meta_data.set(i, RowMetaData { hidden, receipt: None });
            assert forall|k: int| 0 <= k < n && k != i implies #[trigger] meta_view(
                self.state.row_meta_data@,
            )[k] == meta_view(before)[k] by {
                assert(self.state.row_meta_data@[k] == before[k]);
            }
            assert(meta_view(self.state.row_meta_data@)[i as int] == target[i as int]);
            i = i + 1;
        }
        assert(meta_view(self.state.row_meta_data@) =~= target);
        assert forall|a: int, b: int|
            0 <= a < target.len() && 0 <= b < target.len() && a != b && (#[trigger] target[a]).receipt
                is Some implies target[a].receipt != (#[trigger] target[b]).receipt by {}
        self.refresh_pool();
        self.update_hidden();
    }

    /// Records the receipt being dragged, as its position in the pool.
    pub fn set_drag_source(&mut self, source: Option<usize>)
        requires
            old(self).wf(),
        ensures
            final(self).wf(),
            final(self)@ == (ProjectView { drag_source: source, ..old(self)@ }),
    {
        self.drag_row = source;
    }

    /// Records the row the dragged receipt hovers over.
    pub fn set_drop_target(&mut self, target: Option<usize>)
        requires
            old(self).wf(),
        ensures
            final(self).wf(),
            final(self)@ == (ProjectView { drop_target: target, ..old(self)@ }),
    {
        self.drop_row = target;
    }

    /// Ends a drag gesture: when a receipt of the pool was dragged onto a row,
    /// assigns it there (refused as `assign_receipt` refuses); either way both
    /// roles of the gesture are cleared. `Ok(true)` when a receipt was assigned.
    pub fn check_drop(&mut self) -> (r: Result<bool, ProjectError>)
        requires
            old(self).wf(),
        ensures
            final(self).wf(),
            match (old(self)@.drag_source, old(self)@.drop_target) {
                (Some(s), Some(t)) => if s >= old(self)@.pool.len() {
                    r == Err::<bool, ProjectError>(ProjectError::ReceiptOutOfRange) && final(self)@
                        == old(self)@.without_gesture()
                } else {
                    match assign_error(old(self)@, t as int, old(self)@.pool[s as int]) {
                        Some(e) => r == Err::<bool, ProjectError>(e) && final(self)@
                            == old(self)@.without_gesture(),
                        None => r == Ok::<bool, ProjectError>(true) && final(self)@ == assigned_view(
                            old(self)@.without_gesture(),
                            t as int,
                            old(self)@.pool[s as int],
                        ),
                    }
                },
                _ => r == Ok::<bool, ProjectError>(false) && final(self)@ == old(self)@.without_gesture(),
            },
    {
        let source = self.drag_row;
        let target = self.drop_row;
        self.drag_row = None;
        self.drop_row = None;
        match (source, target) {
            (Some(s), Some(t)) => {
                if s >= self.pdfs.len() {
                    return Err(ProjectError::ReceiptOutOfRange);
                }
                let path = self.pdfs[s].clone();
                match self.assign_receipt(t, path) {
                    Ok(()) => Ok(true),
                    Err(e) => Err(e),
                }
            },
            _ => Ok(false),
        }
    }

    /// Takes a new listing of the ledger's directory: its receipt documents
    /// become the scan, and the pool is recomputed from it.
    pub fn reread_pdfs(&mut self, listing: &Vec<String>)
        requires
            old(self).wf(),
        ensures
            final(self).wf(),
            final(self)@ == (ProjectView {
                scan: pdf_paths(texts(listing@)),
                pool: unassigned(pdf_paths(texts(listing@)), old(self)@.meta),
                ..old(self)@
            }),
    {
        self.scanned = find_pdfs(listing);
        self.refresh_pool();
    }

    /// The underlying indices of the rows on display, in order.
    pub fn displayed_rows(&self) -> (r: Vec<usize>)
        requires
            self.wf(),
        ensures
            as_ints(r@) == displayed(self@.meta, self@.show_hidden),
    {
        let ghost mv = self@.meta;
        let show_hidden = self.state.show_hidden;
        let mut r: Vec<usize> = Vec::new();
        let mut i: usize = 0;
        while i < self.state.row_meta_data.len()
            invariant
                i <= mv.len(),
                mv == meta_view(self.state.row_meta_data@),
                show_hidden == self@.show_hidden,
                as_ints(r@) == displayed(mv.take(i as int), show_hidden),
            decreases self.state.row_meta_data.len() - i,
        {
            assert(mv.take(i + 1).drop_last() =~= mv.take(i as int));
            let ghost prev = r@;
            if show_hidden || !self.state.row_meta_data[i].hidden {
                r.push(i);
                assert(as_ints(r@) =~= as_ints(prev).push(i as int));
            }
            proof {
                if show_hidden {
                    assert(as_ints(r@) =~= Seq::new((i + 1) as nat, |k: int| k));
                } else {
                    assert(as_ints(r@) =~= shown_rows(mv.take(i + 1)));
                }
            }
            i = i + 1;
        }
        assert(mv.take(i as int) =~= mv);
        r
    }
}

/// Whether `path` is one of the paths of `scan`.
fn listed(scan: &Vec<String>, path: &String) -> (r: bool)
    ensures
        r == texts(scan@).contains(path@),
{
    let mut i: usize = 0;
    while i < scan.len()
        invariant
            i <= scan@.len(),
            forall|k: int| 0 <= k < i ==> scan@[k]@ != path@,
        decreases scan.len() - i,
    {
        if scan[i] == *path {
            assert(texts(scan@)[i as int] == path@);
            return true;
        }
        i = i + 1;
    }
    assert(!texts(scan@).contains(path@)) by {
        if texts(scan@).contains(path@) {
            let k = choose|k: int| 0 <= k < texts(scan@).len() && texts(scan@)[k] == path@;
            assert(scan@[k]@ == path@);
        }
    }
    false
}

/// `scan` with every path equal to `from` replaced by `to`.
fn replace_in(scan: &Vec<String>, from: &String, to: &String) -> (r: Vec<String>)
    ensures
        texts(r@) == replace_path(texts(scan@), from@, to@),
{
    let mut r: Vec<String> = Vec::new();
    let mut i: usize = 0;
    while i < scan.len()
        invariant
            i <= scan@.len(),
            r@.len() == i,
            forall|k: int| 0 <= k < i ==> #[trigger] r@[k]@ == replace_path(texts(scan@), from@, to@)[k],
        decreases scan.len() - i,
    {
        if scan[i] == *from {
            r.push(to.clone());
        } else {
            r.push(scan[i].clone());
        }
        i = i + 1;
    }
    assert(texts(r@) =~= replace_path(texts(scan@), from@, to@));
    r
}

impl Project {
    /// What renaming the receipt of row `idx` to its canonical path takes.
    pub fn plan_rename(&self, idx: usize) -> (r: Result<Option<RenameStep>, ProjectError>)
        requires
            self.wf(),
        ensures
            match rename_step(self@, idx as int) {
                Ok(Some((from, to))) => r matches Ok(Some(step)) && step.from@ == from && step.to@ == to,
                Ok(None) => r matches Ok(None),
                Err(e) => r matches Err(e2) && e2 == e,
            },
    {
        if idx >= self.rows.len() {
            return Err(ProjectError::RowOutOfRange);
        }
        let meta = &self.state.row_meta_data[idx];
        assert(meta@ == self@.meta[idx as int]);
        assert(self.rows@[idx as int]@ == self@.rows[idx as int]);
        let from = match &meta.receipt {
            None => {
                return Ok(None);
            },
            Some(from) => from,
        };
        if self.rows[idx].cells.len() < 4 {
            return Err(ProjectError::NoCanonicalName);
        }
        let to = match meta.target_file_name(idx, &self.rows[idx]) {
            Some(to) => to,
            None => {
                return Err(ProjectError::NoCanonicalName);
            },
        };
        if to == *from {
            return Ok(None);
        }
        match holder_of(&self.state.row_meta_data, self.rows.len(), &to) {
            Some(j) => {
                assert(self@.meta[j as int].receipt == Some(to@));
                return Err(ProjectError::TargetInUse);
            },
            None => {},
        }
        if listed(&self.scanned, &to) {
            return Err(ProjectError::TargetInUse);
        }
        Ok(Some(RenameStep { from: from.clone(), to }))
    }

    /// Records that the receipt of row `idx` now lies at its canonical path:
    /// the row holds the new path and the scan lists it in place of the old
    /// one. Call it once the file has been moved as `plan_rename` said.
    /// `Ok(false)` when there was nothing to rename.
    pub fn apply_rename(&mut self, idx: usize) -> (r: Result<bool, ProjectError>)
        requires
            old(self).wf(),
        ensures
            final(self).wf(),
            match rename_step(old(self)@, idx as int) {
                Ok(Some((from, to))) => r == Ok::<bool, ProjectError>(true) && final(self)@
                    == renamed_view(old(self)@, idx as int, from, to),
                Ok(None) => r == Ok::<bool, ProjectError>(false) && final(self)@ == old(self)@,
                Err(e) => r == Err::<bool, ProjectError>(e) && final(self)@ == old(self)@,
            },
    {
        match self.plan_rename(idx) {
            Ok(Some(step)) => {
                let hidden = self.state.row_meta_data[idx].hidden;
                let scanned = replace_in(&self.scanned, &step.from, &step.to);
                self.put_meta(idx, RowMetaData { hidden, receipt: Some(step.to) });
                self.scanned = scanned;
                self.refresh_pool();
                Ok(true)
            },
            Ok(None) => Ok(false),
            Err(e) => Err(e),
        }
    }
}

impl Project {
    /// The ledger rows.
    pub fn rows(&self) -> (r: &Vec<CsvRow>)
        ensures
            rows_view(r@) == self@.rows,
    {
        &self.rows
    }

    /// The durable part of the session, as it is saved.
    pub fn state(&self) -> (r: &StateData)
        ensures
            r@ == (StateView { show_hidden: self@.show_hidden, meta: self@.meta }),
    {
        &self.state
    }

    /// The metadata of row `idx`, if the row exists.
    pub fn row_meta(&self, idx: usize) -> (r: Option<&RowMetaData>)
        ensures
            idx < self@.meta.len() ==> (r matches Some(m) && m@ == self@.meta[idx as int]),
            idx >= self@.meta.len() ==> r is None,
    {
        if idx < self.state.row_meta_data.len() {
            Some(&self.state.row_meta_data[idx])
        } else {
            None
        }
    }

    /// The receipts of the pool: scanned, and held by no row.
    pub fn pdfs(&self) -> (r: &Vec<String>)
        ensures
            texts(r@) == self@.pool,
    {
        &self.pdfs
    }

    /// The path of the ledger file.
    pub fn input_file(&self) -> (r: &String)
        ensures
            r@ == self@.input,
    {
        &self.input_file
    }

    /// Whether "show hidden" mode is on.
    pub fn show_hidden(&self) -> (r: bool)
        ensures
            r == self@.show_hidden,
    {
        self.state.show_hidden
    }

    /// The number of rows that are not hidden.
    pub fn visible_rows(&self) -> (r: usize)
        requires
            self.wf(),
        ensures
            r == shown_rows(self@.meta).len(),
    {
        self.visible_rows
    }

    /// The number of cells of the longest row.
    pub fn max_cells(&self) -> (r: usize)
        requires
            self.wf(),
        ensures
            r == max_width(self@.rows),
    {
        self.max_cells
    }

    /// The number of rows on display.
    pub fn displayed_count(&self) -> (r: usize)
        requires
            self.wf(),
        ensures
            r == displayed(self@.meta, self@.show_hidden).len(),
    {
        if self.state.show_hidden {
            self.rows.len()
        } else {
            self.visible_rows
        }
    }

    /// Whether row `idx` can take a dropped receipt: it exists and holds none.
    pub fn can_accept(&self, idx: usize) -> (r: bool)
        ensures
            r == (idx < self@.meta.len() && self@.meta[idx as int].receipt is None),
    {
        idx < self.state.row_meta_data.len() && self.state.row_meta_data[idx].receipt.is_none()
    }

    /// The path of this session's state file: `state.ron` beside the ledger.
    pub fn state_file(&self) -> (r: String)
        ensures
            r@ == dir_part(self@.input) + "state.ron"@,
    {
        state_file_path(self.input_file.as_str())
    }
}

/// Loading gives one record per ledger row. When fewer records were saved
/// than there are rows, every record is the default one: the saved records
/// are discarded, not merged. Otherwise each row keeps its saved hidden flag,
/// and its saved receipt unless an earlier row holds the same one.
pub proof fn lemma_load_repairs(persisted: Seq<RowMeta>, n: nat)
    ensures
        loaded_meta(persisted, n).len() == n,
        persisted.len() < n ==> forall|i: int|
            0 <= i < n ==> #[trigger] loaded_meta(persisted, n)[i] == default_meta(),
        persisted.len() >= n ==> forall|i: int|
            0 <= i < n ==> (#[trigger] loaded_meta(persisted, n)[i]).hidden == persisted[i].hidden
                && (first_holder(persisted, i) ==> loaded_meta(persisted, n)[i].receipt
                == persisted[i].receipt),
        persisted.len() >= n && receipts_unique(persisted.take(n as int)) ==> loaded_meta(
            persisted,
            n,
        ) == persisted.take(n as int),
{
    if persisted.len() >= n {
        let t = persisted.take(n as int);
        assert forall|i: int| 0 <= i < n && first_holder(persisted, i) implies #[trigger] first_holder(t, i) by {
            assert forall|j: int| 0 <= j < i implies t[j].receipt != t[i].receipt by {
                assert(persisted[j].receipt != persisted[i].receipt);
            }
        }
        if receipts_unique(t) {
            assert forall|i: int| 0 <= i < n implies #[trigger] first_holder(t, i) || t[i].receipt is None by {
                if t[i].receipt is Some {
                    assert forall|j: int| 0 <= j < i implies t[j].receipt != t[i].receipt by {
                        assert(t[i].receipt != t[j].receipt);
                    }
                }
            }
            assert(loaded_meta(persisted, n) =~= t);
        }
    }
}

proof fn lemma_shown_prefix(meta: Seq<RowMeta>, k: int)
    requires
        0 <= k <= meta.len(),
    ensures
        shown_rows(meta.take(k)) == Seq::new(k as nat, |i: int| i).filter(|i: int| !meta[i].hidden),
    decreases k,
{
    let pred = |i: int| !meta[i].hidden;
    if k == 0 {
        reveal(Seq::filter);
        assert(Seq::new(0, |i: int| i).filter(pred) =~= Seq::<int>::empty());
    } else {
        lemma_shown_prefix(meta, k - 1);
        assert(meta.take(k).drop_last() =~= meta.take(k - 1));
        assert(Seq::new(k as nat, |i: int| i) =~= Seq::new((k - 1) as nat, |i: int| i).push(k - 1));
        Seq::new((k - 1) as nat, |i: int| i).lemma_filter_push(k - 1, pred);
    }
}

/// The rows on display outside "show hidden" mode are exactly the row
/// indices, in increasing order, filtered by "not hidden".
pub proof fn lemma_shown_rows_is_filter(meta: Seq<RowMeta>)
    ensures
        shown_rows(meta) == Seq::new(meta.len(), |i: int| i).filter(|i: int| !meta[i].hidden),
{
    lemma_shown_prefix(meta, meta.len() as int);
    assert(meta.take(meta.len() as int) =~= meta);
}

/// Flipping the hidden flag of one row changes the number of rows not hidden
/// by exactly one: up when the row was hidden, down when it was shown.
pub proof fn lemma_toggle_changes_count(meta: Seq<RowMeta>, idx: int)
    requires
        0 <= idx < meta.len(),
    ensures
        shown_rows(
            meta.update(idx, RowMeta { hidden: !meta[idx].hidden, receipt: meta[idx].receipt }),
        ).len() == shown_rows(meta).len() + if meta[idx].hidden {
            1int
        } else {
            -1int
        },
    decreases meta.len(),
{
    let m = RowMeta { hidden: !meta[idx].hidden, receipt: meta[idx].receipt };
    let u = meta.update(idx, m);
    if idx == meta.len() - 1 {
        assert(u.drop_last() =~= meta.drop_last());
    } else {
        assert(u.drop_last() =~= meta.drop_last().update(idx, m));
        lemma_toggle_changes_count(meta.drop_last(), idx);
    }
}

/// Assigning, clearing and renaming through the session's commands never
/// leaves one receipt on two rows.
pub proof fn lemma_commands_keep_receipts_unique(v: ProjectView, idx: int, path: Seq<char>)
    requires
        v.wf(),
    ensures
        assign_error(v, idx, path) is None ==> receipts_unique(assigned_view(v, idx, path).meta),
        0 <= idx < v.meta.len() ==> receipts_unique(
            v.meta.update(idx, RowMeta { hidden: v.meta[idx].hidden, receipt: None }),
        ),
        rename_step(v, idx) matches Ok(Some((from, to))) ==> receipts_unique(
            renamed_view(v, idx, from, to).meta,
        ),
{
    if assign_error(v, idx, path) is None {
        lemma_unique_update(v.meta, idx, RowMeta { hidden: v.meta[idx].hidden, receipt: Some(path) });
    }
    if 0 <= idx < v.meta.len() {
        lemma_unique_update(v.meta, idx, RowMeta { hidden: v.meta[idx].hidden, receipt: None });
    }
    if let Ok(Some((from, to))) = rename_step(v, idx) {
        lemma_unique_update(v.meta, idx, RowMeta { hidden: v.meta[idx].hidden, receipt: Some(to) });
    }
}

/// Renaming a receipt twice with the row's cells unchanged: the second rename
/// has nothing to do, when the row's date and amount hold no `'/'`.
pub proof fn lemma_second_rename_is_noop(v: ProjectView, idx: int)
    requires
        v.wf(),
        0 <= idx < v.rows.len() && v.rows[idx].len() >= 4 ==> no_slash(v.rows[idx][0]) && no_slash(
            v.rows[idx][3],
        ),
    ensures
        rename_step(v, idx) matches Ok(Some((from, to))) ==> rename_step(
            renamed_view(v, idx, from, to),
            idx,
        ) == Ok::<Option<(Seq<char>, Seq<char>)>, ProjectError>(None),
{
    if let Ok(Some((from, to))) = rename_step(v, idx) {
        lemma_target_is_settled(from, idx as nat, v.rows[idx]);
    }
}

} // verus!
