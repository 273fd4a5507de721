use ccaccounting::project::{find_pdfs, state_file_path};
use ccaccounting::{Project, ProjectError, RowMetaData, StateData};

const LEDGER: &str = "date;category;label;amount\n\
2022-01-01;food;Bakery;-3.20\n\
2022-01-05;misc;Rent;-1200.00\n\
2022-01-09;misc;Train/Bus;-45.00\n";

fn listing(paths: &[&str]) -> Vec<String> {
    paths.iter().map(|p| p.to_string()).collect()
}

fn open_with(state: StateData) -> Project {
    let files = listing(&["d/foo.pdf", "d/ledger.csv", "d/bar.PDF", "d/notes.txt"]);
    Project::new("d/ledger.csv".to_string(), LEDGER.as_bytes(), b';', &files, state).unwrap()
}

fn open() -> Project {
    open_with(StateData::default())
}

fn meta(hidden: bool, receipt: Option<&str>) -> RowMetaData {
    RowMetaData { hidden, receipt: receipt.map(|r| r.to_string()) }
}

#[test]
fn opening_parses_rows_after_header() {
    let p = open();
    assert_eq!(p.rows().len(), 3);
    assert_eq!(p.rows()[1].cells, vec!["2022-01-05", "misc", "Rent", "-1200.00"]);
    assert_eq!(p.max_cells(), 4);
    assert_eq!(p.visible_rows(), 3);
    assert_eq!(p.state().row_meta_data.len(), 3);
    assert_eq!(p.pdfs(), &listing(&["d/foo.pdf", "d/bar.PDF"]));
    assert_eq!(p.input_file(), "d/ledger.csv");
}

#[test]
fn opening_with_other_delimiter() {
    let text = "a,b\n1,2,3\n4\n";
    let p = Project::new("x.csv".to_string(), text.as_bytes(), b',', &Vec::new(), StateData::default())
        .unwrap();
    assert_eq!(p.rows().len(), 2);
    assert_eq!(p.rows()[0].cells, vec!["1", "2", "3"]);
    assert_eq!(p.rows()[1].cells, vec!["4"]);
}

#[test]
fn max_cells_counts_ragged_rows() {
    let text = "h\na;b\na;b;c;d;e\na\n";
    let p = Project::new("r.csv".to_string(), text.as_bytes(), b';', &Vec::new(), StateData::default())
        .unwrap();
    assert_eq!(p.max_cells(), 5);
    let empty = Project::new("e.csv".to_string(), b"", b';', &Vec::new(), StateData::default())
        .unwrap();
    assert_eq!(empty.max_cells(), 0);
    assert_eq!(empty.rows().len(), 0);
}

#[test]
fn invalid_utf8_is_decoded_lossily() {
    let bytes: Vec<u8> = vec![b'h', b'\n', b'a', 0xff, b'b', b';', b'c', b'\n'];
    let p = Project::new("u.csv".to_string(), &bytes, b';', &Vec::new(), StateData::default())
        .unwrap();
    assert_eq!(p.rows()[0].cells, vec!["a\u{fffd}b", "c"]);
}

#[test]
fn ledger_must_be_csv() {
    let r = Project::new("d/ledger.txt".to_string(), LEDGER.as_bytes(), b';', &Vec::new(), StateData::default());
    assert_eq!(r.err(), Some(ProjectError::NotCsv));
}

#[test]
fn rename_to_canonical_name() {
    let mut p = open();
    assert_eq!(p.assign_receipt(1, "d/foo.pdf".to_string()), Ok(()));
    assert_eq!(p.pdfs(), &listing(&["d/bar.PDF"]));
    let step = p.plan_rename(1).unwrap().unwrap();
    assert_eq!(step.from, "d/foo.pdf");
    assert_eq!(step.to, "d/001-2022-01-05-1200.00EUR-Rent.pdf");
    assert_eq!(p.apply_rename(1), Ok(true));
    assert_eq!(
        p.row_meta(1).unwrap().receipt.as_deref(),
        Some("d/001-2022-01-05-1200.00EUR-Rent.pdf")
    );
    assert!(p.row_meta(1).unwrap().is_name_correct(1, &p.rows()[1]));
    assert_eq!(p.pdfs(), &listing(&["d/bar.PDF"]));
}

#[test]
fn rename_bare_file_name() {
    let mut p = Project::new("ledger.csv".to_string(), LEDGER.as_bytes(), b';', &listing(&["foo.pdf"]), StateData::default())
        .unwrap();
    p.assign_receipt(1, "foo.pdf".to_string()).unwrap();
    let step = p.plan_rename(1).unwrap().unwrap();
    assert_eq!(step.to, "001-2022-01-05-1200.00EUR-Rent.pdf");
}

#[test]
fn second_rename_is_noop() {
    let mut p = open();
    p.assign_receipt(1, "d/foo.pdf".to_string()).unwrap();
    assert_eq!(p.apply_rename(1), Ok(true));
    assert!(p.plan_rename(1).unwrap().is_none());
    assert_eq!(p.apply_rename(1), Ok(false));
    assert_eq!(
        p.row_meta(1).unwrap().receipt.as_deref(),
        Some("d/001-2022-01-05-1200.00EUR-Rent.pdf")
    );
}

#[test]
fn rename_without_receipt_is_noop() {
    let mut p = open();
    assert!(p.plan_rename(0).unwrap().is_none());
    assert_eq!(p.apply_rename(0), Ok(false));
}

#[test]
fn rename_errors() {
    let mut p = open();
    assert_eq!(p.apply_rename(3).err(), Some(ProjectError::RowOutOfRange));
    assert_eq!(p.plan_rename(9).err(), Some(ProjectError::RowOutOfRange));
    // row 0's receipt already sits at row 2's canonical path
    p.assign_receipt(0, "d/002-2022-01-09-45.00EUR-Train_Bus.pdf".to_string()).unwrap();
    p.assign_receipt(2, "d/foo.pdf".to_string()).unwrap();
    assert_eq!(p.plan_rename(2).err(), Some(ProjectError::TargetInUse));
    assert_eq!(p.apply_rename(2).err(), Some(ProjectError::TargetInUse));
    assert_eq!(p.row_meta(2).unwrap().receipt.as_deref(), Some("d/foo.pdf"));
}

#[test]
fn rename_onto_listed_file_is_refused() {
    let files = listing(&["d/foo.pdf", "d/001-2022-01-05-1200.00EUR-Rent.pdf"]);
    let mut p = Project::new("d/ledger.csv".to_string(), LEDGER.as_bytes(), b';', &files, StateData::default())
        .unwrap();
    p.assign_receipt(1, "d/foo.pdf".to_string()).unwrap();
    assert_eq!(p.plan_rename(1).err(), Some(ProjectError::TargetInUse));
    assert_eq!(p.apply_rename(1), Err(ProjectError::TargetInUse));
    assert_eq!(p.row_meta(1).unwrap().receipt.as_deref(), Some("d/foo.pdf"));
}

#[test]
fn rename_of_short_row_has_no_name() {
    let text = "h\n2022-01-01;x\n";
    let mut p = Project::new("s.csv".to_string(), text.as_bytes(), b';', &Vec::new(), StateData::default())
        .unwrap();
    p.assign_receipt(0, "a.pdf".to_string()).unwrap();
    assert_eq!(p.plan_rename(0).err(), Some(ProjectError::NoCanonicalName));
}

#[test]
fn rename_updates_scan() {
    let mut p = open();
    p.assign_receipt(1, "d/foo.pdf".to_string()).unwrap();
    p.apply_rename(1).unwrap();
    p.clear_receipt(1).unwrap();
    assert_eq!(
        p.pdfs(),
        &listing(&["d/001-2022-01-05-1200.00EUR-Rent.pdf", "d/bar.PDF"])
    );
}

#[test]
fn hide_and_show_row() {
    let mut p = open();
    assert_eq!(p.set_hidden(0, true), Ok(()));
    assert_eq!(p.visible_rows(), 2);
    assert_eq!(p.displayed_rows(), vec![1, 2]);
    assert_eq!(p.displayed_count(), 2);
    assert_eq!(p.set_hidden(0, false), Ok(()));
    assert_eq!(p.visible_rows(), 3);
    assert_eq!(p.displayed_rows(), vec![0, 1, 2]);
}

#[test]
fn toggling_changes_count_by_one() {
    let mut p = open();
    p.set_hidden(1, true).unwrap();
    let before = p.visible_rows();
    p.set_hidden(2, true).unwrap();
    assert_eq!(p.visible_rows(), before - 1);
    p.set_hidden(1, false).unwrap();
    assert_eq!(p.visible_rows(), before);
    assert_eq!(p.set_hidden(3, true).err(), Some(ProjectError::RowOutOfRange));
}

#[test]
fn displayed_rows_filter_hidden() {
    let mut p = open();
    p.set_hidden(1, true).unwrap();
    assert_eq!(p.displayed_rows(), vec![0, 2]);
    p.set_show_hidden(true);
    assert!(p.show_hidden());
    assert_eq!(p.displayed_rows(), vec![0, 1, 2]);
    assert_eq!(p.displayed_count(), 3);
}

#[test]
fn all_rows_hidden_display_nothing() {
    let mut p = open();
    for i in 0..3 {
        p.set_hidden(i, true).unwrap();
    }
    assert_eq!(p.visible_rows(), 0);
    assert!(p.displayed_rows().is_empty());
    assert_eq!(p.displayed_count(), 0);
}

#[test]
fn short_state_is_reset() {
    let state = StateData {
        show_hidden: true,
        row_meta_data: vec![meta(true, Some("d/foo.pdf")), meta(true, None)],
    };
    let files = listing(&["d/foo.pdf"]);
    let text = "h\na\nb\nc\nd\ne\n";
    let p = Project::new("d/l.csv".to_string(), text.as_bytes(), b';', &files, state).unwrap();
    assert_eq!(p.state().row_meta_data.len(), 5);
    for m in &p.state().row_meta_data {
        assert!(!m.hidden);
        assert!(m.receipt.is_none());
    }
    assert!(p.show_hidden());
    assert_eq!(p.visible_rows(), 5);
    assert_eq!(p.pdfs(), &files);
}

#[test]
fn loaded_state_is_kept() {
    let state = StateData {
        show_hidden: false,
        row_meta_data: vec![meta(true, None), meta(false, Some("d/foo.pdf")), meta(false, None)],
    };
    let p = open_with(state);
    assert_eq!(p.visible_rows(), 2);
    assert_eq!(p.row_meta(1).unwrap().receipt.as_deref(), Some("d/foo.pdf"));
    assert_eq!(p.pdfs(), &listing(&["d/bar.PDF"]));
}

#[test]
fn longer_state_is_truncated() {
    let state = StateData {
        show_hidden: false,
        row_meta_data: vec![
            meta(false, None),
            meta(true, None),
            meta(false, None),
            meta(true, Some("d/bar.PDF")),
        ],
    };
    let p = open_with(state);
    assert_eq!(p.state().row_meta_data.len(), 3);
    assert_eq!(p.visible_rows(), 2);
    assert_eq!(p.pdfs(), &listing(&["d/foo.pdf", "d/bar.PDF"]));
}

#[test]
fn state_with_duplicate_receipt_keeps_first_holder() {
    let state = StateData {
        show_hidden: false,
        row_meta_data: vec![meta(true, Some("d/foo.pdf")), meta(false, Some("d/foo.pdf")), meta(true, Some("d/bar.PDF"))],
    };
    let p = open_with(state);
    assert!(p.row_meta(0).unwrap().hidden);
    assert_eq!(p.row_meta(0).unwrap().receipt.as_deref(), Some("d/foo.pdf"));
    assert!(!p.row_meta(1).unwrap().hidden);
    assert!(p.row_meta(1).unwrap().receipt.is_none());
    assert!(p.row_meta(2).unwrap().hidden);
    assert_eq!(p.row_meta(2).unwrap().receipt.as_deref(), Some("d/bar.PDF"));
    assert_eq!(p.visible_rows(), 1);
    assert!(p.pdfs().is_empty());
}

#[test]
fn load_replaces_state() {
    let mut p = open();
    p.assign_receipt(0, "d/foo.pdf".to_string()).unwrap();
    p.load(StateData::default());
    assert_eq!(p.state().row_meta_data.len(), 3);
    assert!(p.row_meta(0).unwrap().receipt.is_none());
    assert_eq!(p.pdfs(), &listing(&["d/foo.pdf", "d/bar.PDF"]));
}

#[test]
fn occupied_row_is_refused() {
    let mut p = open();
    assert_eq!(p.assign_receipt(0, "d/foo.pdf".to_string()), Ok(()));
    assert_eq!(
        p.assign_receipt(0, "d/bar.PDF".to_string()),
        Err(ProjectError::RowOccupied)
    );
    assert_eq!(p.row_meta(0).unwrap().receipt.as_deref(), Some("d/foo.pdf"));
    assert_eq!(p.pdfs(), &listing(&["d/bar.PDF"]));
}

#[test]
fn receipt_in_use_is_refused() {
    let mut p = open();
    p.assign_receipt(0, "d/foo.pdf".to_string()).unwrap();
    assert_eq!(
        p.assign_receipt(1, "d/foo.pdf".to_string()),
        Err(ProjectError::ReceiptInUse)
    );
    assert!(p.row_meta(1).unwrap().receipt.is_none());
    assert_eq!(
        p.assign_receipt(7, "d/bar.PDF".to_string()),
        Err(ProjectError::RowOutOfRange)
    );
}

#[test]
fn clear_returns_receipt_to_pool() {
    let mut p = open();
    p.assign_receipt(2, "d/bar.PDF".to_string()).unwrap();
    assert_eq!(p.pdfs(), &listing(&["d/foo.pdf"]));
    assert_eq!(p.clear_receipt(2), Ok(()));
    assert_eq!(p.pdfs(), &listing(&["d/foo.pdf", "d/bar.PDF"]));
    assert_eq!(p.clear_receipt(3), Err(ProjectError::RowOutOfRange));
}

#[test]
fn clear_all_empties_rows() {
    let mut p = open();
    p.set_hidden(1, true).unwrap();
    p.assign_receipt(0, "d/foo.pdf".to_string()).unwrap();
    p.assign_receipt(1, "d/bar.PDF".to_string()).unwrap();
    assert!(p.pdfs().is_empty());
    p.clear_all();
    assert!(p.state().row_meta_data.iter().all(|m| m.receipt.is_none()));
    assert!(p.row_meta(1).unwrap().hidden);
    assert_eq!(p.pdfs().len(), 2);
}

#[test]
fn drop_assigns_dragged_receipt() {
    let mut p = open();
    assert!(p.can_accept(2));
    p.set_drag_source(Some(1));
    p.set_drop_target(Some(2));
    assert_eq!(p.check_drop(), Ok(true));
    assert_eq!(p.row_meta(2).unwrap().receipt.as_deref(), Some("d/bar.PDF"));
    assert!(!p.can_accept(2));
    assert!(!p.can_accept(3));
    assert_eq!(p.pdfs(), &listing(&["d/foo.pdf"]));
    assert_eq!(p.check_drop(), Ok(false));
}

#[test]
fn drop_without_target_clears_gesture() {
    let mut p = open();
    p.set_drag_source(Some(0));
    assert_eq!(p.check_drop(), Ok(false));
    p.set_drop_target(Some(1));
    assert_eq!(p.check_drop(), Ok(false));
    assert!(p.row_meta(1).unwrap().receipt.is_none());
}

#[test]
fn drop_errors() {
    let mut p = open();
    p.set_drag_source(Some(5));
    p.set_drop_target(Some(0));
    assert_eq!(p.check_drop(), Err(ProjectError::ReceiptOutOfRange));
    p.assign_receipt(0, "d/foo.pdf".to_string()).unwrap();
    p.set_drag_source(Some(0));
    p.set_drop_target(Some(0));
    assert_eq!(p.check_drop(), Err(ProjectError::RowOccupied));
    assert_eq!(p.row_meta(0).unwrap().receipt.as_deref(), Some("d/foo.pdf"));
    assert_eq!(p.check_drop(), Ok(false));
}

#[test]
fn reread_takes_new_listing() {
    let mut p = open();
    p.assign_receipt(0, "d/foo.pdf".to_string()).unwrap();
    p.reread_pdfs(&listing(&["d/foo.pdf", "d/new.pdf", "d/x.csv"]));
    assert_eq!(p.pdfs(), &listing(&["d/new.pdf"]));
}

#[test]
fn find_pdfs_keeps_receipts_in_order() {
    let found = find_pdfs(&listing(&["a/x.pdf", "a/y.txt", "a/z.PdF", "a/.pdf", "a/w"]));
    assert_eq!(found, listing(&["a/x.pdf", "a/z.PdF"]));
    assert!(find_pdfs(&Vec::new()).is_empty());
}

#[test]
fn state_file_beside_ledger() {
    assert_eq!(state_file_path("d/ledger.csv"), "d/state.ron");
    assert_eq!(state_file_path("/home/u/x/ledger.csv"), "/home/u/x/state.ron");
    assert_eq!(state_file_path("ledger.csv"), "state.ron");
    assert_eq!(open().state_file(), "d/state.ron");
}
