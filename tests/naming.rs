use ccaccounting::naming::{
    dir_prefix, equals_ignore_ascii_case, extension_of, file_name_part, find_last,
    has_csv_extension, has_pdf_extension, padded_index, sanitize_label,
};
use ccaccounting::{CsvRow, RowMetaData};

fn row(cells: &[&str]) -> CsvRow {
    CsvRow { cells: cells.iter().map(|c| c.to_string()).collect() }
}

fn with_receipt(path: &str) -> RowMetaData {
    RowMetaData { hidden: false, receipt: Some(path.to_string()) }
}

#[test]
fn padded_index_pads_to_three() {
    assert_eq!(padded_index(0), "000");
    assert_eq!(padded_index(7), "007");
    assert_eq!(padded_index(42), "042");
    assert_eq!(padded_index(999), "999");
    assert_eq!(padded_index(1234), "1234");
}

#[test]
fn sanitize_replaces_slashes() {
    assert_eq!(sanitize_label("a/b/c"), "a_b_c");
    assert_eq!(sanitize_label("Rent"), "Rent");
    assert_eq!(sanitize_label(""), "");
}

#[test]
fn path_parts() {
    assert_eq!(dir_prefix("a/b/c.pdf"), "a/b/");
    assert_eq!(dir_prefix("c.pdf"), "");
    assert_eq!(dir_prefix("/c.pdf"), "/");
    assert_eq!(file_name_part("a/b/c.pdf"), Some("c.pdf"));
    assert_eq!(file_name_part("c.pdf"), Some("c.pdf"));
    assert_eq!(find_last("a/b/c", '/'), Some(3));
    assert_eq!(find_last("abc", '/'), None);
}

#[test]
fn file_names_follow_path_rules() {
    assert_eq!(file_name_part("a/b/"), Some("b"));
    assert_eq!(file_name_part("a/b//"), Some("b"));
    assert_eq!(file_name_part("a/b/."), Some("b"));
    assert_eq!(file_name_part("a/b/./"), Some("b"));
    assert_eq!(file_name_part("./a"), Some("a"));
    assert_eq!(file_name_part("a/.."), None);
    assert_eq!(file_name_part(".."), None);
    assert_eq!(file_name_part("/"), None);
    assert_eq!(file_name_part(""), None);
    assert_eq!(file_name_part("."), None);
    assert_eq!(file_name_part("a/..."), Some("..."));
    for p in ["a/b/", "a/b/.", "a/..", "/", "", ".", "x/y.pdf", "./a", "a/..."] {
        let expected = std::path::Path::new(p).file_name().and_then(|f| f.to_str());
        assert_eq!(file_name_part(p), expected, "{p}");
    }
}

#[test]
fn extensions() {
    assert_eq!(extension_of("dir/x.tar.gz"), Some("gz"));
    assert_eq!(extension_of("dir/.hidden"), None);
    assert_eq!(extension_of("dir.d/file"), None);
    assert!(has_pdf_extension("dir/a.pdf"));
    assert!(has_pdf_extension("dir/a.PDF"));
    assert!(has_pdf_extension("dir/a.Pdf"));
    assert!(!has_pdf_extension("dir/a.pdfx"));
    assert!(!has_pdf_extension("dir/.pdf"));
    assert!(!has_pdf_extension("x.pdf/readme"));
    assert!(has_pdf_extension("x/y.pdf/"));
    assert!(!has_pdf_extension("x/.."));
    for p in ["dir/x.tar.gz", "dir/.hidden", "dir.d/file", "x/y.pdf/", "a.", "x/.."] {
        let expected = std::path::Path::new(p).extension().and_then(|e| e.to_str());
        assert_eq!(extension_of(p), expected, "{p}");
    }
    assert!(has_csv_extension("dir/ledger.csv"));
    assert!(!has_csv_extension("dir/ledger.CSV"));
    assert!(!has_csv_extension("dir/ledger"));
    assert!(equals_ignore_ascii_case("PdF", "pdf"));
    assert!(!equals_ignore_ascii_case("pd", "pdf"));
}

#[test]
fn target_name_example() {
    let r = row(&["2022-01-05", "misc", "Rent", "-1200.00"]);
    let meta = with_receipt("foo.pdf");
    assert_eq!(
        meta.target_file_name(1, &r),
        Some("001-2022-01-05-1200.00EUR-Rent.pdf".to_string())
    );
    let meta = with_receipt("/tmp/receipts/foo.pdf");
    assert_eq!(
        meta.target_file_name(1, &r),
        Some("/tmp/receipts/001-2022-01-05-1200.00EUR-Rent.pdf".to_string())
    );
}

#[test]
fn target_name_sanitizes_label_only() {
    let r = row(&["05/01", "x", "Food/Drink", "12"]);
    let meta = with_receipt("d/a.pdf");
    assert_eq!(
        meta.target_file_name(12, &r),
        Some("d/012-05/0112EUR-Food_Drink.pdf".to_string())
    );
}

#[test]
fn target_name_is_deterministic() {
    let r = row(&["2022-02-01", "c", "Shop", "3.50"]);
    let meta = with_receipt("d/x.pdf");
    assert_eq!(meta.target_file_name(4, &r), meta.target_file_name(4, &r));
}

#[test]
fn target_name_needs_receipt_and_four_cells() {
    let r = row(&["2022-01-05", "misc", "Rent", "-1200.00"]);
    let meta = RowMetaData { hidden: false, receipt: None };
    assert_eq!(meta.target_file_name(0, &r), None);
    let short = row(&["2022-01-05", "misc", "Rent"]);
    assert_eq!(meta.target_file_name(0, &short), None);
    assert!(meta.is_name_correct(0, &short));
}

#[test]
fn name_correctness() {
    let r = row(&["2022-01-05", "misc", "Rent", "-1200.00"]);
    assert!(RowMetaData { hidden: false, receipt: None }.is_name_correct(1, &r));
    assert!(!with_receipt("d/foo.pdf").is_name_correct(1, &r));
    assert!(with_receipt("d/001-2022-01-05-1200.00EUR-Rent.pdf").is_name_correct(1, &r));
    assert!(!with_receipt("d/001-2022-01-05-1200.00EUR-Rent.pdf").is_name_correct(2, &r));
}

#[test]
fn receipt_filename_for_display() {
    assert_eq!(with_receipt("a/b/c.pdf").get_receipt_filename(), Some("c.pdf"));
    assert_eq!(with_receipt("c.pdf").get_receipt_filename(), Some("c.pdf"));
    assert_eq!(with_receipt("a/b/").get_receipt_filename(), Some("b"));
    assert_eq!(with_receipt("a/..").get_receipt_filename(), None);
    assert_eq!(with_receipt("/").get_receipt_filename(), None);
    assert_eq!(RowMetaData { hidden: true, receipt: None }.get_receipt_filename(), None);
}
