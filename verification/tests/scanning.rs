use csv_pipeline::scan::{filter_csv_paths, path_has_csv_ext};

#[test]
fn scan_keeps_exactly_matching_paths() {
    let paths = vec![
        String::from("./data/students1.csv"),
        String::from("./data/notes.txt"),
        String::from("./data/students2.csv"),
        String::from("README"),
        String::from("./data/UPPER.CSV"),
    ];
    let kept = filter_csv_paths(&paths);
    assert_eq!(
        kept,
        vec![String::from("./data/students1.csv"), String::from("./data/students2.csv")]
    );
    assert_eq!(kept.len(), 2);
}

#[test]
fn scan_of_no_matches_is_empty() {
    let paths = vec![String::from("a.txt"), String::from("csv"), String::from("x.csv.bak")];
    let kept = filter_csv_paths(&paths);
    assert!(kept.is_empty());
}

#[test]
fn suffix_check_is_exact() {
    assert!(path_has_csv_ext(&String::from("a.csv")));
    assert!(path_has_csv_ext(&String::from(".csv")));
    assert!(!path_has_csv_ext(&String::from("acsv")));
    assert!(!path_has_csv_ext(&String::from("a.csv ")));
    assert!(!path_has_csv_ext(&String::from("csv")));
}
