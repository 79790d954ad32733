use csv_pipeline::dedup::{duplicated_flags, unique_by};
use csv_pipeline::errors::StepError;
use csv_pipeline::table::{from_columns, Column, ColumnData, Table};

fn keyed() -> Table {
    let cols = vec![
        Column {
            name: String::from("key"),
            data: ColumnData::Texts(vec![
                String::from("A"),
                String::from("A"),
                String::from("B"),
            ]),
        },
        Column { name: String::from("row"), data: ColumnData::Ints(vec![1, 2, 3]) },
    ];
    from_columns(cols).unwrap()
}

#[test]
fn duplication_report_flags_shared_keys() {
    let t = keyed();
    let flags = duplicated_flags(&t, &String::from("key")).unwrap();
    assert_eq!(flags, vec![true, true, false]);
}

#[test]
fn duplication_report_needs_the_key_column() {
    let t = keyed();
    assert_eq!(
        duplicated_flags(&t, &String::from("missing")).unwrap_err(),
        StepError::UnknownColumn
    );
}

#[test]
fn keep_first_retains_one_row_per_key() {
    let t = keyed();
    let u = unique_by(&t, &String::from("key"), None).unwrap();
    assert_eq!(u.row_count(), 2);
    match &u.cols[0].data {
        ColumnData::Texts(v) => assert_eq!(v, &vec![String::from("A"), String::from("B")]),
        _ => panic!("expected a text column"),
    }
    match &u.cols[1].data {
        ColumnData::Ints(v) => assert_eq!(v, &vec![1i64, 3]),
        _ => panic!("expected an integer column"),
    }
}

#[test]
fn keep_first_is_deterministic() {
    let t = keyed();
    let a = unique_by(&t, &String::from("key"), None).unwrap();
    let b = unique_by(&t, &String::from("key"), None).unwrap();
    match (&a.cols[1].data, &b.cols[1].data) {
        (ColumnData::Ints(x), ColumnData::Ints(y)) => assert_eq!(x, y),
        _ => panic!("expected integer columns"),
    }
}

#[test]
fn slice_window_applies_after_deduplication() {
    let t = keyed();
    let u = unique_by(&t, &String::from("key"), Some((1, 1))).unwrap();
    assert_eq!(u.row_count(), 1);
    match &u.cols[0].data {
        ColumnData::Texts(v) => assert_eq!(v, &vec![String::from("B")]),
        _ => panic!("expected a text column"),
    }
}

#[test]
fn slice_window_is_clamped() {
    let t = keyed();
    let u = unique_by(&t, &String::from("key"), Some((5, 7))).unwrap();
    assert_eq!(u.row_count(), 0);
    let w = unique_by(&t, &String::from("key"), Some((0, 100))).unwrap();
    assert_eq!(w.row_count(), 2);
}

#[test]
fn integer_keys_deduplicate_by_value() {
    let cols = vec![Column {
        name: String::from("SCORE"),
        data: ColumnData::Ints(vec![41764, 41714, 41764]),
    }];
    let t = from_columns(cols).unwrap();
    let flags = duplicated_flags(&t, &String::from("SCORE")).unwrap();
    assert_eq!(flags, vec![true, false, true]);
    let u = unique_by(&t, &String::from("SCORE"), None).unwrap();
    match &u.cols[0].data {
        ColumnData::Ints(v) => assert_eq!(v, &vec![41764i64, 41714]),
        _ => panic!("expected an integer column"),
    }
}
