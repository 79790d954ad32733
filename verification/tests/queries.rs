use csv_pipeline::errors::StepError;
use csv_pipeline::query::{count_matches, filter_eq, select_columns, sort_column, with_row_count};
use csv_pipeline::table::{from_columns, Column, ColumnData, Table};

fn people() -> Table {
    let cols = vec![
        Column {
            name: String::from("name"),
            data: ColumnData::Texts(vec![
                String::from("Bob"),
                String::from("Alice"),
                String::from("Charlie"),
            ]),
        },
        Column { name: String::from("age"), data: ColumnData::Ints(vec![25, 30, 35]) },
    ];
    from_columns(cols).unwrap()
}

#[test]
fn from_columns_rejects_unequal_lengths() {
    let cols = vec![
        Column { name: String::from("a"), data: ColumnData::Ints(vec![1, 2]) },
        Column { name: String::from("b"), data: ColumnData::Ints(vec![1]) },
    ];
    assert_eq!(from_columns(cols).unwrap_err(), StepError::MalformedRow);
}

#[test]
fn projecting_a_missing_column_is_an_error() {
    let t = people();
    let r = select_columns(&t, &vec![String::from("address")]);
    assert_eq!(r.unwrap_err(), StepError::UnknownColumn);
}

#[test]
fn projecting_a_present_column_keeps_rows_and_order() {
    let t = people();
    let u = select_columns(&t, &vec![String::from("name")]).unwrap();
    assert_eq!(u.col_count(), 1);
    assert_eq!(u.row_count(), 3);
    match &u.cols[0].data {
        ColumnData::Texts(v) => assert_eq!(
            v,
            &vec![String::from("Bob"), String::from("Alice"), String::from("Charlie")]
        ),
        _ => panic!("expected a text column"),
    }
}

#[test]
fn projection_reorders_columns() {
    let t = people();
    let u = select_columns(&t, &vec![String::from("age"), String::from("name")]).unwrap();
    assert_eq!(u.cols[0].name, "age");
    assert_eq!(u.cols[1].name, "name");
}

#[test]
fn filtering_by_equality_counts_matches() {
    let t = people();
    assert_eq!(count_matches(&t, &String::from("age"), &String::from("25")).unwrap(), 1);
    let u = filter_eq(&t, &String::from("age"), &String::from("25")).unwrap();
    assert_eq!(u.row_count(), 1);
    match &u.cols[0].data {
        ColumnData::Texts(v) => assert_eq!(v, &vec![String::from("Bob")]),
        _ => panic!("expected a text column"),
    }
    match &u.cols[1].data {
        ColumnData::Ints(v) => assert_eq!(v, &vec![25i64]),
        _ => panic!("expected an integer column"),
    }
}

#[test]
fn filtering_by_a_text_literal() {
    let t = people();
    let u = filter_eq(&t, &String::from("name"), &String::from("Alice")).unwrap();
    assert_eq!(u.row_count(), 1);
    match &u.cols[1].data {
        ColumnData::Ints(v) => assert_eq!(v, &vec![30i64]),
        _ => panic!("expected an integer column"),
    }
}

#[test]
fn filtering_an_integer_column_with_a_bad_literal_matches_nothing() {
    let t = people();
    assert_eq!(count_matches(&t, &String::from("age"), &String::from("abc")).unwrap(), 0);
    let u = filter_eq(&t, &String::from("age"), &String::from("12.5")).unwrap();
    assert_eq!(u.row_count(), 0);
    assert_eq!(u.col_count(), 2);
}

#[test]
fn filtering_an_unknown_column_is_an_error() {
    let t = people();
    let r = filter_eq(&t, &String::from("height"), &String::from("1"));
    assert_eq!(r.unwrap_err(), StepError::UnknownColumn);
}

#[test]
fn sorting_a_text_column_ascends() {
    let t = people();
    let u = sort_column(&t, &String::from("name")).unwrap();
    assert_eq!(u.col_count(), 1);
    match &u.cols[0].data {
        ColumnData::Texts(v) => assert_eq!(
            v,
            &vec![String::from("Alice"), String::from("Bob"), String::from("Charlie")]
        ),
        _ => panic!("expected a text column"),
    }
}

#[test]
fn sorting_an_integer_column_ascends() {
    let cols = vec![Column {
        name: String::from("v"),
        data: ColumnData::Ints(vec![3, -1, 2, 3]),
    }];
    let t = from_columns(cols).unwrap();
    let u = sort_column(&t, &String::from("v")).unwrap();
    match &u.cols[0].data {
        ColumnData::Ints(v) => assert_eq!(v, &vec![-1i64, 2, 3, 3]),
        _ => panic!("expected an integer column"),
    }
}

#[test]
fn row_count_column_is_prepended_with_offset() {
    let cols = vec![
        Column {
            name: String::from("name"),
            data: ColumnData::Texts(vec![String::from("jj"), String::from("ww")]),
        },
        Column {
            name: String::from("surname"),
            data: ColumnData::Texts(vec![String::from("sjj"), String::from("sww")]),
        },
    ];
    let t = from_columns(cols).unwrap();
    let u = with_row_count(&t, &String::from("address"), 10);
    assert_eq!(u.col_count(), 3);
    assert_eq!(u.cols[0].name, "address");
    match &u.cols[0].data {
        ColumnData::Ints(v) => assert_eq!(v, &vec![10i64, 11]),
        _ => panic!("expected an integer column"),
    }
    assert_eq!(u.cols[1].name, "name");
    assert_eq!(u.cols[2].name, "surname");
}
