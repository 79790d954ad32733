use csv_pipeline::csvio::{read_records, read_records_flexible};
use csv_pipeline::errors::StepError;
use csv_pipeline::table::{load_table, ColumnData, ColumnKind, data_kind};

#[test]
fn load_infers_integer_and_float_columns() {
    let bytes = b"SCORE,POINT_AVERAGE\n41714,12.4\n41664,12.52\n".to_vec();
    let t = load_table(&bytes, true).unwrap();
    assert_eq!(t.col_count(), 2);
    assert_eq!(t.row_count(), 2);
    assert_eq!(t.cols[0].name, "SCORE");
    assert_eq!(t.cols[1].name, "POINT_AVERAGE");
    assert_eq!(data_kind(&t.cols[0].data), ColumnKind::Integer);
    assert_eq!(data_kind(&t.cols[1].data), ColumnKind::Float);
    match &t.cols[0].data {
        ColumnData::Ints(v) => assert_eq!(v, &vec![41714i64, 41664i64]),
        _ => panic!("expected an integer column"),
    }
    match &t.cols[1].data {
        ColumnData::Floats(v) => {
            assert_eq!(v, &vec![String::from("12.4"), String::from("12.52")])
        }
        _ => panic!("expected a floating point column"),
    }
}

#[test]
fn load_falls_back_to_text() {
    let bytes = b"name,age\nBob,25\nAlice,x\n".to_vec();
    let t = load_table(&bytes, true).unwrap();
    assert_eq!(data_kind(&t.cols[0].data), ColumnKind::Text);
    assert_eq!(data_kind(&t.cols[1].data), ColumnKind::Text);
}

#[test]
fn load_widens_integers_to_float() {
    // one non-integral cell makes the whole column floating point
    let bytes = b"v\n143\n12.5\n".to_vec();
    let t = load_table(&bytes, true).unwrap();
    assert_eq!(data_kind(&t.cols[0].data), ColumnKind::Float);
    match &t.cols[0].data {
        ColumnData::Floats(v) => assert_eq!(v, &vec![String::from("143"), String::from("12.5")]),
        _ => panic!("expected a floating point column"),
    }
}

#[test]
fn load_without_header_synthesizes_names() {
    let bytes = b"1,2,3\n4,5,6\n".to_vec();
    let t = load_table(&bytes, false).unwrap();
    assert_eq!(t.col_count(), 3);
    assert_eq!(t.cols[0].name, "column_1");
    assert_eq!(t.cols[2].name, "column_3");
    assert_eq!(t.row_count(), 2);
}

#[test]
fn load_of_empty_bytes_is_an_empty_table() {
    let t = load_table(&Vec::new(), true).unwrap();
    assert_eq!(t.col_count(), 0);
    assert_eq!(t.row_count(), 0);
}

#[test]
fn load_rejects_inconsistent_field_counts() {
    let bytes = b"a,b\n1\n".to_vec();
    assert_eq!(load_table(&bytes, true).unwrap_err(), StepError::MalformedRow);
}

#[test]
fn load_twice_yields_identical_tables() {
    let bytes = b"SCORE,POINT_AVERAGE\n41714,12.4\n41664,12.52\n".to_vec();
    let a = load_table(&bytes, true).unwrap();
    let b = load_table(&bytes, true).unwrap();
    assert_eq!(a.col_count(), b.col_count());
    for c in 0..a.col_count() {
        assert_eq!(a.cols[c].name, b.cols[c].name);
        match (&a.cols[c].data, &b.cols[c].data) {
            (ColumnData::Ints(x), ColumnData::Ints(y)) => assert_eq!(x, y),
            (ColumnData::Floats(x), ColumnData::Floats(y)) => assert_eq!(x, y),
            (ColumnData::Texts(x), ColumnData::Texts(y)) => assert_eq!(x, y),
            _ => panic!("column kinds differ"),
        }
    }
}

#[test]
fn row_reader_strips_the_header_row() {
    let bytes = b"h1,h2\n1,2\n3,4\n".to_vec();
    let with_header = read_records(&bytes, true).unwrap();
    assert_eq!(with_header, vec![
        vec![String::from("1"), String::from("2")],
        vec![String::from("3"), String::from("4")],
    ]);
    let raw = read_records(&bytes, false).unwrap();
    assert_eq!(raw.len(), 3);
    assert_eq!(raw[0], vec![String::from("h1"), String::from("h2")]);
}

#[test]
fn row_reader_reports_malformed_rows() {
    let bytes = b"a,b\n1,2,3\n".to_vec();
    assert_eq!(read_records(&bytes, false).unwrap_err(), StepError::MalformedRow);
}

#[test]
fn flexible_row_reader_tolerates_ragged_rows() {
    let bytes = b"a,b\n1\n".to_vec();
    let recs = read_records_flexible(&bytes, false).unwrap();
    assert_eq!(recs, vec![
        vec![String::from("a"), String::from("b")],
        vec![String::from("1")],
    ]);
    let stripped = read_records_flexible(&bytes, true).unwrap();
    assert_eq!(stripped, vec![vec![String::from("1")]]);
}

#[test]
fn flexible_and_strict_readers_agree_on_regular_rows() {
    let bytes = b"a,b\n1,2\n".to_vec();
    assert_eq!(
        read_records_flexible(&bytes, false).unwrap(),
        read_records(&bytes, false).unwrap()
    );
}

#[test]
fn row_reader_handles_quoting_and_crlf() {
    let bytes = b"\"a,b\",c\r\n\"he said \"\"hi\"\"\",d\r\n".to_vec();
    let recs = read_records(&bytes, false).unwrap();
    assert_eq!(recs, vec![
        vec![String::from("a,b"), String::from("c")],
        vec![String::from("he said \"hi\""), String::from("d")],
    ]);
}
