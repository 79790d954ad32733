use csv_pipeline::csvio::{read_records, read_records_flexible};
use csv_pipeline::dedup::unique_by;
use csv_pipeline::table::{data_kind, load_table, ColumnData, ColumnKind};
use csv_pipeline::errors::StepError;
use csv_pipeline::merge::{merge_csv, merge_with_header, MergeInput};

fn students1() -> Vec<u8> {
    b"SCORE,POINT_AVERAGE\n41714,12.4\n41664,12.52\n41760,12.54\n41685,12.74\n41693,12.83\n41670,12.91\n41764,143\n41764,133\n"
        .to_vec()
}

fn students2() -> Vec<u8> {
    b"SCORE,POINT_AVERAGE\n1714,2.4\n1664,2.52\n1760,2.54\n1685,2.74\n1693,2.83\n1670,2.91\n1764,3\n1764,32\n"
        .to_vec()
}

#[test]
fn merging_two_files_keeps_every_row_in_order() {
    let inputs = vec![
        MergeInput { bytes: students1(), has_header: true },
        MergeInput { bytes: students2(), has_header: true },
    ];
    let out = merge_csv(&inputs).unwrap();
    let merged = read_records(&out, false).unwrap();
    let mut expected = read_records(&students1(), true).unwrap();
    expected.extend(read_records(&students2(), true).unwrap());
    assert_eq!(merged.len(), 16);
    assert_eq!(merged, expected);
    assert_eq!(merged[0], vec![String::from("41714"), String::from("12.4")]);
    assert_eq!(merged[8], vec![String::from("1714"), String::from("2.4")]);
}

#[test]
fn merging_round_trips_quoted_fields() {
    let bytes = b"\"a,b\",plain\n\"line\nbreak\",x\n".to_vec();
    let inputs = vec![MergeInput { bytes: bytes.clone(), has_header: false }];
    let out = merge_csv(&inputs).unwrap();
    assert_eq!(read_records(&out, false).unwrap(), read_records(&bytes, false).unwrap());
}

#[test]
fn merging_does_not_validate_arity_across_sources() {
    let inputs = vec![
        MergeInput { bytes: b"a,b\n".to_vec(), has_header: false },
        MergeInput { bytes: b"x\n".to_vec(), has_header: false },
    ];
    let out = merge_csv(&inputs).unwrap();
    let merged = read_records_flexible(&out, false).unwrap();
    assert_eq!(merged, vec![
        vec![String::from("a"), String::from("b")],
        vec![String::from("x")],
    ]);
    // the rows really are ragged: the strict reader rejects the output
    assert_eq!(read_records(&out, false).unwrap_err(), StepError::MalformedRow);
}

#[test]
fn merging_twice_is_byte_identical() {
    let inputs = vec![
        MergeInput { bytes: students1(), has_header: true },
        MergeInput { bytes: students2(), has_header: true },
    ];
    let first = merge_csv(&inputs).unwrap();
    let second = merge_csv(&inputs).unwrap();
    assert_eq!(first, second);
}

#[test]
fn merging_round_trips_a_lone_empty_field() {
    // a quoted empty field is the whole record; the writer quotes it again,
    // so the row survives re-reading
    let bytes = b"\"\"\n".to_vec();
    let inputs = vec![MergeInput { bytes: bytes.clone(), has_header: false }];
    let out = merge_csv(&inputs).unwrap();
    assert_eq!(read_records(&out, false).unwrap(), vec![vec![String::new()]]);
}

#[test]
fn merging_an_unparsable_source_fails() {
    let inputs = vec![MergeInput { bytes: b"a,b\n1\n".to_vec(), has_header: false }];
    assert_eq!(merge_csv(&inputs).unwrap_err(), StepError::MalformedRow);
}

#[test]
fn merging_no_sources_yields_an_empty_file() {
    let out = merge_csv(&Vec::new()).unwrap();
    assert!(out.is_empty());
    assert!(read_records(&out, false).unwrap().is_empty());
}

#[test]
fn header_merge_renders_first_two_fields() {
    let input = MergeInput { bytes: b"41714,12.4\n41664,12.52\n".to_vec(), has_header: false };
    let out = merge_with_header(
        &String::new(),
        &String::from("SCORE,POINT_AVERAGE"),
        &vec![input],
        true,
    )
    .unwrap();
    assert_eq!(out, "SCORE,POINT_AVERAGE\n41714, 12.4\n41664, 12.52\n");
}

#[test]
fn header_only_run_writes_a_single_line() {
    let out = merge_with_header(
        &String::new(),
        &String::from("SCORE,POINT_AVERAGE"),
        &Vec::new(),
        false,
    )
    .unwrap();
    assert_eq!(out, "SCORE,POINT_AVERAGE\n");
}

#[test]
fn append_mode_repeats_the_header_line() {
    let header = String::from("SCORE,POINT_AVERAGE");
    let input = || vec![MergeInput { bytes: b"1,2\n".to_vec(), has_header: false }];
    let first = merge_with_header(&String::new(), &header, &input(), false).unwrap();
    let second = merge_with_header(&first, &header, &input(), false).unwrap();
    let header_lines =
        second.lines().filter(|line| *line == "SCORE,POINT_AVERAGE").count();
    assert_eq!(header_lines, 2);
    assert_eq!(second, "SCORE,POINT_AVERAGE\n1, 2\nSCORE,POINT_AVERAGE\n1, 2\n");
}

#[test]
fn merged_output_feeds_back_into_the_loader() {
    let input = MergeInput {
        bytes: b"41714,12.4\n41764,143\n41764,133\n".to_vec(),
        has_header: false,
    };
    let content = merge_with_header(
        &String::new(),
        &String::from("SCORE,POINT_AVERAGE"),
        &vec![input],
        true,
    )
    .unwrap();
    let df = load_table(&content.into_bytes(), true).unwrap();
    assert_eq!(data_kind(&df.cols[0].data), ColumnKind::Integer);
    // the rendered rows carry a space before the second field, so that
    // column falls back to text
    assert_eq!(data_kind(&df.cols[1].data), ColumnKind::Text);
    let u = unique_by(&df, &String::from("SCORE"), None).unwrap();
    assert_eq!(u.row_count(), 2);
    match &u.cols[0].data {
        ColumnData::Ints(v) => assert_eq!(v, &vec![41714i64, 41764]),
        _ => panic!("expected an integer column"),
    }
}

#[test]
fn truncate_mode_replaces_the_existing_content() {
    let header = String::from("H");
    let existing = String::from("old content\n");
    let out = merge_with_header(&existing, &header, &Vec::new(), true).unwrap();
    assert_eq!(out, "H\n");
}
