use vstd::prelude::*;
use crate::errors::StepError;

verus! {

/// The records that the `csv` reader yields for these bytes, with headers off,
/// strict field counts, comma delimiter and double-quote quoting; `None` when
/// the reader reports an error (a row whose field count differs from the first
/// row's, or bytes that are not UTF-8).
pub uninterp spec fn csv_parse(bytes: Seq<u8>) -> Option<Seq<Seq<Seq<char>>>>;

/// The records that the `csv` reader yields for these bytes with flexible
/// field counts: rows may differ in arity, and only bytes that are not UTF-8
/// are rejected.
pub uninterp spec fn csv_parse_flexible(bytes: Seq<u8>) -> Option<Seq<Seq<Seq<char>>>>;

/// The bytes that the delimited writer renders for these records: one
/// comma-separated row per record, fields quoted as needed. The rendering is a
/// function of the records alone.
pub uninterp spec fn csv_render(recs: Seq<Seq<Seq<char>>>) -> Seq<u8>;

/// Every record has the same field count as the first.
pub open spec fn rectangular(recs: Seq<Seq<Seq<char>>>) -> bool {
    forall|i: int| 0 <= i < recs.len() ==> #[trigger] recs[i].len() == recs[0].len()
}

/// Every record carries at least one field. The readers never yield a record
/// without fields, and the writer renders such records as one empty field, so
/// only batches of this shape read back unchanged.
pub open spec fn all_rows_have_fields(recs: Seq<Seq<Seq<char>>>) -> bool {
    forall|i: int| 0 <= i < recs.len() ==> (#[trigger] recs[i]).len() >= 1
}

/// Relies on csv::ReaderBuilder and Reader::records (headers off, strict field
/// counts): parses the bytes into one record of string fields per non-empty
/// line - each with at least one field - or reports an error on an
/// inconsistent field count or invalid UTF-8.
#[verifier::external_body]
pub(crate) fn parse_csv_bytes(bytes: &Vec<u8>) -> (r: Option<Vec<Vec<String>>>)
    ensures
        r is Some <==> csv_parse(bytes@) is Some,
        r matches Some(v) ==> Some(v.deep_view()) == csv_parse(bytes@),
        r matches Some(v) ==> rectangular(v.deep_view()),
        r matches Some(v) ==> all_rows_have_fields(v.deep_view()),
        r is Some || bytes@.len() > 0,
        r matches Some(v) ==> (bytes@.len() == 0 ==> v@.len() == 0),
{
    let mut rdr = csv::ReaderBuilder::new().has_headers(false).from_reader(bytes.as_slice());
    let mut out: Vec<Vec<String>> = Vec::new();
    for rec in rdr.records() {
        match rec {
            Ok(r) => out.push(r.iter().map(|f| f.to_string()).collect()),
            Err(_) => return None,
        }
    }
    Some(out)
}

/// Relies on csv::ReaderBuilder with flexible(true): parses the bytes into one
/// record per non-empty line - each with at least one field - tolerating rows
/// whose field counts differ. Where the strict reader succeeds, the flexible
/// one yields the same records.
#[verifier::external_body]
fn parse_csv_bytes_flexible(bytes: &Vec<u8>) -> (r: Option<Vec<Vec<String>>>)
    ensures
        r is Some <==> csv_parse_flexible(bytes@) is Some,
        r matches Some(v) ==> Some(v.deep_view()) == csv_parse_flexible(bytes@),
        r matches Some(v) ==> all_rows_have_fields(v.deep_view()),
        csv_parse(bytes@) is Some ==> r is Some && Some(r.unwrap().deep_view()) == csv_parse(
            bytes@,
        ),
        r is Some || bytes@.len() > 0,
        r matches Some(v) ==> (bytes@.len() == 0 ==> v@.len() == 0),
{
    let mut rdr = csv::ReaderBuilder::new().has_headers(false).flexible(true).from_reader(
        bytes.as_slice(),
    );
    let mut out: Vec<Vec<String>> = Vec::new();
    for rec in rdr.records() {
        match rec {
            Ok(r) => out.push(r.iter().map(|f| f.to_string()).collect()),
            Err(_) => return None,
        }
    }
    Some(out)
}

/// Relies on csv::WriterBuilder with flexible(true) (write_record and
/// into_inner over an in-memory buffer): renders each record as one
/// comma-separated row - rows may differ in field count - quoting fields that
/// hold delimiters, quotes or line breaks, and quoting a lone empty field, so
/// that reading the output back yields the same records; where the records
/// share one field count, the strict reader accepts the output too.
#[verifier::external_body]
fn write_csv_bytes(recs: &Vec<Vec<String>>) -> (r: Vec<u8>)
    requires
        all_rows_have_fields(recs.deep_view()),
    ensures
        r@ == csv_render(recs.deep_view()),
        csv_parse_flexible(r@) == Some(recs.deep_view()),
        rectangular(recs.deep_view()) ==> csv_parse(r@) == Some(recs.deep_view()),
{
    let mut w = csv::WriterBuilder::new().flexible(true).from_writer(Vec::new());
    for rec in recs {
        w.write_record(rec).expect("the flexible writer accepts any field count");
    }
    w.into_inner().expect("writing to an in-memory buffer cannot fail")
}

/// The data rows of a delimited file: all parsed records, with the first one
/// dropped when it is a header.
pub open spec fn data_records(bytes: Seq<u8>, has_header: bool) -> Option<Seq<Seq<Seq<char>>>> {
    match csv_parse(bytes) {
        Option::None => Option::None,
        Option::Some(rs) => Option::Some(
            if has_header && rs.len() > 0 {
                rs.drop_first()
            } else {
                rs
            },
        ),
    }
}

/// Reads the data rows of a delimited file held in memory: one record of
/// string fields per row, the header row consumed but not yielded when
/// `has_header` is set. Fails with `MalformedRow` exactly when the bytes do
/// not parse as delimited text with a consistent field count.
pub fn read_records(bytes: &Vec<u8>, has_header: bool) -> (r: Result<Vec<Vec<String>>, StepError>)
    ensures
        r is Ok <==> csv_parse(bytes@) is Some,
        r matches Ok(v) ==> Some(v.deep_view()) == data_records(bytes@, has_header),
        r matches Ok(v) ==> rectangular(v.deep_view()),
        r matches Ok(v) ==> all_rows_have_fields(v.deep_view()),
        r matches Err(e) ==> e == StepError::MalformedRow,
{
    match parse_csv_bytes(bytes) {
        None => Err(StepError::MalformedRow),
        Some(v) => {
            let ghost all = v.deep_view();
            if has_header && v.len() > 0 {
                let mut v = v;
                v.remove(0);
                proof {
                    assert(v.deep_view() =~= all.drop_first());
                    assert forall|i: int| 0 <= i < v.deep_view().len() implies #[trigger] v
                        .deep_view()[i].len() == v.deep_view()[0].len() by {
                        assert(v.deep_view()[i] == all[i + 1]);
                        assert(v.deep_view()[0] == all[1]);
                    }
                    assert forall|i: int| 0 <= i < v.deep_view().len() implies (#[trigger] v
                        .deep_view()[i]).len() >= 1 by {
                        assert(v.deep_view()[i] == all[i + 1]);
                    }
                }
                Ok(v)
            } else {
                Ok(v)
            }
        },
    }
}

/// The data rows under flexible field-count checking.
pub open spec fn data_records_flexible(bytes: Seq<u8>, has_header: bool) -> Option<
    Seq<Seq<Seq<char>>>,
> {
    match csv_parse_flexible(bytes) {
        Option::None => Option::None,
        Option::Some(rs) => Option::Some(
            if has_header && rs.len() > 0 {
                rs.drop_first()
            } else {
                rs
            },
        ),
    }
}

/// Reads the data rows of a delimited file under flexible field-count
/// checking: rows whose field counts differ from the first row's are yielded
/// rather than rejected. Fails with `MalformedRow` exactly when the bytes are
/// not UTF-8 text.
pub fn read_records_flexible(bytes: &Vec<u8>, has_header: bool) -> (r: Result<
    Vec<Vec<String>>,
    StepError,
>)
    ensures
        r is Ok <==> csv_parse_flexible(bytes@) is Some,
        r matches Ok(v) ==> Some(v.deep_view()) == data_records_flexible(bytes@, has_header),
        r matches Ok(v) ==> all_rows_have_fields(v.deep_view()),
        r matches Err(e) ==> e == StepError::MalformedRow,
{
    match parse_csv_bytes_flexible(bytes) {
        None => Err(StepError::MalformedRow),
        Some(v) => {
            let ghost all = v.deep_view();
            if has_header && v.len() > 0 {
                let mut v = v;
                v.remove(0);
                proof {
                    assert(v.deep_view() =~= all.drop_first());
                    assert forall|i: int| 0 <= i < v.deep_view().len() implies (#[trigger] v
                        .deep_view()[i]).len() >= 1 by {
                        assert(v.deep_view()[i] == all[i + 1]);
                    }
                }
                Ok(v)
            } else {
                Ok(v)
            }
        },
    }
}

/// Writes records out as delimited text; `None` exactly when some record has
/// no fields at all (the readers never yield such a record). The output is a
/// function of the records alone, it reads back unchanged under flexible
/// field-count checking, and under strict checking too when the records share
/// one field count.
pub fn write_records(recs: &Vec<Vec<String>>) -> (r: Option<Vec<u8>>)
    ensures
        r is Some <==> all_rows_have_fields(recs.deep_view()),
        r matches Some(out) ==> out@ == csv_render(recs.deep_view()),
        r matches Some(out) ==> csv_parse_flexible(out@) == Some(recs.deep_view()),
        r matches Some(out) ==> (rectangular(recs.deep_view()) ==> csv_parse(out@) == Some(
            recs.deep_view(),
        )),
{
    if rows_have_fields(recs) {
        Some(write_csv_bytes(recs))
    } else {
        None
    }
}

/// Decides `all_rows_have_fields` for a concrete batch of records.
pub fn rows_have_fields(recs: &Vec<Vec<String>>) -> (r: bool)
    ensures
        r == all_rows_have_fields(recs.deep_view()),
{
    let ghost m = recs.deep_view();
    let n = recs.len();
    let mut i: usize = 0;
    let mut ok = true;
    let ghost mut bad: int = 0;
    while i < n
        invariant
            0 <= i <= n,
            n == recs@.len(),
            m == recs.deep_view(),
            ok ==> (forall|j: int| 0 <= j < i ==> (#[trigger] m[j]).len() >= 1),
            !ok ==> 0 <= bad < i && m[bad].len() == 0,
        decreases n - i,
    {
        proof {
            assert(m[i as int] == recs@[i as int].deep_view());
            assert(m[i as int].len() == recs@[i as int]@.len());
        }
        if recs[i].len() == 0 {
            proof {
                if ok {
                    bad = i as int;
                }
            }
            ok = false;
        }
        i = i + 1;
    }
    proof {
        assert(m.len() == recs@.len());
    }
    ok
}

} // verus!
