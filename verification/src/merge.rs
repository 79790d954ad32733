use vstd::prelude::*;
use vstd::string::*;
use crate::csvio;
use crate::errors::StepError;

verus! {

/// One merge source: the file's bytes and whether its first row is a header.
pub struct MergeInput {
    pub bytes: Vec<u8>,
    pub has_header: bool,
}

/// The data rows of one source, headers stripped per the source's own flag.
pub open spec fn records_of(inp: MergeInput) -> Seq<Seq<Seq<char>>>
    recommends
        csvio::csv_parse(inp.bytes@) is Some,
{
    csvio::data_records(inp.bytes@, inp.has_header)->Some_0
}

/// Every source parses as delimited text.
pub open spec fn all_parse(inputs: Seq<MergeInput>) -> bool {
    forall|i: int| 0 <= i < inputs.len() ==> csvio::csv_parse((#[trigger] inputs[i]).bytes@) is Some
}

/// The data rows of all sources, in file order then row order within a file.
pub open spec fn concat_records(inputs: Seq<MergeInput>) -> Seq<Seq<Seq<char>>>
    decreases inputs.len(),
{
    if inputs.len() == 0 {
        Seq::empty()
    } else {
        concat_records(inputs.drop_last()) + records_of(inputs.last())
    }
}

/// Merge writer: reads every data row of every source and renders them as one
/// delimited output, preserving field order and content exactly, in file order
/// then row order within a file. Arity consistency across sources is not
/// validated: rows of differing field counts are rendered as they are. The
/// output is a function of the sources' records alone, so re-running over
/// unchanged sources yields byte-identical output. Reading the output back
/// without a header flag reproduces the concatenation of the sources' records
/// (under strict field-count checking where the sources agree on one field
/// count; under flexible checking in any case). Fails with `MalformedRow`
/// exactly when some source does not parse.
pub fn merge_csv(inputs: &Vec<MergeInput>) -> (r: Result<Vec<u8>, StepError>)
    ensures
        r is Ok <==> all_parse(inputs@),
        r matches Ok(out) ==> out@ == csvio::csv_render(concat_records(inputs@)),
        r matches Ok(out) ==> csvio::csv_parse_flexible(out@) == Some(concat_records(inputs@)),
        r matches Ok(out) ==> (csvio::rectangular(concat_records(inputs@)) ==> csvio::csv_parse(
            out@,
        ) == Some(concat_records(inputs@))),
        r matches Err(e) ==> e == StepError::MalformedRow,
{
    let n = inputs.len();
    let mut acc: Vec<Vec<String>> = Vec::new();
    let mut i: usize = 0;
    while i < n
        invariant
            0 <= i <= n,
            n == inputs@.len(),
            forall|j: int| 0 <= j < i ==> csvio::csv_parse((#[trigger] inputs@[j]).bytes@) is Some,
            acc.deep_view() =~= concat_records(inputs@.take(i as int)),
            csvio::all_rows_have_fields(acc.deep_view()),
        decreases n - i,
    {
        let ghost done = concat_records(inputs@.take(i as int));
        let recs = match csvio::read_records(&inputs[i].bytes, inputs[i].has_header) {
            Err(_) => {
                proof {
                    assert(!all_parse(inputs@));
                }
                return Err(StepError::MalformedRow);
            },
            Ok(v) => v,
        };
        let ghost prev = acc.deep_view();
        let ghost added = recs.deep_view();
        let mut recs = recs;
        acc.append(&mut recs);
        proof {
            assert(added == records_of(inputs@[i as int]));
            assert(acc.deep_view() =~= prev + added) by {
                assert forall|q: int| 0 <= q < acc.deep_view().len() implies #[trigger] acc
                    .deep_view()[q] == (prev + added)[q] by {
                    if q < prev.len() {
                        assert(acc.deep_view()[q] == acc@[q].deep_view());
                    } else {
                        assert(acc.deep_view()[q] == acc@[q].deep_view());
                    }
                }
            }
            assert(inputs@.take(i + 1).drop_last() =~= inputs@.take(i as int));
            assert(inputs@.take(i + 1).last() == inputs@[i as int]);
            assert(acc.deep_view() =~= concat_records(inputs@.take(i + 1)));
            assert forall|q: int| 0 <= q < acc.deep_view().len() implies (#[trigger] acc
                .deep_view()[q]).len() >= 1 by {
                if q < prev.len() {
                    assert(acc.deep_view()[q] == prev[q]);
                } else {
                    assert(acc.deep_view()[q] == added[q - prev.len()]);
                }
            }
        }
        i = i + 1;
    }
    proof {
        assert(inputs@.take(n as int) =~= inputs@);
    }
    match csvio::write_records(&acc) {
        None => {
            // ruled out: every parsed record carries at least one field
            proof {
                assert(false);
            }
            Err(StepError::MalformedRow)
        },
        Some(out) => Ok(out),
    }
}

/// One data row rendered for the header-bearing output: the first field, a
/// comma and a space, the second field, and a line break; a missing field is
/// rendered empty.
pub open spec fn rendered_row(rec: Seq<Seq<char>>) -> Seq<char> {
    (if rec.len() >= 1 {
        rec[0]
    } else {
        Seq::empty()
    }) + seq![',', ' '] + (if rec.len() >= 2 {
        rec[1]
    } else {
        Seq::empty()
    }) + seq!['\n']
}

/// All data rows rendered in order.
pub open spec fn rendered_rows(recs: Seq<Seq<Seq<char>>>) -> Seq<char>
    decreases recs.len(),
{
    if recs.len() == 0 {
        Seq::empty()
    } else {
        rendered_rows(recs.drop_last()) + rendered_row(recs.last())
    }
}

/// One run's rendered block: the header line, then every data row.
pub open spec fn rendered(header: Seq<char>, recs: Seq<Seq<Seq<char>>>) -> Seq<char> {
    header + seq!['\n'] + rendered_rows(recs)
}

/// The output file's content after one run: the rendered block replaces the
/// existing content under truncate-before-write, and follows it under
/// append-if-exists.
pub open spec fn run_output(
    existing: Seq<char>,
    header: Seq<char>,
    recs: Seq<Seq<Seq<char>>>,
    truncate: bool,
) -> Seq<char> {
    (if truncate {
        Seq::empty()
    } else {
        existing
    }) + rendered(header, recs)
}

/// Merge writer with a synthesized header line: emits the header verbatim,
/// then each source's data rows as `first, second` lines. The caller hands in
/// the output file's existing content and chooses truncate-before-write or
/// append-if-exists; under append a header line already present is kept and a
/// new one is added. Fails with `MalformedRow` exactly when a source does not
/// parse.
pub fn merge_with_header(
    existing: &String,
    header: &String,
    inputs: &Vec<MergeInput>,
    truncate: bool,
) -> (r: Result<String, StepError>)
    ensures
        r is Ok <==> all_parse(inputs@),
        r matches Ok(out) ==> out@ == run_output(
            existing@,
            header@,
            concat_records(inputs@),
            truncate,
        ),
        r matches Err(e) ==> e == StepError::MalformedRow,
{
    let mut out: String = if truncate {
        String::new()
    } else {
        existing.clone()
    };
    let ghost base: Seq<char> = if truncate {
        Seq::empty()
    } else {
        existing@
    };
    out.append(header.as_str());
    out.append("\n");
    proof {
        reveal_strlit("\n");
        assert("\n"@ =~= seq!['\n']);
        assert(out@ =~= base + header@ + seq!['\n']);
    }
    let ghost start = base + header@ + seq!['\n'];
    let n = inputs.len();
    let mut i: usize = 0;
    while i < n
        invariant
            0 <= i <= n,
            n == inputs@.len(),
            start == base + header@ + seq!['\n'],
            forall|j: int| 0 <= j < i ==> csvio::csv_parse((#[trigger] inputs@[j]).bytes@) is Some,
            out@ =~= start + rendered_rows(concat_records(inputs@.take(i as int))),
        decreases n - i,
    {
        let ghost done = concat_records(inputs@.take(i as int));
        let recs = match csvio::read_records(&inputs[i].bytes, inputs[i].has_header) {
            Err(_) => {
                proof {
                    assert(!all_parse(inputs@));
                }
                return Err(StepError::MalformedRow);
            },
            Ok(v) => v,
        };
        let ghost added = recs.deep_view();
        let rows = recs.len();
        let mut q: usize = 0;
        while q < rows
            invariant
                0 <= q <= rows,
                rows == recs@.len(),
                added == recs.deep_view(),
                out@ =~= start + rendered_rows(done + added.take(q as int)),
            decreases rows - q,
        {
            let ghost row = added[q as int];
            proof {
                assert(row == recs@[q as int].deep_view());
                assert(row.len() == recs@[q as int]@.len());
                if recs@[q as int]@.len() >= 1 {
                    assert(row[0] == recs@[q as int]@[0]@);
                }
                if recs@[q as int]@.len() >= 2 {
                    assert(row[1] == recs@[q as int]@[1]@);
                }
            }
            let ghost before = out@;
            if recs[q].len() >= 1 {
                out.append(recs[q][0].as_str());
            }
            out.append(", ");
            if recs[q].len() >= 2 {
                out.append(recs[q][1].as_str());
            }
            out.append("\n");
            proof {
                reveal_strlit(", ");
                reveal_strlit("\n");
                assert(", "@ =~= seq![',', ' ']);
                assert("\n"@ =~= seq!['\n']);
                assert(out@ =~= before + rendered_row(row));
                let s = done + added.take(q as int);
                assert((done + added.take(q + 1)).drop_last() =~= s);
                assert((done + added.take(q + 1)).last() == row);
                assert(rendered_rows(done + added.take(q + 1)) =~= rendered_rows(s)
                    + rendered_row(row));
                assert(out@ =~= start + rendered_rows(done + added.take(q + 1)));
            }
            q = q + 1;
        }
        proof {
            assert(added.take(rows as int) =~= added);
            assert(added == records_of(inputs@[i as int]));
            assert(inputs@.take(i + 1).drop_last() =~= inputs@.take(i as int));
            assert(inputs@.take(i + 1).last() == inputs@[i as int]);
            assert(concat_records(inputs@.take(i + 1)) =~= done + added);
        }
        i = i + 1;
    }
    proof {
        assert(inputs@.take(n as int) =~= inputs@);
        assert(out@ =~= run_output(existing@, header@, concat_records(inputs@), truncate));
    }
    Ok(out)
}

/// Re-running the header-writing merge step in append-if-exists mode is not
/// idempotent: after two runs over one and the same sources, starting from an
/// empty output file, the content is the rendered block twice over, and the
/// header line stands at the head of each of the two blocks.
pub proof fn lemma_append_mode_duplicates_header(header: Seq<char>, recs: Seq<Seq<Seq<char>>>)
    ensures
        run_output(run_output(Seq::empty(), header, recs, false), header, recs, false) == rendered(
            header,
            recs,
        ) + rendered(header, recs),
        rendered(header, recs).len() >= header.len() + 1,
        (rendered(header, recs) + rendered(header, recs)).subrange(0, header.len() + 1 as int)
            == header.push('\n'),
        (rendered(header, recs) + rendered(header, recs)).subrange(
            rendered(header, recs).len() as int,
            rendered(header, recs).len() + header.len() + 1 as int,
        ) == header.push('\n'),
{
    let one = rendered(header, recs);
    assert(run_output(Seq::empty(), header, recs, false) =~= one);
    assert(run_output(one, header, recs, false) =~= one + one);
    assert(one.subrange(0, header.len() + 1 as int) =~= header.push('\n'));
    assert((one + one).subrange(0, header.len() + 1 as int) =~= header.push('\n'));
    assert((one + one).subrange(one.len() as int, one.len() + header.len() + 1 as int) =~= header.push(
        '\n',
    ));
}

} // verus!
