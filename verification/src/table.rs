use vstd::prelude::*;
use vstd::string::*;
use crate::csvio;
use crate::errors::StepError;
use crate::numtext;

verus! {

/// The inferred type of a column.
#[derive(Clone, Copy, Debug, PartialEq, Eq, Structural)]
pub enum ColumnKind {
    Integer,
    Float,
    Text,
}

/// The values of one column, stored per inferred type. Floating-point cells
/// keep their decimal lexeme: the pipeline never computes with them, it only
/// classifies, compares and re-prints them.
#[derive(Debug)]
pub enum ColumnData {
    Ints(Vec<i64>),
    Floats(Vec<String>),
    Texts(Vec<String>),
}

/// A named, typed column.
#[derive(Debug)]
pub struct Column {
    pub name: String,
    pub data: ColumnData,
}

/// An immutable in-memory columnar table: named, typed columns of one common
/// row count. Every operation derives a new table; none mutates its input.
#[derive(Debug)]
pub struct Table {
    pub cols: Vec<Column>,
}

/// Mathematical model of a column's values.
#[verifier::ext_equal]
pub enum ColDataModel {
    Ints(Seq<int>),
    Floats(Seq<Seq<char>>),
    Texts(Seq<Seq<char>>),
}

/// Mathematical model of a column.
#[verifier::ext_equal]
pub struct ColModel {
    pub name: Seq<char>,
    pub data: ColDataModel,
}

impl View for ColumnData {
    type V = ColDataModel;

    open spec fn view(&self) -> ColDataModel {
        match self {
            ColumnData::Ints(v) => ColDataModel::Ints(v@.map_values(|x: i64| x as int)),
            ColumnData::Floats(v) => ColDataModel::Floats(v.deep_view()),
            ColumnData::Texts(v) => ColDataModel::Texts(v.deep_view()),
        }
    }
}

impl View for Column {
    type V = ColModel;

    open spec fn view(&self) -> ColModel {
        ColModel { name: self.name@, data: self.data@ }
    }
}

impl View for Table {
    type V = Seq<ColModel>;

    open spec fn view(&self) -> Seq<ColModel> {
        Seq::new(self.cols@.len(), |i: int| self.cols@[i]@)
    }
}

pub open spec fn model_len(d: ColDataModel) -> nat {
    match d {
        ColDataModel::Ints(v) => v.len(),
        ColDataModel::Floats(v) => v.len(),
        ColDataModel::Texts(v) => v.len(),
    }
}

pub open spec fn model_kind(d: ColDataModel) -> ColumnKind {
    match d {
        ColDataModel::Ints(_) => ColumnKind::Integer,
        ColDataModel::Floats(_) => ColumnKind::Float,
        ColDataModel::Texts(_) => ColumnKind::Text,
    }
}

/// The common row count of a table: that of its first column.
pub open spec fn row_count_of(t: Seq<ColModel>) -> nat {
    if t.len() == 0 {
        0
    } else {
        model_len(t[0].data)
    }
}

/// Well-formedness: every column holds the same number of rows.
pub open spec fn wf(t: Seq<ColModel>) -> bool {
    forall|i: int| 0 <= i < t.len() ==> model_len(#[trigger] t[i].data) == row_count_of(t)
}

impl Table {
    /// The number of rows, read off the first column.
    pub fn row_count(&self) -> (r: usize)
        ensures
            r == row_count_of(self@),
    {
        if self.cols.len() == 0 {
            0
        } else {
            data_len(&self.cols[0].data)
        }
    }

    /// The number of columns.
    pub fn col_count(&self) -> (r: usize)
        ensures
            r == self@.len(),
    {
        self.cols.len()
    }
}

/// Decides well-formedness: whether every column holds the same number of
/// rows.
pub fn is_wf(t: &Table) -> (r: bool)
    ensures
        r == wf(t@),
{
    let n = t.cols.len();
    if n == 0 {
        return true;
    }
    let first = data_len(&t.cols[0].data);
    let mut i: usize = 0;
    let mut ok = true;
    let ghost mut bad: int = 0;
    while i < n
        invariant
            0 <= i <= n,
            n == t.cols@.len(),
            t@.len() == n,
            n > 0,
            first == model_len(t@[0].data),
            ok ==> (forall|j: int| 0 <= j < i ==> model_len((#[trigger] t@[j]).data) == first),
            !ok ==> 0 <= bad < i && model_len(t@[bad].data) != first,
        decreases n - i,
    {
        proof {
            assert(t@[i as int] == t.cols@[i as int]@);
        }
        if data_len(&t.cols[i].data) != first {
            proof {
                if ok {
                    bad = i as int;
                }
            }
            ok = false;
        }
        i = i + 1;
    }
    ok
}

/// The number of values held by a column.
pub fn data_len(d: &ColumnData) -> (r: usize)
    ensures
        r == model_len(d@),
{
    match d {
        ColumnData::Ints(v) => v.len(),
        ColumnData::Floats(v) => v.len(),
        ColumnData::Texts(v) => v.len(),
    }
}

/// The kind of a column.
pub fn data_kind(d: &ColumnData) -> (r: ColumnKind)
    ensures
        r == model_kind(d@),
{
    match d {
        ColumnData::Ints(_) => ColumnKind::Integer,
        ColumnData::Floats(_) => ColumnKind::Float,
        ColumnData::Texts(_) => ColumnKind::Text,
    }
}

/// Builds a table from literal columns. Fails with `MalformedRow` exactly when
/// two columns disagree on their row count.
pub fn from_columns(cols: Vec<Column>) -> (r: Result<Table, StepError>)
    ensures
        r is Ok <==> wf(Seq::new(cols@.len(), |i: int| cols@[i]@)),
        r matches Ok(t) ==> t@ == Seq::new(cols@.len(), |i: int| cols@[i]@),
        r matches Err(e) ==> e == StepError::MalformedRow,
{
    let ghost m = Seq::new(cols@.len(), |i: int| cols@[i]@);
    let n = cols.len();
    let mut i: usize = 0;
    let mut ok = true;
    let ghost mut bad: int = 0;
    let first_len: usize = if n == 0 {
        0
    } else {
        data_len(&cols[0].data)
    };
    while i < n
        invariant
            0 <= i <= n,
            n == cols@.len(),
            m == Seq::new(cols@.len(), |j: int| cols@[j]@),
            n > 0 ==> first_len == model_len(m[0].data),
            ok ==> (forall|j: int|
                0 <= j < i ==> model_len(#[trigger] m[j].data) == row_count_of(m)),
            !ok ==> 0 <= bad < i && model_len(m[bad].data) != row_count_of(m),
        decreases n - i,
    {
        proof {
            assert(m[i as int] == cols@[i as int]@);
        }
        if data_len(&cols[i].data) != first_len {
            proof {
                if ok {
                    bad = i as int;
                }
            }
            ok = false;
        }
        i = i + 1;
    }
    if ok {
        let t = Table { cols };
        proof {
            assert(t@ =~= m);
        }
        Ok(t)
    } else {
        Err(StepError::MalformedRow)
    }
}

/// The cells of column `c` over the data rows of `rs` starting at row `start`.
pub open spec fn cells_at(rs: Seq<Seq<Seq<char>>>, start: int, c: int) -> Seq<Seq<char>>
    recommends
        0 <= start <= rs.len(),
{
    Seq::new((rs.len() - start) as nat, |r: int| rs[r + start][c])
}

/// The widest common type of a column's cells: integer when every cell is
/// 64-bit integer text, else floating point when every cell is decimal text,
/// else plain text.
pub open spec fn inferred_kind(cells: Seq<Seq<char>>) -> ColumnKind {
    if forall|r: int| 0 <= r < cells.len() ==> numtext::is_i64_text(#[trigger] cells[r]) {
        ColumnKind::Integer
    } else if forall|r: int| 0 <= r < cells.len() ==> numtext::is_decimal_text(
        #[trigger] cells[r],
    ) {
        ColumnKind::Float
    } else {
        ColumnKind::Text
    }
}

/// The values of a column after inference: parsed for an integer column, the
/// original lexemes otherwise.
pub open spec fn inferred_data(cells: Seq<Seq<char>>) -> ColDataModel {
    match inferred_kind(cells) {
        ColumnKind::Integer => ColDataModel::Ints(
            Seq::new(cells.len(), |r: int| numtext::int_text_val(cells[r])),
        ),
        ColumnKind::Float => ColDataModel::Floats(cells),
        ColumnKind::Text => ColDataModel::Texts(cells),
    }
}

/// The synthesized name of column `c` when no header row is present.
pub open spec fn default_name(c: int) -> Seq<char> {
    "column_"@ + numtext::dec_digits((c + 1) as nat)
}

/// The table loaded from the parsed records `rs`: column names from the header
/// row or synthesized, and each column's type inferred over all of its cells.
pub open spec fn table_of_records(rs: Seq<Seq<Seq<char>>>, has_header: bool) -> Seq<ColModel> {
    let start: int = if has_header && rs.len() > 0 {
        1
    } else {
        0
    };
    let arity: int = if rs.len() == 0 {
        0
    } else {
        rs[0].len() as int
    };
    Seq::new(
        arity as nat,
        |c: int|
            ColModel {
                name: if has_header && rs.len() > 0 {
                    rs[0][c]
                } else {
                    default_name(c)
                },
                data: inferred_data(cells_at(rs, start, c)),
            },
    )
}

/// What loading yields for given bytes: `None` exactly when the bytes do not
/// parse as delimited text with a consistent field count.
pub open spec fn loaded_table(bytes: Seq<u8>, has_header: bool) -> Option<Seq<ColModel>> {
    match csvio::csv_parse(bytes) {
        Option::None => Option::None,
        Option::Some(rs) => Option::Some(table_of_records(rs, has_header)),
    }
}

/// Infers and materializes column `c` over the rows of `recs` from `start` on.
fn infer_column(recs: &Vec<Vec<String>>, start: usize, c: usize) -> (d: ColumnData)
    requires
        start <= recs@.len(),
        forall|r: int| start <= r < recs@.len() ==> c < (#[trigger] recs@[r])@.len(),
    ensures
        d@ == inferred_data(cells_at(recs.deep_view(), start as int, c as int)),
{
    let ghost rs = recs.deep_view();
    let ghost cells = cells_at(rs, start as int, c as int);
    let n = recs.len();
    let mut ints: Vec<i64> = Vec::new();
    let mut lexs: Vec<String> = Vec::new();
    let mut all_int = true;
    let mut all_dec = true;
    let ghost mut wi: int = 0;
    let ghost mut wd: int = 0;
    let mut r: usize = start;
    while r < n
        invariant
            start <= r <= n,
            n == recs@.len(),
            rs == recs.deep_view(),
            cells == cells_at(rs, start as int, c as int),
            cells.len() == n - start,
            forall|q: int| start <= q < n ==> c < (#[trigger] recs@[q])@.len(),
            lexs.deep_view() =~= cells.take(r - start),
            all_int ==> ints@.len() == r - start,
            all_int ==> (forall|u: int|
                0 <= u < r - start ==> numtext::is_i64_text(#[trigger] cells[u])),
            all_int ==> (forall|u: int|
                0 <= u < r - start ==> ints@[u] as int == numtext::int_text_val(
                    #[trigger] cells[u],
                )),
            !all_int ==> 0 <= wi < r - start && !numtext::is_i64_text(cells[wi]),
            all_dec ==> (forall|u: int|
                0 <= u < r - start ==> numtext::is_decimal_text(#[trigger] cells[u])),
            !all_dec ==> 0 <= wd < r - start && !numtext::is_decimal_text(cells[wd]),
        decreases n - r,
    {
        let ghost q = r - start;
        let cell = &recs[r][c];
        proof {
            assert(cells[q] == rs[r as int][c as int]);
            assert(rs[r as int] == recs@[r as int].deep_view());
            assert(cells[q] == cell@);
            assert(cells.take(q + 1) =~= cells.take(q).push(cells[q]));
        }
        lexs.push(cell.clone());
        proof {
            assert(lexs.deep_view() =~= cells.take(q + 1));
        }
        if all_int {
            match numtext::parse_i64(cell.as_str()) {
                Some(x) => {
                    ints.push(x);
                },
                None => {
                    proof {
                        wi = q;
                    }
                    all_int = false;
                },
            }
        }
        if all_dec {
            if !numtext::is_decimal_lexeme(cell.as_str()) {
                proof {
                    wd = q;
                }
                all_dec = false;
            }
        }
        r = r + 1;
    }
    proof {
        assert(cells.take(n - start) =~= cells);
    }
    if all_int {
        let d = ColumnData::Ints(ints);
        proof {
            assert(inferred_kind(cells) == ColumnKind::Integer);
            assert(d@ =~= inferred_data(cells));
        }
        d
    } else if all_dec {
        let d = ColumnData::Floats(lexs);
        proof {
            assert(!(forall|u: int|
                0 <= u < cells.len() ==> numtext::is_i64_text(#[trigger] cells[u])));
            assert(inferred_kind(cells) == ColumnKind::Float);
            assert(d@ =~= inferred_data(cells));
        }
        d
    } else {
        let d = ColumnData::Texts(lexs);
        proof {
            assert(!(forall|u: int|
                0 <= u < cells.len() ==> numtext::is_i64_text(#[trigger] cells[u])));
            assert(!(forall|u: int|
                0 <= u < cells.len() ==> numtext::is_decimal_text(#[trigger] cells[u])));
            assert(inferred_kind(cells) == ColumnKind::Text);
            assert(d@ =~= inferred_data(cells));
        }
        d
    }
}

/// Loads a delimited file held in memory into a typed columnar table. Column
/// names come from the header row when `has_header` is set and are synthesized
/// otherwise; each column's type is the widest common type of its cells.
/// Loading the same bytes twice yields identical names, types and row order.
/// Fails with `MalformedRow` exactly when the bytes do not parse as delimited
/// text with a consistent field count.
pub fn load_table(bytes: &Vec<u8>, has_header: bool) -> (r: Result<Table, StepError>)
    ensures
        r is Ok <==> csvio::csv_parse(bytes@) is Some,
        r matches Ok(t) ==> Some(t@) == loaded_table(bytes@, has_header),
        r matches Ok(t) ==> wf(t@),
        r matches Err(e) ==> e == StepError::MalformedRow,
{
    let recs = match csvio::parse_csv_bytes(bytes) {
        None => {
            return Err(StepError::MalformedRow);
        },
        Some(v) => v,
    };
    let ghost rs = recs.deep_view();
    let ghost target = table_of_records(rs, has_header);
    let n = recs.len();
    if n == 0 {
        let t = Table { cols: Vec::new() };
        proof {
            assert(t@ =~= target);
        }
        return Ok(t);
    }
    let arity = recs[0].len();
    let start: usize = if has_header {
        1
    } else {
        0
    };
    proof {
        assert(rs[0] == recs@[0].deep_view());
        assert(arity == rs[0].len());
        assert forall|q: int| start <= q < n implies arity <= (#[trigger] recs@[q])@.len() by {
            assert(rs[q].len() == rs[0].len());
            assert(rs[q] == recs@[q].deep_view());
        }
    }
    let mut cols: Vec<Column> = Vec::new();
    let mut c: usize = 0;
    while c < arity
        invariant
            0 <= c <= arity,
            n == recs@.len(),
            n > 0,
            rs == recs.deep_view(),
            target == table_of_records(rs, has_header),
            target.len() == arity,
            arity == rs[0].len(),
            start == if has_header {
                1int
            } else {
                0int
            },
            start <= n,
            forall|q: int| start <= q < n ==> arity <= (#[trigger] recs@[q])@.len(),
            cols@.len() == c,
            forall|j: int| 0 <= j < c ==> #[trigger] cols@[j]@ == target[j],
        decreases arity - c,
    {
        let name: String = if has_header {
            proof {
                assert(c < recs@[0]@.len());
                assert(rs[0][c as int] == recs@[0]@[c as int]@);
            }
            recs[0][c].clone()
        } else {
            let mut nm = String::from_str("column_");
            nm.append(numtext::render_usize(c + 1).as_str());
            nm
        };
        let data = infer_column(&recs, start, c);
        let col = Column { name, data };
        proof {
            assert(target[c as int].name == col@.name);
            assert(target[c as int].data == col@.data);
            assert(col@ =~= target[c as int]);
        }
        cols.push(col);
        c = c + 1;
    }
    let t = Table { cols };
    proof {
        assert(t@ =~= target);
        assert forall|i: int| 0 <= i < t@.len() implies model_len(#[trigger] t@[i].data)
            == row_count_of(t@) by {
            lemma_inferred_len(cells_at(rs, start as int, i));
            lemma_inferred_len(cells_at(rs, start as int, 0));
        }
    }
    Ok(t)
}

/// Inference keeps the number of rows.
proof fn lemma_inferred_len(cells: Seq<Seq<char>>)
    ensures
        model_len(inferred_data(cells)) == cells.len(),
{
}

} // verus!
