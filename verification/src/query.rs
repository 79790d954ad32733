use vstd::prelude::*;
use crate::access::{clone_column, col_index, find_col, has_col};
use crate::errors::StepError;
use crate::numtext;
use crate::rows::{count_true, filter_table_rows, mask_filter_model};
use crate::table::{
    model_len, row_count_of, wf, ColDataModel, ColModel, Column, ColumnData, Table,
};

verus! {

/// The rows of a column that equal a literal. Against an integer column the
/// literal is read as an integer; a literal that is not 64-bit integer text
/// matches no row there. Against a floating point or text column the literal
/// is compared with the cell's lexeme.
pub open spec fn eq_mask(d: ColDataModel, lit: Seq<char>) -> Seq<bool> {
    match d {
        ColDataModel::Ints(v) => Seq::new(
            v.len(),
            |i: int| numtext::is_i64_text(lit) && v[i] == numtext::int_text_val(lit),
        ),
        ColDataModel::Floats(v) => Seq::new(v.len(), |i: int| v[i] == lit),
        ColDataModel::Texts(v) => Seq::new(v.len(), |i: int| v[i] == lit),
    }
}

/// Projection: the named columns, in the requested order, each the first
/// column of its name, rows untouched. Fails with `UnknownColumn` exactly when
/// some requested name is absent.
pub fn select_columns(t: &Table, names: &Vec<String>) -> (r: Result<Table, StepError>)
    ensures
        r is Ok <==> (forall|k: int|
            0 <= k < names@.len() ==> has_col(t@, #[trigger] names.deep_view()[k])),
        r matches Ok(u) ==> u@.len() == names@.len(),
        r matches Ok(u) ==> (forall|k: int|
            0 <= k < names@.len() ==> #[trigger] u@[k] == t@[col_index(
                t@,
                names.deep_view()[k],
            )]),
        r matches Err(e) ==> e == StepError::UnknownColumn,
        wf(t@) && r is Ok ==> wf(r.unwrap()@) && (names@.len() > 0 ==> row_count_of(r.unwrap()@)
            == row_count_of(t@)),
{
    let n = names.len();
    let mut cols: Vec<Column> = Vec::new();
    let mut k: usize = 0;
    while k < n
        invariant
            0 <= k <= n,
            n == names@.len(),
            cols@.len() == k,
            forall|j: int| 0 <= j < k ==> has_col(t@, #[trigger] names.deep_view()[j]),
            forall|j: int|
                0 <= j < k ==> #[trigger] cols@[j]@ == t@[col_index(t@, names.deep_view()[j])],
        decreases n - k,
    {
        proof {
            assert(names.deep_view()[k as int] == names@[k as int]@);
        }
        match find_col(t, &names[k]) {
            None => {
                return Err(StepError::UnknownColumn);
            },
            Some(i) => {
                let col = clone_column(&t.cols[i]);
                proof {
                    assert(t@[i as int] == t.cols@[i as int]@);
                }
                cols.push(col);
            },
        }
        k = k + 1;
    }
    let u = Table { cols };
    proof {
        assert(u@.len() == names@.len());
        assert forall|j: int| 0 <= j < names@.len() implies #[trigger] u@[j] == t@[col_index(
            t@,
            names.deep_view()[j],
        )] by {
            assert(u@[j] == u.cols@[j]@);
        }
        if wf(t@) && u@.len() > 0 {
            assert forall|j: int| 0 <= j < u@.len() implies model_len(#[trigger] u@[j].data)
                == row_count_of(t@) by {
                crate::access::lemma_has_col_first(t@, names.deep_view()[j]);
                let i = col_index(t@, names.deep_view()[j]);
                assert(u@[j] == t@[i]);
                assert(model_len(t@[i].data) == row_count_of(t@));
            }
        }
    }
    Ok(u)
}

/// The rows of the key column that equal the literal, as a mask.
fn build_eq_mask(d: &ColumnData, lit: &String) -> (m: Vec<bool>)
    ensures
        m@ =~= eq_mask(d@, lit@),
{
    let ghost gm = eq_mask(d@, lit@);
    match d {
        ColumnData::Ints(v) => {
            let parsed = numtext::parse_i64(lit.as_str());
            let mut m: Vec<bool> = Vec::new();
            let n = v.len();
            let mut i: usize = 0;
            while i < n
                invariant
                    0 <= i <= n,
                    n == v@.len(),
                    gm == eq_mask(d@, lit@),
                    d@ == ColDataModel::Ints(v@.map_values(|y: i64| y as int)),
                    gm.len() == n,
                    parsed is Some <==> numtext::is_i64_text(lit@),
                    parsed matches Some(x) ==> x as int == numtext::int_text_val(lit@),
                    m@.len() == i,
                    forall|j: int| 0 <= j < i ==> m@[j] == gm[j],
                decreases n - i,
            {
                let hit = match parsed {
                    Some(x) => v[i] == x,
                    None => false,
                };
                m.push(hit);
                i = i + 1;
            }
            proof {
                assert(m@ =~= gm);
            }
            m
        },
        ColumnData::Floats(v) => build_lexeme_mask(v, lit, Ghost(gm)),
        ColumnData::Texts(v) => build_lexeme_mask(v, lit, Ghost(gm)),
    }
}

/// The rows of a lexeme vector that equal the literal, as a mask.
fn build_lexeme_mask(v: &Vec<String>, lit: &String, expected: Ghost<Seq<bool>>) -> (m: Vec<bool>)
    requires
        expected@ == Seq::new(v.deep_view().len(), |i: int| v.deep_view()[i] == lit@),
    ensures
        m@ =~= expected@,
{
    let mut m: Vec<bool> = Vec::new();
    let n = v.len();
    let mut i: usize = 0;
    while i < n
        invariant
            0 <= i <= n,
            n == v@.len(),
            expected@ == Seq::new(v.deep_view().len(), |j: int| v.deep_view()[j] == lit@),
            expected@.len() == n,
            m@.len() == i,
            forall|j: int| 0 <= j < i ==> m@[j] == expected@[j],
        decreases n - i,
    {
        proof {
            assert(v.deep_view()[i as int] == v@[i as int]@);
        }
        m.push(v[i] == *lit);
        i = i + 1;
    }
    m
}

/// Filter: the rows where the named column equals the literal, every column
/// reduced to those rows, order kept; unmatched rows are dropped. Against an
/// integer column the literal is read as an integer, and a literal that is
/// not 64-bit integer text matches no row. Fails with `UnknownColumn` exactly
/// when the name is absent.
pub fn filter_eq(t: &Table, name: &String, literal: &String) -> (r: Result<Table, StepError>)
    requires
        wf(t@),
    ensures
        r is Ok <==> has_col(t@, name@),
        r matches Ok(u) ==> u@.len() == t@.len(),
        r matches Ok(u) ==> (forall|c: int|
            0 <= c < t@.len() ==> (#[trigger] u@[c]).name == t@[c].name),
        r matches Ok(u) ==> (forall|c: int|
            0 <= c < t@.len() ==> (#[trigger] u@[c]).data == mask_filter_model(
                t@[c].data,
                eq_mask(t@[col_index(t@, name@)].data, literal@),
            )),
        r matches Ok(u) ==> wf(u@) && row_count_of(u@) == count_true(
            eq_mask(t@[col_index(t@, name@)].data, literal@),
        ),
        r matches Err(e) ==> e == StepError::UnknownColumn,
{
    let i = match find_col(t, name) {
        None => {
            return Err(StepError::UnknownColumn);
        },
        Some(i) => i,
    };
    proof {
        assert(t@[i as int] == t.cols@[i as int]@);
        assert(model_len(t@[i as int].data) == row_count_of(t@));
    }
    let m = build_eq_mask(&t.cols[i].data, literal);
    proof {
        lemma_eq_mask_len(t@[i as int].data, literal@);
    }
    let u = filter_table_rows(t, &m);
    proof {
        let gm = eq_mask(t@[col_index(t@, name@)].data, literal@);
        assert(m@ =~= gm);
        crate::rows::lemma_mask_model_len(t@[0].data, gm);
    }
    Ok(u)
}

/// A mask over a column has one entry per row.
proof fn lemma_eq_mask_len(d: ColDataModel, lit: Seq<char>)
    ensures
        eq_mask(d, lit).len() == model_len(d),
{
}

/// The number of rows of the named column that equal the literal: the counting
/// aggregate over a filter. Fails exactly as the filter does.
pub fn count_matches(t: &Table, name: &String, literal: &String) -> (r: Result<usize, StepError>)
    requires
        wf(t@),
    ensures
        r is Ok <==> has_col(t@, name@),
        r matches Ok(c) ==> c == count_true(eq_mask(t@[col_index(t@, name@)].data, literal@)),
        r matches Err(e) ==> e == StepError::UnknownColumn,
{
    match filter_eq(t, name, literal) {
        Err(e) => Err(e),
        Ok(u) => Ok(u.row_count()),
    }
}

/// A column's values stand in ascending order: numeric for an integer column,
/// lexicographic by character code for a floating point or text column.
pub open spec fn sorted_model(d: ColDataModel) -> bool {
    match d {
        ColDataModel::Ints(v) => crate::order::sorted_ints(v),
        ColDataModel::Floats(v) => crate::order::sorted_lex(v),
        ColDataModel::Texts(v) => crate::order::sorted_lex(v),
    }
}

/// Two columns hold the same kind and the same values, each value as often as
/// the other.
pub open spec fn same_values(a: ColDataModel, b: ColDataModel) -> bool {
    match (a, b) {
        (ColDataModel::Ints(x), ColDataModel::Ints(y)) => x.to_multiset() == y.to_multiset(),
        (ColDataModel::Floats(x), ColDataModel::Floats(y)) => x.to_multiset() == y.to_multiset(),
        (ColDataModel::Texts(x), ColDataModel::Texts(y)) => x.to_multiset() == y.to_multiset(),
        _ => false,
    }
}

/// Sort: a one-column table holding the named column's values rearranged into
/// ascending order. Fails with `UnknownColumn` exactly when the name is
/// absent.
pub fn sort_column(t: &Table, name: &String) -> (r: Result<Table, StepError>)
    ensures
        r is Ok <==> has_col(t@, name@),
        r matches Ok(u) ==> u@.len() == 1 && u@[0].name == t@[col_index(t@, name@)].name
            && sorted_model(u@[0].data) && same_values(u@[0].data, t@[col_index(t@, name@)].data)
            && wf(u@),
        r matches Err(e) ==> e == StepError::UnknownColumn,
{
    let k = match find_col(t, name) {
        None => {
            return Err(StepError::UnknownColumn);
        },
        Some(k) => k,
    };
    proof {
        assert(t@[k as int] == t.cols@[k as int]@);
    }
    let data = match &t.cols[k].data {
        ColumnData::Ints(v) => ColumnData::Ints(crate::order::sort_ints(v)),
        ColumnData::Floats(v) => ColumnData::Floats(crate::order::sort_lexemes(v)),
        ColumnData::Texts(v) => ColumnData::Texts(crate::order::sort_lexemes(v)),
    };
    let mut cols: Vec<Column> = Vec::new();
    cols.push(Column { name: t.cols[k].name.clone(), data });
    let u = Table { cols };
    proof {
        assert(u@[0] == u.cols@[0]@);
    }
    Ok(u)
}

/// Row-count-as-column: a new integer column named `name`, holding the row
/// numbers from `offset` on, prepended to the table's columns.
pub fn with_row_count(t: &Table, name: &String, offset: u32) -> (r: Table)
    requires
        wf(t@),
        offset + row_count_of(t@) <= u32::MAX,
    ensures
        r@ =~= seq![
            ColModel {
                name: name@,
                data: ColDataModel::Ints(
                    Seq::new(row_count_of(t@), |i: int| offset + i),
                ),
            },
        ] + t@,
        wf(r@),
{
    let rows = t.row_count();
    let ghost rc = Seq::new(row_count_of(t@), |i: int| offset + i);
    let mut v: Vec<i64> = Vec::new();
    let mut i: usize = 0;
    while i < rows
        invariant
            0 <= i <= rows,
            rows == row_count_of(t@),
            offset + rows <= u32::MAX,
            rc == Seq::new(row_count_of(t@), |j: int| offset + j),
            v@.len() == i,
            forall|j: int| 0 <= j < i ==> v@[j] as int == rc[j],
        decreases rows - i,
    {
        v.push(offset as i64 + i as i64);
        i = i + 1;
    }
    let mut cols: Vec<Column> = Vec::new();
    cols.push(Column { name: name.clone(), data: ColumnData::Ints(v) });
    let n = t.cols.len();
    let mut c: usize = 0;
    while c < n
        invariant
            0 <= c <= n,
            n == t.cols@.len(),
            t@.len() == n,
            cols@.len() == c + 1,
            cols@[0]@.name == name@,
            cols@[0]@.data =~= ColDataModel::Ints(rc),
            rc.len() == row_count_of(t@),
            rc == Seq::new(row_count_of(t@), |j: int| offset + j),
            forall|j: int| 1 <= j < c + 1 ==> #[trigger] cols@[j]@ == t@[j - 1],
        decreases n - c,
    {
        proof {
            assert(t@[c as int] == t.cols@[c as int]@);
        }
        cols.push(clone_column(&t.cols[c]));
        c = c + 1;
    }
    let r = Table { cols };
    proof {
        let target = seq![
            ColModel { name: name@, data: ColDataModel::Ints(rc) },
        ] + t@;
        assert forall|j: int| 0 <= j < r@.len() implies #[trigger] r@[j] == target[j] by {
            assert(r@[j] == r.cols@[j]@);
            if j > 0 {
                assert(r.cols@[j]@ == t@[j - 1]);
            } else {
                assert(r.cols@[0]@.name == name@);
                assert(r.cols@[0]@.data =~= ColDataModel::Ints(rc));
                assert(r.cols@[0]@ =~= target[0]);
            }
        }
        assert(r@ =~= target);
        assert forall|j: int| 0 <= j < r@.len() implies model_len(#[trigger] r@[j].data)
            == row_count_of(r@) by {
            assert(model_len(r@[0].data) == rc.len());
            if j > 0 {
                assert(r@[j] == t@[j - 1]);
                assert(model_len(t@[j - 1].data) == row_count_of(t@));
            }
        }
    }
    r
}

} // verus!
