use vstd::prelude::*;
use crate::access::{col_index, find_col, has_col};
use crate::errors::StepError;
use crate::rows::{count_true, filter_table_rows, mask_filter_model, slice_model, slice_table_rows};
use crate::table::{model_len, row_count_of, wf, ColDataModel, ColumnData, Table};

verus! {

/// Two rows of one column hold the same value.
pub open spec fn model_cell_eq(d: ColDataModel, i: int, j: int) -> bool {
    match d {
        ColDataModel::Ints(v) => v[i] == v[j],
        ColDataModel::Floats(v) => v[i] == v[j],
        ColDataModel::Texts(v) => v[i] == v[j],
    }
}

/// Row `i` shares its key value with some other row.
pub open spec fn dup_flags(d: ColDataModel) -> Seq<bool> {
    Seq::new(
        model_len(d),
        |i: int|
            exists|j: int| 0 <= j < model_len(d) && j != i && model_cell_eq(d, i, j),
    )
}

/// Row `i` is the first row holding its key value: the keep-first policy.
pub open spec fn keep_first_mask(d: ColDataModel) -> Seq<bool> {
    Seq::new(model_len(d), |i: int| forall|j: int| 0 <= j < i ==> !model_cell_eq(d, i, j))
}

/// Compares the values of two rows of one column.
fn cells_equal(d: &ColumnData, i: usize, j: usize) -> (r: bool)
    requires
        i < model_len(d@),
        j < model_len(d@),
    ensures
        r == model_cell_eq(d@, i as int, j as int),
{
    match d {
        ColumnData::Ints(v) => v[i] == v[j],
        ColumnData::Floats(v) => {
            proof {
                assert(v.deep_view()[i as int] == v@[i as int]@);
                assert(v.deep_view()[j as int] == v@[j as int]@);
            }
            v[i] == v[j]
        },
        ColumnData::Texts(v) => {
            proof {
                assert(v.deep_view()[i as int] == v@[i as int]@);
                assert(v.deep_view()[j as int] == v@[j as int]@);
            }
            v[i] == v[j]
        },
    }
}

/// The per-row duplication report over a key column: row `i` is flagged
/// exactly when another row holds the same key value. Fails with
/// `UnknownColumn` exactly when the key column is absent.
pub fn duplicated_flags(t: &Table, name: &String) -> (r: Result<Vec<bool>, StepError>)
    ensures
        r is Ok <==> has_col(t@, name@),
        r matches Ok(v) ==> v@ =~= dup_flags(t@[col_index(t@, name@)].data),
        r matches Err(e) ==> e == StepError::UnknownColumn,
{
    let k = match find_col(t, name) {
        None => {
            return Err(StepError::UnknownColumn);
        },
        Some(k) => k,
    };
    proof {
        assert(t@[k as int] == t.cols@[k as int]@);
    }
    let d = &t.cols[k].data;
    let ghost gd = d@;
    let ghost flags = dup_flags(gd);
    let n = crate::table::data_len(d);
    let mut out: Vec<bool> = Vec::new();
    let mut i: usize = 0;
    while i < n
        invariant
            0 <= i <= n,
            n == model_len(gd),
            gd == d@,
            d == &t.cols@[k as int].data,
            flags == dup_flags(gd),
            out@.len() == i,
            forall|q: int| 0 <= q < i ==> out@[q] == flags[q],
        decreases n - i,
    {
        let mut found = false;
        let ghost mut w: int = 0;
        let mut j: usize = 0;
        while j < n
            invariant
                0 <= j <= n,
                0 <= i < n,
                n == model_len(gd),
                gd == d@,
                d == &t.cols@[k as int].data,
                found ==> 0 <= w < n && w != i && model_cell_eq(gd, i as int, w),
                !found ==> (forall|q: int|
                    0 <= q < j && q != i ==> !model_cell_eq(gd, i as int, q)),
            decreases n - j,
        {
            if j != i && !found {
                if cells_equal(d, i, j) {
                    proof {
                        w = j as int;
                    }
                    found = true;
                }
            }
            j = j + 1;
        }
        proof {
            assert(found == flags[i as int]);
        }
        out.push(found);
        i = i + 1;
    }
    proof {
        assert(out@ =~= flags);
    }
    Ok(out)
}

/// Start of the slice window, clamped to the reduced row count.
pub open spec fn clamp_lo(off: int, n: int) -> int {
    if off > n {
        n
    } else {
        off
    }
}

/// End of the slice window, clamped to the reduced row count.
pub open spec fn clamp_hi(off: int, len: int, n: int) -> int {
    if clamp_lo(off, n) + len > n {
        n
    } else {
        clamp_lo(off, n) + len
    }
}

/// What a reduced column holds after the keep-first pass and the optional
/// slice window.
pub open spec fn reduced_model(
    d: ColDataModel,
    m: Seq<bool>,
    slice: Option<(usize, usize)>,
) -> ColDataModel {
    let kept = mask_filter_model(d, m);
    match slice {
        Option::None => kept,
        Option::Some((off, len)) => slice_model(
            kept,
            clamp_lo(off as int, count_true(m) as int),
            clamp_hi(off as int, len as int, count_true(m) as int),
        ),
    }
}

/// Deduplication with the keep-first policy: one row per distinct value of the
/// key column, the first in row order, all columns reduced alike and row order
/// kept; an optional slice window `(offset, length)` is then applied, clamped
/// to the reduced row count. The result is a pure function of the input, so
/// repeated runs yield one and the same table. Fails with `UnknownColumn`
/// exactly when the key column is absent.
pub fn unique_by(t: &Table, name: &String, slice: Option<(usize, usize)>) -> (r: Result<
    Table,
    StepError,
>)
    requires
        wf(t@),
    ensures
        r is Ok <==> has_col(t@, name@),
        r matches Ok(u) ==> u@.len() == t@.len(),
        r matches Ok(u) ==> (forall|c: int|
            0 <= c < t@.len() ==> (#[trigger] u@[c]).name == t@[c].name),
        r matches Ok(u) ==> (forall|c: int|
            0 <= c < t@.len() ==> (#[trigger] u@[c]).data == reduced_model(
                t@[c].data,
                keep_first_mask(t@[col_index(t@, name@)].data),
                slice,
            )),
        r matches Ok(u) ==> wf(u@),
        r matches Err(e) ==> e == StepError::UnknownColumn,
{
    let k = match find_col(t, name) {
        None => {
            return Err(StepError::UnknownColumn);
        },
        Some(k) => k,
    };
    proof {
        assert(t@[k as int] == t.cols@[k as int]@);
        assert(model_len(t@[k as int].data) == row_count_of(t@));
    }
    let d = &t.cols[k].data;
    let ghost gd = d@;
    let ghost gm = keep_first_mask(gd);
    let n = crate::table::data_len(d);
    let mut m: Vec<bool> = Vec::new();
    let mut i: usize = 0;
    while i < n
        invariant
            0 <= i <= n,
            n == model_len(gd),
            gd == d@,
            d == &t.cols@[k as int].data,
            gm == keep_first_mask(gd),
            m@.len() == i,
            forall|q: int| 0 <= q < i ==> m@[q] == gm[q],
        decreases n - i,
    {
        let mut keep = true;
        let ghost mut w: int = 0;
        let mut j: usize = 0;
        while j < i
            invariant
                0 <= j <= i < n,
                n == model_len(gd),
                gd == d@,
                d == &t.cols@[k as int].data,
                keep ==> (forall|q: int| 0 <= q < j ==> !model_cell_eq(gd, i as int, q)),
                !keep ==> 0 <= w < i && model_cell_eq(gd, i as int, w),
            decreases i - j,
        {
            if keep {
                if cells_equal(d, i, j) {
                    proof {
                        w = j as int;
                    }
                    keep = false;
                }
            }
            j = j + 1;
        }
        proof {
            assert(keep == gm[i as int]);
        }
        m.push(keep);
        i = i + 1;
    }
    proof {
        assert(m@ =~= gm);
    }
    let kept = filter_table_rows(t, &m);
    proof {
        crate::rows::lemma_mask_model_len(t@[0].data, gm);
    }
    match slice {
        None => Ok(kept),
        Some((off, len)) => {
            let rows1 = kept.row_count();
            let lo: usize = if off > rows1 {
                rows1
            } else {
                off
            };
            let rem = rows1 - lo;
            let hi: usize = if len > rem {
                rows1
            } else {
                lo + len
            };
            let u = slice_table_rows(&kept, lo, hi);
            proof {
                let cnt = count_true(gm) as int;
                assert(rows1 == cnt);
                assert(lo == clamp_lo(off as int, cnt));
                assert(hi == clamp_hi(off as int, len as int, cnt));
                assert forall|c: int| 0 <= c < t@.len() implies (#[trigger] u@[c]).data
                    == reduced_model(t@[c].data, gm, slice) by {
                    assert(u@[c].data == slice_model(kept@[c].data, lo as int, hi as int));
                    assert(kept@[c].data == mask_filter_model(t@[c].data, gm));
                }
            }
            Ok(u)
        },
    }
}

} // verus!
