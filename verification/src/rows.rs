use vstd::prelude::*;
use crate::table::{model_len, row_count_of, wf, ColDataModel, ColModel, Column, ColumnData, Table};

verus! {

/// The elements of `s` at the positions where `m` is set, in order.
pub open spec fn mask_filter<A>(s: Seq<A>, m: Seq<bool>) -> Seq<A>
    recommends
        s.len() == m.len(),
    decreases s.len(),
{
    if s.len() == 0 {
        Seq::empty()
    } else {
        let rest = mask_filter(s.drop_last(), m.drop_last());
        if m.len() == s.len() && m[s.len() - 1] {
            rest.push(s.last())
        } else {
            rest
        }
    }
}

/// How many positions of `m` are set.
pub open spec fn count_true(m: Seq<bool>) -> nat
    decreases m.len(),
{
    if m.len() == 0 {
        0
    } else {
        count_true(m.drop_last()) + if m.last() {
            1nat
        } else {
            0nat
        }
    }
}

/// A mask keeps as many elements as it has set positions.
pub proof fn lemma_mask_filter_len<A>(s: Seq<A>, m: Seq<bool>)
    requires
        s.len() == m.len(),
    ensures
        mask_filter(s, m).len() == count_true(m),
    decreases s.len(),
{
    if s.len() > 0 {
        lemma_mask_filter_len(s.drop_last(), m.drop_last());
    }
}

/// A column's values at the set positions of the mask.
pub open spec fn mask_filter_model(d: ColDataModel, m: Seq<bool>) -> ColDataModel {
    match d {
        ColDataModel::Ints(v) => ColDataModel::Ints(mask_filter(v, m)),
        ColDataModel::Floats(v) => ColDataModel::Floats(mask_filter(v, m)),
        ColDataModel::Texts(v) => ColDataModel::Texts(mask_filter(v, m)),
    }
}

/// Keeps the integers at the set positions of the mask.
pub fn filter_ints(v: &Vec<i64>, m: &Vec<bool>) -> (r: Vec<i64>)
    requires
        v@.len() == m@.len(),
    ensures
        r@.map_values(|x: i64| x as int) =~= mask_filter(
            v@.map_values(|x: i64| x as int),
            m@,
        ),
{
    let ghost sv = v@.map_values(|x: i64| x as int);
    let mut out: Vec<i64> = Vec::new();
    let n = v.len();
    let mut i: usize = 0;
    while i < n
        invariant
            0 <= i <= n,
            n == v@.len(),
            n == m@.len(),
            sv == v@.map_values(|x: i64| x as int),
            out@.map_values(|x: i64| x as int) =~= mask_filter(sv.take(i as int), m@.take(i as int)),
        decreases n - i,
    {
        let ghost prev = out@.map_values(|x: i64| x as int);
        proof {
            assert(sv.take(i + 1).drop_last() =~= sv.take(i as int));
            assert(m@.take(i + 1).drop_last() =~= m@.take(i as int));
            assert(sv.take(i + 1).last() == sv[i as int]);
        }
        if m[i] {
            out.push(v[i]);
            proof {
                assert(out@.map_values(|x: i64| x as int) =~= prev.push(sv[i as int]));
            }
        }
        i = i + 1;
    }
    proof {
        assert(sv.take(n as int) =~= sv);
        assert(m@.take(n as int) =~= m@);
    }
    out
}

/// Keeps the strings at the set positions of the mask.
pub fn filter_strings(v: &Vec<String>, m: &Vec<bool>) -> (r: Vec<String>)
    requires
        v@.len() == m@.len(),
    ensures
        r.deep_view() =~= mask_filter(v.deep_view(), m@),
{
    let ghost sv = v.deep_view();
    let mut out: Vec<String> = Vec::new();
    let n = v.len();
    let mut i: usize = 0;
    while i < n
        invariant
            0 <= i <= n,
            n == v@.len(),
            n == m@.len(),
            sv == v.deep_view(),
            sv.len() == n,
            out.deep_view() =~= mask_filter(sv.take(i as int), m@.take(i as int)),
        decreases n - i,
    {
        let ghost prev = out.deep_view();
        proof {
            assert(sv.take(i + 1).drop_last() =~= sv.take(i as int));
            assert(m@.take(i + 1).drop_last() =~= m@.take(i as int));
            assert(sv.take(i + 1).last() == sv[i as int]);
            assert(sv[i as int] == v@[i as int]@);
        }
        if m[i] {
            out.push(v[i].clone());
            proof {
                assert(out.deep_view() =~= prev.push(sv[i as int]));
            }
        }
        i = i + 1;
    }
    proof {
        assert(sv.take(n as int) =~= sv);
        assert(m@.take(n as int) =~= m@);
    }
    out
}

/// Keeps a column's values at the set positions of the mask.
pub fn filter_data(d: &ColumnData, m: &Vec<bool>) -> (r: ColumnData)
    requires
        model_len(d@) == m@.len(),
    ensures
        r@ == mask_filter_model(d@, m@),
{
    match d {
        ColumnData::Ints(v) => {
            proof {
                assert(v@.map_values(|x: i64| x as int).len() == v@.len());
            }
            ColumnData::Ints(filter_ints(v, m))
        },
        ColumnData::Floats(v) => ColumnData::Floats(filter_strings(v, m)),
        ColumnData::Texts(v) => ColumnData::Texts(filter_strings(v, m)),
    }
}

/// Keeps, in every column, the rows at the set positions of the mask.
pub fn filter_table_rows(t: &Table, m: &Vec<bool>) -> (u: Table)
    requires
        wf(t@),
        m@.len() == row_count_of(t@),
    ensures
        u@.len() == t@.len(),
        forall|c: int| 0 <= c < t@.len() ==> (#[trigger] u@[c]).name == t@[c].name,
        forall|c: int|
            0 <= c < t@.len() ==> (#[trigger] u@[c]).data == mask_filter_model(t@[c].data, m@),
        wf(u@),
    {
    let n = t.cols.len();
    let mut cols: Vec<Column> = Vec::new();
    let mut c: usize = 0;
    while c < n
        invariant
            0 <= c <= n,
            n == t.cols@.len(),
            t@.len() == n,
            wf(t@),
            m@.len() == row_count_of(t@),
            cols@.len() == c,
            forall|j: int| 0 <= j < c ==> (#[trigger] cols@[j]@).name == t@[j].name,
            forall|j: int|
                0 <= j < c ==> (#[trigger] cols@[j]@).data == mask_filter_model(t@[j].data, m@),
        decreases n - c,
    {
        proof {
            assert(t@[c as int] == t.cols@[c as int]@);
            assert(model_len(t@[c as int].data) == row_count_of(t@));
        }
        let col = Column {
            name: t.cols[c].name.clone(),
            data: filter_data(&t.cols[c].data, m),
        };
        cols.push(col);
        c = c + 1;
    }
    let u = Table { cols };
    proof {
        assert(u@.len() == t@.len());
        assert forall|j: int| 0 <= j < u@.len() implies model_len(#[trigger] u@[j].data)
            == row_count_of(u@) by {
            lemma_mask_model_len(t@[j].data, m@);
            lemma_mask_model_len(t@[0].data, m@);
        }
    }
    u
}

/// Mask filtering shrinks every column alike.
pub proof fn lemma_mask_model_len(d: ColDataModel, m: Seq<bool>)
    requires
        model_len(d) == m.len(),
    ensures
        model_len(mask_filter_model(d, m)) == count_true(m),
{
    match d {
        ColDataModel::Ints(v) => lemma_mask_filter_len(v, m),
        ColDataModel::Floats(v) => lemma_mask_filter_len(v, m),
        ColDataModel::Texts(v) => lemma_mask_filter_len(v, m),
    }
}

/// Copies the integers in rows `[lo, hi)`.
pub fn slice_ints(v: &Vec<i64>, lo: usize, hi: usize) -> (r: Vec<i64>)
    requires
        lo <= hi <= v@.len(),
    ensures
        r@.map_values(|x: i64| x as int) =~= v@.map_values(|x: i64| x as int).subrange(
            lo as int,
            hi as int,
        ),
{
    let mut out: Vec<i64> = Vec::new();
    let mut i: usize = lo;
    while i < hi
        invariant
            lo <= i <= hi <= v@.len(),
            out@.map_values(|x: i64| x as int) =~= v@.map_values(|x: i64| x as int).subrange(
                lo as int,
                i as int,
            ),
        decreases hi - i,
    {
        let ghost prev = out@.map_values(|x: i64| x as int);
        out.push(v[i]);
        proof {
            assert(out@.map_values(|x: i64| x as int) =~= prev.push(v@[i as int] as int));
        }
        i = i + 1;
    }
    out
}

/// Copies the strings in rows `[lo, hi)`.
pub fn slice_strings(v: &Vec<String>, lo: usize, hi: usize) -> (r: Vec<String>)
    requires
        lo <= hi <= v@.len(),
    ensures
        r.deep_view() =~= v.deep_view().subrange(lo as int, hi as int),
{
    let mut out: Vec<String> = Vec::new();
    let mut i: usize = lo;
    while i < hi
        invariant
            lo <= i <= hi <= v@.len(),
            v.deep_view().len() == v@.len(),
            out.deep_view() =~= v.deep_view().subrange(lo as int, i as int),
        decreases hi - i,
    {
        let ghost prev = out.deep_view();
        out.push(v[i].clone());
        proof {
            assert(v.deep_view()[i as int] == v@[i as int]@);
            assert(out.deep_view() =~= prev.push(v.deep_view()[i as int]));
        }
        i = i + 1;
    }
    out
}

/// A column's values in rows `[lo, hi)`.
pub open spec fn slice_model(d: ColDataModel, lo: int, hi: int) -> ColDataModel
    recommends
        0 <= lo <= hi <= model_len(d),
{
    match d {
        ColDataModel::Ints(v) => ColDataModel::Ints(v.subrange(lo, hi)),
        ColDataModel::Floats(v) => ColDataModel::Floats(v.subrange(lo, hi)),
        ColDataModel::Texts(v) => ColDataModel::Texts(v.subrange(lo, hi)),
    }
}

/// Copies a column's values in rows `[lo, hi)`.
pub fn slice_data(d: &ColumnData, lo: usize, hi: usize) -> (r: ColumnData)
    requires
        lo <= hi <= model_len(d@),
    ensures
        r@ == slice_model(d@, lo as int, hi as int),
{
    match d {
        ColumnData::Ints(v) => ColumnData::Ints(slice_ints(v, lo, hi)),
        ColumnData::Floats(v) => ColumnData::Floats(slice_strings(v, lo, hi)),
        ColumnData::Texts(v) => ColumnData::Texts(slice_strings(v, lo, hi)),
    }
}

/// Keeps, in every column, only the rows `[lo, hi)`.
pub fn slice_table_rows(t: &Table, lo: usize, hi: usize) -> (u: Table)
    requires
        wf(t@),
        lo <= hi <= row_count_of(t@),
    ensures
        u@.len() == t@.len(),
        forall|c: int| 0 <= c < t@.len() ==> (#[trigger] u@[c]).name == t@[c].name,
        forall|c: int|
            0 <= c < t@.len() ==> (#[trigger] u@[c]).data == slice_model(
                t@[c].data,
                lo as int,
                hi as int,
            ),
        wf(u@),
    {
    let n = t.cols.len();
    let mut cols: Vec<Column> = Vec::new();
    let mut c: usize = 0;
    while c < n
        invariant
            0 <= c <= n,
            n == t.cols@.len(),
            t@.len() == n,
            wf(t@),
            lo <= hi <= row_count_of(t@),
            cols@.len() == c,
            forall|j: int| 0 <= j < c ==> (#[trigger] cols@[j]@).name == t@[j].name,
            forall|j: int|
                0 <= j < c ==> (#[trigger] cols@[j]@).data == slice_model(
                    t@[j].data,
                    lo as int,
                    hi as int,
                ),
        decreases n - c,
    {
        proof {
            assert(t@[c as int] == t.cols@[c as int]@);
            assert(model_len(t@[c as int].data) == row_count_of(t@));
        }
        let col = Column {
            name: t.cols[c].name.clone(),
            data: slice_data(&t.cols[c].data, lo, hi),
        };
        cols.push(col);
        c = c + 1;
    }
    let u = Table { cols };
    proof {
        assert(u@.len() == t@.len());
        assert forall|j: int| 0 <= j < u@.len() implies model_len(#[trigger] u@[j].data)
            == row_count_of(u@) by {
            assert(u@[j].data == slice_model(t@[j].data, lo as int, hi as int));
            assert(u@[0].data == slice_model(t@[0].data, lo as int, hi as int));
        }
    }
    u
}

} // verus!
