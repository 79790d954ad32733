use vstd::prelude::*;
use crate::table::{ColDataModel, ColModel, Column, ColumnData, Table};

verus! {

/// The table holds a column of this name.
pub open spec fn has_col(t: Seq<ColModel>, name: Seq<char>) -> bool {
    exists|i: int| 0 <= i < t.len() && t[i].name == name
}

/// `i` is the first column of this name.
pub open spec fn is_first_col(t: Seq<ColModel>, name: Seq<char>, i: int) -> bool {
    &&& 0 <= i < t.len()
    &&& t[i].name == name
    &&& forall|j: int| 0 <= j < i ==> t[j].name != name
}

/// The index of the first column of this name. Name lookup always resolves to
/// the first match.
pub open spec fn col_index(t: Seq<ColModel>, name: Seq<char>) -> int {
    choose|i: int| is_first_col(t, name, i)
}

/// There is exactly one first column of a given name.
pub proof fn lemma_first_col_unique(t: Seq<ColModel>, name: Seq<char>, i: int)
    requires
        is_first_col(t, name, i),
    ensures
        col_index(t, name) == i,
        has_col(t, name),
{
    let j = col_index(t, name);
    assert(is_first_col(t, name, j));
    if i < j {
        assert(t[i].name != name);
    }
    if j < i {
        assert(t[j].name != name);
    }
}

/// Where some column of the name exists, a first one does.
proof fn lemma_first_exists(t: Seq<ColModel>, name: Seq<char>, w: int)
    requires
        0 <= w < t.len(),
        t[w].name == name,
    ensures
        exists|i: int| is_first_col(t, name, i),
    decreases w,
{
    if forall|j: int| 0 <= j < w ==> (#[trigger] t[j]).name != name {
        assert(is_first_col(t, name, w));
    } else {
        let v = choose|j: int| 0 <= j < w && (#[trigger] t[j]).name == name;
        lemma_first_exists(t, name, v);
    }
}

/// Name lookup on a table that holds the name lands on a real column of that
/// name.
pub proof fn lemma_has_col_first(t: Seq<ColModel>, name: Seq<char>)
    requires
        has_col(t, name),
    ensures
        is_first_col(t, name, col_index(t, name)),
        0 <= col_index(t, name) < t.len(),
        t[col_index(t, name)].name == name,
{
    let w = choose|i: int| 0 <= i < t.len() && (#[trigger] t[i]).name == name;
    lemma_first_exists(t, name, w);
    let i = choose|i: int| is_first_col(t, name, i);
    assert(is_first_col(t, name, i));
}

/// Finds the first column of the given name.
pub fn find_col(t: &Table, name: &String) -> (r: Option<usize>)
    ensures
        r is Some <==> has_col(t@, name@),
        r matches Some(i) ==> is_first_col(t@, name@, i as int) && i == col_index(t@, name@),
{
    let n = t.cols.len();
    let mut i: usize = 0;
    while i < n
        invariant
            0 <= i <= n,
            n == t.cols@.len(),
            t@.len() == n,
            forall|j: int| 0 <= j < i ==> t@[j].name != name@,
        decreases n - i,
    {
        proof {
            assert(t@[i as int] == t.cols@[i as int]@);
        }
        if t.cols[i].name == *name {
            proof {
                lemma_first_col_unique(t@, name@, i as int);
            }
            return Some(i);
        }
        i = i + 1;
    }
    proof {
        if has_col(t@, name@) {
            let w = choose|j: int| 0 <= j < t@.len() && t@[j].name == name@;
            assert(t@[w].name != name@);
        }
    }
    None
}

/// Copies a vector of integers.
pub fn clone_ints(v: &Vec<i64>) -> (r: Vec<i64>)
    ensures
        r@ == v@,
{
    let mut out: Vec<i64> = Vec::new();
    let n = v.len();
    let mut i: usize = 0;
    while i < n
        invariant
            0 <= i <= n,
            n == v@.len(),
            out@ =~= v@.take(i as int),
        decreases n - i,
    {
        out.push(v[i]);
        proof {
            assert(out@ =~= v@.take(i + 1));
        }
        i = i + 1;
    }
    proof {
        assert(v@.take(n as int) =~= v@);
    }
    out
}

/// Copies a vector of strings.
pub fn clone_strings(v: &Vec<String>) -> (r: Vec<String>)
    ensures
        r@ == v@,
{
    let mut out: Vec<String> = Vec::new();
    let n = v.len();
    let mut i: usize = 0;
    while i < n
        invariant
            0 <= i <= n,
            n == v@.len(),
            out@ =~= v@.take(i as int),
        decreases n - i,
    {
        out.push(v[i].clone());
        proof {
            assert(out@ =~= v@.take(i + 1));
        }
        i = i + 1;
    }
    proof {
        assert(v@.take(n as int) =~= v@);
    }
    out
}

/// Copies a column's values.
pub fn clone_data(d: &ColumnData) -> (r: ColumnData)
    ensures
        r@ == d@,
{
    match d {
        ColumnData::Ints(v) => ColumnData::Ints(clone_ints(v)),
        ColumnData::Floats(v) => ColumnData::Floats(clone_strings(v)),
        ColumnData::Texts(v) => ColumnData::Texts(clone_strings(v)),
    }
}

/// Copies a whole column.
pub fn clone_column(c: &Column) -> (r: Column)
    ensures
        r@ == c@,
{
    let r = Column { name: c.name.clone(), data: clone_data(&c.data) };
    proof {
        assert(r@ =~= c@);
    }
    r
}

} // verus!
