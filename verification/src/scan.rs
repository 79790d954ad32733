use vstd::prelude::*;
use vstd::string::*;

verus! {

/// A path whose last four characters are `.csv`.
pub open spec fn has_csv_ext(s: Seq<char>) -> bool {
    s.len() >= 4 && s[s.len() - 4] == '.' && s[s.len() - 3] == 'c' && s[s.len() - 2] == 's'
        && s[s.len() - 1] == 'v'
}

/// `has_csv_ext` as a value, so every contract filters by one and the same
/// predicate term.
pub open spec fn csv_ext_pred() -> spec_fn(Seq<char>) -> bool {
    |p: Seq<char>| has_csv_ext(p)
}

/// Decides whether one path carries the `.csv` suffix.
pub fn path_has_csv_ext(s: &String) -> (r: bool)
    ensures
        r == has_csv_ext(s@),
{
    let p = s.as_str();
    let n = p.unicode_len();
    if n < 4 {
        return false;
    }
    p.get_char(n - 4) == '.' && p.get_char(n - 3) == 'c' && p.get_char(n - 2) == 's' && p.get_char(
        n - 1,
    ) == 'v'
}

/// Keeps exactly the paths that carry the `.csv` suffix, in their original
/// order: the directory scanner's filtering step. Entries without the suffix
/// are silently excluded; no error is raised for them.
pub fn filter_csv_paths(paths: &Vec<String>) -> (r: Vec<String>)
    ensures
        r.deep_view() == paths.deep_view().filter(csv_ext_pred()),
{
    let ghost all = paths.deep_view();
    let mut out: Vec<String> = Vec::new();
    let n = paths.len();
    let mut i: usize = 0;
    while i < n
        invariant
            0 <= i <= n,
            n == paths@.len(),
            all == paths.deep_view(),
            out.deep_view() == all.take(i as int).filter(csv_ext_pred()),
        decreases n - i,
    {
        let ghost prev = out.deep_view();
        let ghost prefix = all.take(i as int);
        proof {
            assert(all[i as int] == paths@[i as int].deep_view());
            assert(all.take(i + 1) =~= prefix.push(all[i as int]));
            Seq::filter_distributes_over_add(prefix, seq![all[i as int]], csv_ext_pred());
            assert(prefix + seq![all[i as int]] =~= all.take(i + 1));
            assert(seq![all[i as int]].drop_last() =~= Seq::<Seq<char>>::empty());
            reveal_with_fuel(Seq::filter, 2);
        }
        if path_has_csv_ext(&paths[i]) {
            out.push(paths[i].clone());
            proof {
                reveal_with_fuel(Seq::filter, 2);
                assert(seq![all[i as int]].filter(csv_ext_pred()) =~= seq![all[i as int]]);
                assert(out.deep_view() =~= prev.push(all[i as int]));
            }
        } else {
            proof {
                reveal_with_fuel(Seq::filter, 2);
                assert(seq![all[i as int]].filter(csv_ext_pred()) =~= Seq::<Seq<char>>::empty());
                assert(all.take(i + 1).filter(csv_ext_pred()) =~= prev);
            }
        }
        i = i + 1;
    }
    proof {
        assert(all.take(n as int) =~= all);
    }
    out
}

} // verus!
