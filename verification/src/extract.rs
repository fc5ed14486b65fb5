//! Row extraction: skipping rows before the start row, picking the requested
//! columns of each remaining row as trimmed values, and filtering rows whose
//! values are all empty when asked to.

use vstd::prelude::*;
use crate::chars::{str_to_chars, chars_to_string, copy_range, str_views, lemma_str_views_push};
use crate::batch::grid_views;
use crate::SqlGenError;

verus! {

/// Whether a character counts as whitespace for trimming.
pub uninterp spec fn is_space(c: char) -> bool;

/// Relies on char::is_whitespace: whether the character has the Unicode
/// White_Space property, a function of the character alone.
#[verifier::external_body]
fn exec_is_space(c: char) -> (r: bool)
    ensures
        r == is_space(c),
{
    c.is_whitespace()
}

/// The value without its leading whitespace.
pub open spec fn trim_start_spec(s: Seq<char>) -> Seq<char>
    decreases s.len(),
{
    if s.len() == 0 {
        s
    } else if is_space(s[0]) {
        trim_start_spec(s.skip(1))
    } else {
        s
    }
}

/// The value without its trailing whitespace.
pub open spec fn trim_end_spec(s: Seq<char>) -> Seq<char>
    decreases s.len(),
{
    if s.len() == 0 {
        s
    } else if is_space(s.last()) {
        trim_end_spec(s.drop_last())
    } else {
        s
    }
}

/// The value without its surrounding whitespace.
pub open spec fn trim_spec(s: Seq<char>) -> Seq<char> {
    trim_end_spec(trim_start_spec(s))
}

/// Strips surrounding whitespace from a value.
fn trim_chars(s: &Vec<char>) -> (r: Vec<char>)
    ensures
        r@ == trim_spec(s@),
{
    let mut a: usize = 0;
    proof {
        assert(s@.skip(0) =~= s@);
    }
    loop
        invariant
            a <= s@.len(),
            trim_start_spec(s@) == trim_start_spec(s@.skip(a as int)),
        ensures
            a <= s@.len(),
            trim_start_spec(s@) == trim_start_spec(s@.skip(a as int)),
            a == s@.len() || !is_space(s@[a as int]),
        decreases s@.len() - a,
    {
        if a >= s.len() {
            break ;
        }
        if !exec_is_space(s[a]) {
            break ;
        }
        proof {
            let t = s@.skip(a as int);
            assert(t[0] == s@[a as int]);
            assert(t.skip(1) =~= s@.skip(a + 1));
        }
        a = a + 1;
    }
    let ghost t = s@.skip(a as int);
    proof {
        if a == s@.len() {
            assert(t.len() == 0);
            assert(trim_start_spec(s@) == t);
        } else {
            assert(t[0] == s@[a as int]);
            assert(trim_start_spec(t) == t);
        }
        assert(s@.subrange(a as int, s@.len() as int) =~= t);
    }
    let mut b: usize = s.len();
    loop
        invariant
            a <= b <= s@.len(),
            t == s@.skip(a as int),
            trim_start_spec(s@) == t,
            trim_end_spec(t) == trim_end_spec(s@.subrange(a as int, b as int)),
        ensures
            a <= b <= s@.len(),
            trim_end_spec(t) == trim_end_spec(s@.subrange(a as int, b as int)),
            b == a || !is_space(s@[b - 1]),
        decreases b,
    {
        if b <= a {
            break ;
        }
        if !exec_is_space(s[b - 1]) {
            break ;
        }
        proof {
            let u = s@.subrange(a as int, b as int);
            assert(u.last() == s@[b - 1]);
            assert(u.drop_last() =~= s@.subrange(a as int, b - 1));
        }
        b = b - 1;
    }
    proof {
        let u = s@.subrange(a as int, b as int);
        if b == a {
            assert(u.len() == 0);
            assert(trim_end_spec(u) == u);
            assert(u =~= s@.subrange(a as int, b as int));
        } else {
            assert(u.last() == s@[b - 1]);
            assert(trim_end_spec(u) == u);
        }
    }
    copy_range(s, a, b)
}

/// The trimmed cell of a row at a column index: the empty value where the row
/// is too short.
pub open spec fn cell_at(row: Seq<Seq<char>>, j: int) -> Seq<char> {
    if 0 <= j < row.len() {
        trim_spec(row[j])
    } else {
        Seq::<char>::empty()
    }
}

/// The tuple a row yields: the trimmed cell of each requested column, in the
/// requested order.
pub open spec fn tuple_of(row: Seq<Seq<char>>, cols: Seq<usize>) -> Seq<Seq<char>> {
    cols.map_values(|c: usize| cell_at(row, c as int))
}

/// Whether any value of the tuple is non-empty.
pub open spec fn tuple_has_value(tp: Seq<Seq<char>>) -> bool {
    exists|k: int| 0 <= k < tp.len() && tp[k].len() > 0
}

/// The tuples of the rows from row `i` on: a tuple is kept if any of its
/// values is non-empty, or always when `skip_empty` is off.
pub open spec fn extract_from(
    grid: Seq<Seq<Seq<char>>>,
    i: int,
    cols: Seq<usize>,
    skip_empty: bool,
) -> Seq<Seq<Seq<char>>>
    decreases grid.len() - i,
{
    if i < 0 || i >= grid.len() {
        Seq::<Seq<Seq<char>>>::empty()
    } else {
        let tp = tuple_of(grid[i], cols);
        (if !skip_empty || tuple_has_value(tp) {
            seq![tp]
        } else {
            Seq::<Seq<Seq<char>>>::empty()
        }) + extract_from(grid, i + 1, cols, skip_empty)
    }
}

/// The zero-based index of a 1-based start row, held at zero.
pub open spec fn start_index(start_row: int) -> int {
    if start_row >= 1 {
        start_row - 1
    } else {
        0
    }
}

/// The tuple of one row: each requested column's cell, trimmed; a column
/// beyond the row's length yields the empty string.
fn tuple_of_row(row: &Vec<String>, col_indices: &Vec<usize>) -> (r: (Vec<String>, bool))
    ensures
        str_views(r.0@) == tuple_of(str_views(row@), col_indices@),
        r.1 == tuple_has_value(tuple_of(str_views(row@), col_indices@)),
{
    let ghost rv = str_views(row@);
    let ghost tp = tuple_of(rv, col_indices@);
    let mut vals: Vec<String> = Vec::new();
    let mut has: bool = false;
    let mut j: usize = 0;
    proof {
        assert(str_views(vals@) =~= tp.take(0));
    }
    while j < col_indices.len()
        invariant
            j <= col_indices@.len(),
            rv == str_views(row@),
            rv.len() == row@.len(),
            tp == tuple_of(rv, col_indices@),
            tp.len() == col_indices@.len(),
            str_views(vals@) == tp.take(j as int),
            vals@.len() == j,
            has == tuple_has_value(tp.take(j as int)),
        decreases col_indices@.len() - j,
    {
        let c: usize = col_indices[j];
        let ghost v0 = vals@;
        let ghost has0 = has;
        let trimmed: String;
        if c < row.len() {
            let cell = str_to_chars(row[c].as_str());
            let tc = trim_chars(&cell);
            trimmed = chars_to_string(&tc);
            proof {
                assert(rv[c as int] == row@[c as int]@);
                assert(trimmed@ == cell_at(rv, c as int));
            }
        } else {
            trimmed = String::new();
            proof {
                assert(trimmed@ == cell_at(rv, c as int));
            }
        }
        let nonempty: bool = trimmed.as_str().unicode_len() > 0;
        if nonempty {
            has = true;
        }
        vals.push(trimmed);
        proof {
            lemma_str_views_push(v0, trimmed);
            assert(tp[j as int] == cell_at(rv, col_indices@[j as int] as int));
            assert(str_views(vals@) =~= tp.take(j + 1));
            if has {
                if has0 {
                    let w = choose|k: int| 0 <= k < j && tp.take(j as int)[k].len() > 0;
                    assert(tp.take(j + 1)[w].len() > 0);
                } else {
                    assert(tp.take(j + 1)[j as int].len() > 0);
                }
                assert(tuple_has_value(tp.take(j + 1)));
            } else {
                if tuple_has_value(tp.take(j + 1)) {
                    let w = choose|k: int| 0 <= k < j + 1 && #[trigger] tp.take(j + 1)[k].len()
                        > 0;
                    if w < j {
                        assert(tp.take(j as int)[w].len() > 0);
                        assert(tuple_has_value(tp.take(j as int)));
                    } else {
                        assert(tp[j as int].len() > 0);
                    }
                    assert(false);
                }
            }
        }
        j = j + 1;
    }
    proof {
        assert(tp.take(tp.len() as int) =~= tp);
    }
    (vals, has)
}

/// Extracts the row tuples: rows before the 1-based start row are skipped;
/// each remaining row yields the trimmed values of the requested columns, a
/// column beyond the row's length yielding the empty string; a row whose
/// values are all empty is dropped unless `skip_empty` is off. Errs exactly
/// when no row remains.
pub fn extract_rows(
    grid: &Vec<Vec<String>>,
    start_row: usize,
    col_indices: &Vec<usize>,
    skip_empty: bool,
) -> (r: Result<Vec<Vec<String>>, SqlGenError>)
    ensures
        ({
            let rows = extract_from(
                grid_views(grid@),
                start_index(start_row as int),
                col_indices@,
                skip_empty,
            );
            &&& (r is Ok <==> rows.len() > 0)
            &&& (r matches Ok(v) ==> grid_views(v@) == rows)
            &&& (r matches Err(e) ==> e == SqlGenError::NoDataFound)
        }),
{
    let ghost g = grid_views(grid@);
    let ghost start = start_index(start_row as int);
    let start_at: usize = if start_row >= 1 {
        start_row - 1
    } else {
        0
    };
    let mut out: Vec<Vec<String>> = Vec::new();
    let mut i: usize = start_at;
    proof {
        if start >= g.len() {
            assert(extract_from(g, start, col_indices@, skip_empty) =~= Seq::<
                Seq<Seq<char>>,
            >::empty());
        }
        assert(grid_views(out@) =~= Seq::<Seq<Seq<char>>>::empty());
        assert(grid_views(out@) + extract_from(g, start, col_indices@, skip_empty)
            =~= extract_from(g, start, col_indices@, skip_empty));
    }
    while i < grid.len()
        invariant
            start_at <= i,
            start == start_at as int,
            g == grid_views(grid@),
            g.len() == grid@.len(),
            i <= g.len() || i == start_at,
            extract_from(g, start, col_indices@, skip_empty) == grid_views(out@) + extract_from(
                g,
                i as int,
                col_indices@,
                skip_empty,
            ),
        decreases grid@.len() - i,
    {
        let row: &Vec<String> = &grid[i];
        let (vals, has) = tuple_of_row(row, col_indices);
        proof {
            assert(g[i as int] == str_views(grid@[i as int]@));
        }
        let ghost out0 = out@;
        if has || !skip_empty {
            out.push(vals);
        }
        proof {
            let tp = tuple_of(g[i as int], col_indices@);
            assert(str_views(vals@) == tp);
            if has || !skip_empty {
                assert forall|k: int| 0 <= k < out@.len() implies grid_views(out@)[k] == grid_views(
                    out0,
                ).push(tp)[k] by {
                    assert(grid_views(out@)[k] == str_views(out@[k]@));
                }
                assert(grid_views(out@) =~= grid_views(out0).push(tp));
                assert(grid_views(out0).push(tp) =~= grid_views(out0) + seq![tp]);
            }
            let head: Seq<Seq<Seq<char>>> = if !skip_empty || tuple_has_value(tp) {
                seq![tp]
            } else {
                Seq::<Seq<Seq<char>>>::empty()
            };
            assert(extract_from(g, i as int, col_indices@, skip_empty) == head + extract_from(
                g,
                i + 1,
                col_indices@,
                skip_empty,
            ));
            if !(has || !skip_empty) {
                assert(grid_views(out@) + head =~= grid_views(out@));
            }
            assert(grid_views(out0) + (head + extract_from(g, i + 1, col_indices@, skip_empty))
                =~= (grid_views(out0) + head) + extract_from(g, i + 1, col_indices@, skip_empty));
        }
        i = i + 1;
    }
    proof {
        assert(extract_from(g, i as int, col_indices@, skip_empty) =~= Seq::<
            Seq<Seq<char>>,
        >::empty());
        assert(grid_views(out@) + Seq::<Seq<Seq<char>>>::empty() =~= grid_views(out@));
        assert(grid_views(out@).len() == out@.len());
    }
    if out.len() == 0 {
        Err(SqlGenError::NoDataFound)
    } else {
        Ok(out)
    }
}

} // verus!
