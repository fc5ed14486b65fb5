//! The generation pipeline: one statement per row in single-row mode, or
//! batch mode when a rows-per-statement size is requested; and the pure parts
//! of sharded output, the shard file names and the shard count.

use vstd::prelude::*;
use vstd::arithmetic::div_mod::{lemma_fundamental_div_mod, lemma_fundamental_div_mod_converse};
use crate::chars::{
    str_to_chars, chars_to_string, str_views, dec_spec, dec_chars, append_chars, copy_range,
    lemma_str_views_push,
};
use crate::batch::{generate_batch_sql, generate_batch_sql_spec, grid_views, ceil_div};
use crate::subst::{generate_sql_multi, substitute_spec};
use crate::SqlGenError;

verus! {

/// The statements of single-row mode: one per row, in row order.
pub open spec fn per_row_stmts(
    t: Seq<char>,
    rows: Seq<Seq<Seq<char>>>,
    labels: Seq<Seq<char>>,
) -> Seq<Seq<char>> {
    rows.map_values(|row: Seq<Seq<char>>| substitute_spec(t, row, labels, false))
}

/// Generates the statements for the extracted rows: one per row when no
/// rows-per-statement size is requested, else one per chunk of that size.
/// Errs exactly when the requested size is zero.
pub fn generate_statements(
    template: &str,
    rows_data: &[Vec<String>],
    column_names: &[String],
    rows_per_sql: Option<usize>,
) -> (r: Result<Vec<String>, SqlGenError>)
    ensures
        r is Err <==> rows_per_sql == Some(0usize),
        r matches Err(e) ==> e == SqlGenError::InvalidBatchSize,
        rows_per_sql is None ==> (r matches Ok(v) && str_views(v@) == per_row_stmts(
            template@,
            grid_views(rows_data@),
            str_views(column_names@),
        ) && v@.len() == rows_data@.len()),
        rows_per_sql is Some && rows_per_sql->0 >= 1 ==> (r matches Ok(v) && str_views(v@)
            == generate_batch_sql_spec(
            template@,
            grid_views(rows_data@),
            str_views(column_names@),
            rows_per_sql->0 as int,
        )),
{
    match rows_per_sql {
        Some(n) => {
            if n == 0 {
                Err(SqlGenError::InvalidBatchSize)
            } else {
                Ok(generate_batch_sql(template, rows_data, column_names, n))
            }
        },
        None => {
            let ghost g = grid_views(rows_data@);
            let ghost lv = str_views(column_names@);
            let ghost stmts = per_row_stmts(template@, g, lv);
            let mut out: Vec<String> = Vec::new();
            let mut i: usize = 0;
            proof {
                assert(str_views(out@) =~= stmts.take(0));
            }
            while i < rows_data.len()
                invariant
                    i <= rows_data@.len(),
                    g == grid_views(rows_data@),
                    g.len() == rows_data@.len(),
                    lv == str_views(column_names@),
                    stmts == per_row_stmts(template@, g, lv),
                    stmts.len() == g.len(),
                    out@.len() == i,
                    str_views(out@) == stmts.take(i as int),
                decreases rows_data@.len() - i,
            {
                let ghost out0 = out@;
                let s = generate_sql_multi(template, rows_data[i].as_slice(), column_names);
                out.push(s);
                proof {
                    lemma_str_views_push(out0, s);
                    assert(g[i as int] == str_views(rows_data@[i as int]@));
                    assert(stmts[i as int] == substitute_spec(template@, g[i as int], lv, false));
                    assert(str_views(out@) =~= stmts.take(i + 1));
                }
                i = i + 1;
            }
            proof {
                assert(stmts.take(stmts.len() as int) =~= stmts);
            }
            Ok(out)
        },
    }
}

/// The position of the rightmost occurrence of `c` in `text`, if any.
pub open spec fn rfind_char(text: Seq<char>, c: char) -> Option<int>
    decreases text.len(),
{
    if text.len() == 0 {
        None
    } else if text.last() == c {
        Some(text.len() - 1)
    } else {
        rfind_char(text.drop_last(), c)
    }
}

/// The position of the rightmost occurrence of `c` in `text`, if any.
fn rfind_exec(text: &Vec<char>, c: char) -> (r: Option<usize>)
    ensures
        match r {
            Some(i) => rfind_char(text@, c) == Some(i as int) && i < text@.len(),
            None => rfind_char(text@, c) is None,
        },
{
    let mut i: usize = text.len();
    proof {
        assert(text@.take(text@.len() as int) =~= text@);
    }
    while i > 0
        invariant
            i <= text@.len(),
            rfind_char(text@, c) == rfind_char(text@.take(i as int), c),
        decreases i,
    {
        proof {
            assert(text@.take(i as int).last() == text@[i - 1]);
            assert(text@.take(i as int).drop_last() =~= text@.take(i - 1));
        }
        if text[i - 1] == c {
            return Some(i - 1);
        }
        i = i - 1;
    }
    None
}

/// An output file name split into base name and extension at the last dot,
/// the dot going with the extension; a name without a dot keeps the default
/// ".sql" extension.
pub open spec fn split_name_ext_spec(f: Seq<char>) -> (Seq<char>, Seq<char>) {
    match rfind_char(f, '.') {
        Some(p) => (f.take(p), f.skip(p)),
        None => (f, seq!['.', 's', 'q', 'l']),
    }
}

/// Splits an output file name into base name and extension.
pub fn split_name_ext(file_name: &str) -> (r: (String, String))
    ensures
        r.0@ == split_name_ext_spec(file_name@).0,
        r.1@ == split_name_ext_spec(file_name@).1,
{
    let cs = str_to_chars(file_name);
    match rfind_exec(&cs, '.') {
        Some(p) => {
            let name = copy_range(&cs, 0, p);
            let ext = copy_range(&cs, p, cs.len());
            proof {
                assert(cs@.subrange(0, p as int) =~= cs@.take(p as int));
                assert(cs@.subrange(p as int, cs@.len() as int) =~= cs@.skip(p as int));
            }
            (chars_to_string(&name), chars_to_string(&ext))
        },
        None => {
            let mut ext: Vec<char> = Vec::new();
            ext.push('.');
            ext.push('s');
            ext.push('q');
            ext.push('l');
            proof {
                assert(ext@ =~= seq!['.', 's', 'q', 'l']);
            }
            (chars_to_string(&cs), chars_to_string(&ext))
        },
    }
}

/// The file name of the 1-based shard `idx`: the base name, an underscore,
/// the index, and the extension.
pub open spec fn shard_name_spec(name: Seq<char>, ext: Seq<char>, idx: int) -> Seq<char> {
    name + seq!['_'] + dec_spec(idx) + ext
}

/// Builds the file name of the 1-based shard `idx`.
pub fn shard_file_name(name: &str, ext: &str, idx: usize) -> (r: String)
    ensures
        r@ == shard_name_spec(name@, ext@, idx as int),
{
    let n = str_to_chars(name);
    let e = str_to_chars(ext);
    let d = dec_chars(idx);
    let mut out: Vec<char> = Vec::new();
    append_chars(&mut out, &n);
    out.push('_');
    append_chars(&mut out, &d);
    append_chars(&mut out, &e);
    proof {
        assert(out@ =~= shard_name_spec(name@, ext@, idx as int));
    }
    chars_to_string(&out)
}

/// How many shard files a statement count fills, at `batch_size` statements
/// per file: the count divided by the size, rounded up.
pub fn shard_count(total: usize, batch_size: usize) -> (r: usize)
    requires
        batch_size >= 1,
    ensures
        r == ceil_div(total as int, batch_size as int),
{
    let q = total / batch_size;
    let rem = total % batch_size;
    proof {
        let t = total as int;
        let b = batch_size as int;
        lemma_fundamental_div_mod(t, b);
        vstd::arithmetic::div_mod::lemma_mod_pos_bound(t, b);
        assert(b * (t / b) == (t / b) * b) by (nonlinear_arith);
        if rem == 0 {
            assert((t / b) * b + (b - 1) == t + b - 1);
            lemma_fundamental_div_mod_converse(t + b - 1, b, t / b, b - 1);
        } else {
            assert((t / b + 1) * b == (t / b) * b + b) by (nonlinear_arith);
            lemma_fundamental_div_mod_converse(t + b - 1, b, t / b + 1, t % b - 1);
            assert(q as int == t / b);
            assert(t / b >= 0);
            assert(t / b * b >= t / b) by (nonlinear_arith)
                requires
                    t / b >= 0,
                    b >= 1,
            ;
            assert(t / b + 1 <= t);
        }
    }
    if rem == 0 {
        q
    } else {
        q + 1
    }
}

} // verus!
