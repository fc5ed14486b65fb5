//! Multi-row batch generation. Rows are cut into consecutive chunks of a
//! requested size and each chunk becomes one statement, under one of three
//! modes picked from the template text: IN-clause aggregation (`{values}`),
//! VALUES-list repetition (`{@row}`), or simple per-column aggregation
//! (`{#1}`, `{#A}`, ...).

use vstd::prelude::*;
use vstd::arithmetic::div_mod::{lemma_fundamental_div_mod, lemma_fundamental_div_mod_converse};
use crate::chars::{
    str_to_chars, chars_to_string, replace_all, replace_all_spec, find_sub, find_first, find_char,
    find_char_first, contains_sub, has_sub, join_spec, join_chars, views_of, str_views,
    strs_to_char_vecs, append_chars, copy_range, dec_spec, dec_chars, lemma_views_push,
    lemma_str_views_push,
};
use crate::subst::{
    substitute_spec, substitute_chars, rendered, render_value, upper_seq, upper_chars,
};

verus! {

/// The IN-clause marker `{values}`.
pub open spec fn values_marker() -> Seq<char> {
    seq!['{', 'v', 'a', 'l', 'u', 'e', 's', '}']
}

/// The VALUES-list marker `{@row}`.
pub open spec fn row_marker() -> Seq<char> {
    seq!['{', '@', 'r', 'o', 'w', '}']
}

/// The separator written between aggregated values and row renderings.
pub open spec fn list_sep() -> Seq<char> {
    seq![',', ' ']
}

/// The views of a row grid.
pub open spec fn grid_views(g: Seq<Vec<String>>) -> Seq<Seq<Seq<char>>> {
    g.map_values(|r: Vec<String>| str_views(r@))
}

/// How many rows the next chunk takes: the requested size, or what is left.
pub open spec fn chunk_len(remaining: int, size: int) -> int {
    if remaining <= size {
        remaining
    } else {
        size
    }
}

/// The characters of the `{values}` marker.
pub fn values_marker_chars() -> (r: Vec<char>)
    ensures
        r@ == values_marker(),
        r@.len() == 8,
{
    let mut r: Vec<char> = Vec::new();
    r.push('{');
    r.push('v');
    r.push('a');
    r.push('l');
    r.push('u');
    r.push('e');
    r.push('s');
    r.push('}');
    proof {
        assert(r@ =~= values_marker());
    }
    r
}

/// The characters of the `{@row}` marker.
pub fn row_marker_chars() -> (r: Vec<char>)
    ensures
        r@ == row_marker(),
        r@.len() == 6,
{
    let mut r: Vec<char> = Vec::new();
    r.push('{');
    r.push('@');
    r.push('r');
    r.push('o');
    r.push('w');
    r.push('}');
    proof {
        assert(r@ =~= row_marker());
    }
    r
}

/// The characters of the list separator.
pub fn sep_chars() -> (r: Vec<char>)
    ensures
        r@ == list_sep(),
{
    let mut r: Vec<char> = Vec::new();
    r.push(',');
    r.push(' ');
    proof {
        assert(r@ =~= list_sep());
    }
    r
}

/// The escaped, quoted values found in column `idx` of the rows, in row
/// order. A row too short to have that column contributes nothing.
pub open spec fn col_vals(rows: Seq<Seq<Seq<char>>>, idx: int) -> Seq<Seq<char>>
    decreases rows.len(),
{
    if rows.len() == 0 {
        Seq::<Seq<char>>::empty()
    } else {
        col_vals(rows.drop_last(), idx) + (if 0 <= idx < rows.last().len() {
            seq![rendered(rows.last()[idx], true)]
        } else {
            Seq::<Seq<char>>::empty()
        })
    }
}

/// Collects column `idx` of the rows `pos..end`, escaped and quoted.
fn collect_col_vals(rows_data: &[Vec<String>], pos: usize, end: usize, idx: usize) -> (r: Vec<
    Vec<char>,
>)
    requires
        pos <= end <= rows_data@.len(),
    ensures
        views_of(r@) == col_vals(
            grid_views(rows_data@).subrange(pos as int, end as int),
            idx as int,
        ),
{
    let ghost g = grid_views(rows_data@);
    let mut r: Vec<Vec<char>> = Vec::new();
    let mut i: usize = pos;
    proof {
        assert(g.subrange(pos as int, pos as int) =~= Seq::<Seq<Seq<char>>>::empty());
        assert(views_of(r@) =~= col_vals(g.subrange(pos as int, pos as int), idx as int));
    }
    while i < end
        invariant
            pos <= i <= end <= rows_data@.len(),
            g == grid_views(rows_data@),
            g.len() == rows_data@.len(),
            views_of(r@) == col_vals(g.subrange(pos as int, i as int), idx as int),
        decreases end - i,
    {
        let ghost r0 = r@;
        let row: &Vec<String> = &rows_data[i];
        proof {
            assert(g[i as int] == str_views(rows_data@[i as int]@));
            assert(g[i as int].len() == rows_data@[i as int]@.len());
        }
        if idx < row.len() {
            let cell = str_to_chars(row[idx].as_str());
            let q = render_value(&cell, true);
            proof {
                assert(g[i as int][idx as int] == rows_data@[i as int]@[idx as int]@);
            }
            r.push(q);
            proof {
                lemma_views_push(r0, q);
            }
        }
        proof {
            assert(g.subrange(pos as int, i + 1).drop_last() =~= g.subrange(pos as int, i as int));
            assert(g.subrange(pos as int, i + 1).last() == g[i as int]);
            if idx < rows_data@[i as int]@.len() {
                assert(views_of(r@) =~= col_vals(g.subrange(pos as int, i + 1), idx as int));
            } else {
                assert(views_of(r@) =~= col_vals(g.subrange(pos as int, i + 1), idx as int));
            }
        }
        i = i + 1;
    }
    r
}

/// The statements of IN-clause mode: for each chunk, the first column's
/// escaped and quoted values joined with ", " stand in for every `{values}`
/// marker; a chunk without any first-column value yields no statement.
pub open spec fn in_clause_stmts(t: Seq<char>, rows: Seq<Seq<Seq<char>>>, size: int) -> Seq<
    Seq<char>,
>
    decreases rows.len(),
{
    if size <= 0 || rows.len() == 0 {
        Seq::<Seq<char>>::empty()
    } else {
        let c = chunk_len(rows.len() as int, size);
        let vs = col_vals(rows.take(c), 0);
        (if vs.len() > 0 {
            seq![replace_all_spec(t, values_marker(), join_spec(vs, list_sep()))]
        } else {
            Seq::<Seq<char>>::empty()
        }) + in_clause_stmts(t, rows.skip(c), size)
    }
}

/// Generates IN-clause statements: one per chunk of `rows_per_sql` rows, the
/// chunk's first-column values escaped, quoted and joined in place of every
/// `{values}` marker.
pub fn generate_in_clause_sql(
    template: &str,
    rows_data: &[Vec<String>],
    rows_per_sql: usize,
    column_names: &[String],
) -> (r: Vec<String>)
    requires
        rows_per_sql >= 1,
    ensures
        str_views(r@) == in_clause_stmts(template@, grid_views(rows_data@), rows_per_sql as int),
{
    // IN-clause mode always aggregates the first column; the labels take no part.
    let _ = column_names;
    let t = str_to_chars(template);
    let vm = values_marker_chars();
    let sep = sep_chars();
    let ghost g = grid_views(rows_data@);
    let ghost size = rows_per_sql as int;
    let mut out: Vec<String> = Vec::new();
    let mut pos: usize = 0;
    proof {
        assert(g.skip(0) =~= g);
        assert(str_views(out@) + in_clause_stmts(t@, g, size) =~= in_clause_stmts(t@, g, size));
    }
    while pos < rows_data.len()
        invariant
            rows_per_sql >= 1,
            size == rows_per_sql as int,
            pos <= rows_data@.len(),
            g == grid_views(rows_data@),
            g.len() == rows_data@.len(),
            t@ == template@,
            vm@ == values_marker(),
            sep@ == list_sep(),
            in_clause_stmts(t@, g, size) == str_views(out@) + in_clause_stmts(
                t@,
                g.skip(pos as int),
                size,
            ),
        decreases rows_data@.len() - pos,
    {
        let end: usize = if rows_data.len() - pos <= rows_per_sql {
            rows_data.len()
        } else {
            pos + rows_per_sql
        };
        let vals = collect_col_vals(rows_data, pos, end, 0);
        let ghost rem = g.skip(pos as int);
        let ghost c = chunk_len(rem.len() as int, size);
        proof {
            assert(c == end - pos);
            assert(rem.take(c) =~= g.subrange(pos as int, end as int));
            assert(rem.skip(c) =~= g.skip(end as int));
        }
        let ghost out0 = out@;
        if vals.len() > 0 {
            let joined = join_chars(&vals, &sep);
            let stmt = replace_all(&t, &vm, &joined);
            let s = chars_to_string(&stmt);
            out.push(s);
            proof {
                lemma_str_views_push(out0, s);
            }
        }
        proof {
            let vs = col_vals(rem.take(c), 0);
            let head: Seq<Seq<char>> = if vs.len() > 0 {
                seq![replace_all_spec(t@, values_marker(), join_spec(vs, list_sep()))]
            } else {
                Seq::<Seq<char>>::empty()
            };
            assert(in_clause_stmts(t@, rem, size) == head + in_clause_stmts(
                t@,
                g.skip(end as int),
                size,
            ));
            assert(str_views(out@) =~= str_views(out0) + head);
            assert(str_views(out0) + (head + in_clause_stmts(t@, g.skip(end as int), size))
                =~= (str_views(out0) + head) + in_clause_stmts(t@, g.skip(end as int), size));
        }
        pos = end;
    }
    proof {
        assert(in_clause_stmts(t@, g.skip(g.len() as int), size) =~= Seq::<Seq<char>>::empty());
        assert(str_views(out@) + Seq::<Seq<char>>::empty() =~= str_views(out@));
    }
    out
}

/// The row-template span: from the start of the `{@row}` marker up to and
/// including the next `}` at or after that start; the marker itself where the
/// template gives no such span.
pub open spec fn row_tpl_span(t: Seq<char>) -> Seq<char> {
    match find_first(t, row_marker()) {
        Some(s) => match find_char_first(t, '}', s) {
            Some(e) => t.subrange(s, e + 1),
            None => row_marker(),
        },
        None => row_marker(),
    }
}

/// All of a row's values, escaped and quoted.
pub open spec fn rendered_all(row: Seq<Seq<char>>) -> Seq<Seq<char>> {
    row.map_values(|v: Seq<char>| rendered(v, true))
}

/// The fallback rendering of a row: its values escaped, quoted, joined with
/// ", " and parenthesized.
pub open spec fn paren_render(row: Seq<Seq<char>>) -> Seq<char> {
    seq!['('] + join_spec(rendered_all(row), list_sep()) + seq![')']
}

/// One row rendered against the row-template base: the three substitution
/// passes with quoting; where they leave the base unchanged, the fallback
/// parenthesized rendering.
pub open spec fn row_render(base: Seq<char>, row: Seq<Seq<char>>, labels: Seq<Seq<char>>) -> Seq<
    char,
> {
    let c = substitute_spec(base, row, labels, true);
    if c == base {
        paren_render(row)
    } else {
        c
    }
}

/// The renderings of every row of a chunk, in row order.
pub open spec fn chunk_renders(
    chunk: Seq<Seq<Seq<char>>>,
    base: Seq<char>,
    labels: Seq<Seq<char>>,
) -> Seq<Seq<char>> {
    chunk.map_values(|row: Seq<Seq<char>>| row_render(base, row, labels))
}

/// The statements of VALUES-list mode: for each chunk, the per-row renderings
/// joined with ", " stand in for the row-template span.
pub open spec fn values_stmts(
    t: Seq<char>,
    rows: Seq<Seq<Seq<char>>>,
    labels: Seq<Seq<char>>,
    size: int,
) -> Seq<Seq<char>>
    decreases rows.len(),
{
    if size <= 0 || rows.len() == 0 {
        Seq::<Seq<char>>::empty()
    } else {
        let span = row_tpl_span(t);
        let base = replace_all_spec(span, row_marker(), Seq::<char>::empty());
        let c = chunk_len(rows.len() as int, size);
        let renders = chunk_renders(rows.take(c), base, labels);
        seq![replace_all_spec(t, span, join_spec(renders, list_sep()))] + values_stmts(
            t,
            rows.skip(c),
            labels,
            size,
        )
    }
}

/// The row-template span of a template, as characters.
fn row_span_chars(t: &Vec<char>) -> (r: Vec<char>)
    ensures
        r@ == row_tpl_span(t@),
        r@.len() > 0,
{
    let rm = row_marker_chars();
    let n: usize = t.len();
    proof {
        assert(t@.len() == n);
    }
    match find_sub(t, &rm) {
        Some(s) => match find_char(t, '}', s) {
            Some(e) => copy_range(t, s, e + 1),
            None => rm,
        },
        None => rm,
    }
}

/// The fallback rendering of a row.
fn paren_exec(row: &Vec<Vec<char>>) -> (r: Vec<char>)
    ensures
        r@ == paren_render(views_of(row@)),
{
    let mut parts: Vec<Vec<char>> = Vec::new();
    let mut k: usize = 0;
    proof {
        assert(views_of(parts@) =~= rendered_all(views_of(row@).take(0)));
    }
    while k < row.len()
        invariant
            k <= row@.len(),
            views_of(parts@) == rendered_all(views_of(row@).take(k as int)),
        decreases row@.len() - k,
    {
        let ghost p0 = parts@;
        let q = render_value(&row[k], true);
        parts.push(q);
        proof {
            lemma_views_push(p0, q);
            assert(views_of(row@)[k as int] == row@[k as int]@);
            assert(views_of(parts@) =~= rendered_all(views_of(row@).take(k + 1)));
        }
        k = k + 1;
    }
    proof {
        assert(views_of(row@).take(row@.len() as int) =~= views_of(row@));
    }
    let sep = sep_chars();
    let joined = join_chars(&parts, &sep);
    let mut r: Vec<char> = Vec::new();
    r.push('(');
    append_chars(&mut r, &joined);
    r.push(')');
    proof {
        assert(r@ =~= paren_render(views_of(row@)));
    }
    r
}

/// Generates VALUES-list statements: one per chunk of `rows_per_sql` rows,
/// each row rendered from the row-template span and the renderings joined
/// with ", " in place of that span.
pub fn generate_values_batch_sql(
    template: &str,
    rows_data: &[Vec<String>],
    rows_per_sql: usize,
    column_names: &[String],
) -> (r: Vec<String>)
    requires
        rows_per_sql >= 1,
    ensures
        str_views(r@) == values_stmts(
            template@,
            grid_views(rows_data@),
            str_views(column_names@),
            rows_per_sql as int,
        ),
{
    let t = str_to_chars(template);
    let rm = row_marker_chars();
    let span = row_span_chars(&t);
    let empty: Vec<char> = Vec::new();
    let base = replace_all(&span, &rm, &empty);
    let labels_cv = strs_to_char_vecs(column_names);
    let sep = sep_chars();
    let ghost g = grid_views(rows_data@);
    let ghost lv = str_views(column_names@);
    let ghost size = rows_per_sql as int;
    let mut out: Vec<String> = Vec::new();
    let mut pos: usize = 0;
    proof {
        assert(g.skip(0) =~= g);
        assert(str_views(out@) + values_stmts(t@, g, lv, size) =~= values_stmts(t@, g, lv, size));
    }
    while pos < rows_data.len()
        invariant
            rows_per_sql >= 1,
            size == rows_per_sql as int,
            pos <= rows_data@.len(),
            g == grid_views(rows_data@),
            g.len() == rows_data@.len(),
            t@ == template@,
            span@ == row_tpl_span(t@),
            span@.len() > 0,
            base@ == replace_all_spec(row_tpl_span(t@), row_marker(), Seq::<char>::empty()),
            views_of(labels_cv@) == lv,
            lv == str_views(column_names@),
            sep@ == list_sep(),
            values_stmts(t@, g, lv, size) == str_views(out@) + values_stmts(
                t@,
                g.skip(pos as int),
                lv,
                size,
            ),
        decreases rows_data@.len() - pos,
    {
        let end: usize = if rows_data.len() - pos <= rows_per_sql {
            rows_data.len()
        } else {
            pos + rows_per_sql
        };
        let mut renders: Vec<Vec<char>> = Vec::new();
        let mut i: usize = pos;
        proof {
            assert(views_of(renders@) =~= chunk_renders(
                g.subrange(pos as int, pos as int),
                base@,
                lv,
            ));
        }
        while i < end
            invariant
                pos <= i <= end <= rows_data@.len(),
                g == grid_views(rows_data@),
                g.len() == rows_data@.len(),
                views_of(labels_cv@) == lv,
                base@ == replace_all_spec(row_tpl_span(t@), row_marker(), Seq::<char>::empty()),
                views_of(renders@) == chunk_renders(g.subrange(pos as int, i as int), base@, lv),
            decreases end - i,
        {
            let ghost r0 = renders@;
            let row_cv = strs_to_char_vecs(rows_data[i].as_slice());
            let cur = substitute_chars(&base, &row_cv, &labels_cv, true);
            let same = crate::chars::chars_eq(&cur, &base);
            let rendered_row: Vec<char> = if same {
                paren_exec(&row_cv)
            } else {
                cur
            };
            proof {
                assert(g[i as int] == str_views(rows_data@[i as int]@));
                assert(rendered_row@ == row_render(base@, g[i as int], lv));
            }
            renders.push(rendered_row);
            proof {
                lemma_views_push(r0, rendered_row);
                assert(g.subrange(pos as int, i + 1).drop_last() =~= g.subrange(
                    pos as int,
                    i as int,
                ));
                assert(g.subrange(pos as int, i + 1).last() == g[i as int]);
                assert(views_of(renders@) =~= chunk_renders(
                    g.subrange(pos as int, i + 1),
                    base@,
                    lv,
                ));
            }
            i = i + 1;
        }
        let joined = join_chars(&renders, &sep);
        let stmt = replace_all(&t, &span, &joined);
        let s = chars_to_string(&stmt);
        let ghost out0 = out@;
        out.push(s);
        proof {
            lemma_str_views_push(out0, s);
            let rem = g.skip(pos as int);
            let c = chunk_len(rem.len() as int, size);
            assert(c == end - pos);
            assert(rem.take(c) =~= g.subrange(pos as int, end as int));
            assert(rem.skip(c) =~= g.skip(end as int));
            let head = seq![
                replace_all_spec(
                    t@,
                    row_tpl_span(t@),
                    join_spec(
                        chunk_renders(
                            rem.take(c),
                            replace_all_spec(row_tpl_span(t@), row_marker(), Seq::<char>::empty()),
                            lv,
                        ),
                        list_sep(),
                    ),
                ),
            ];
            assert(values_stmts(t@, rem, lv, size) == head + values_stmts(
                t@,
                g.skip(end as int),
                lv,
                size,
            ));
            assert(str_views(out@) =~= str_views(out0) + head);
            assert(str_views(out0) + (head + values_stmts(t@, g.skip(end as int), lv, size)) =~= (
            str_views(out0) + head) + values_stmts(t@, g.skip(end as int), lv, size));
        }
        pos = end;
    }
    proof {
        assert(values_stmts(t@, g.skip(g.len() as int), lv, size) =~= Seq::<Seq<char>>::empty());
        assert(str_views(out@) + Seq::<Seq<char>>::empty() =~= str_views(out@));
    }
    out
}

/// The aggregate marker `{#n}` for the 1-based column position `n`.
pub open spec fn hash_num_marker(n: int) -> Seq<char> {
    seq!['{', '#'] + dec_spec(n) + seq!['}']
}

/// The aggregate marker `{#LABEL}` for a column label, uppercased.
pub open spec fn hash_label_marker(lbl: Seq<char>) -> Seq<char> {
    seq!['{', '#'] + upper_seq(lbl) + seq!['}']
}

/// The template after the numeric aggregate pass for positions 1 to `k`: each
/// `{#n}` marker is replaced by column `n-1` of the chunk, escaped, quoted
/// and joined with ", ". A marker absent from the template changes nothing.
pub open spec fn subst_hash_nums(t: Seq<char>, chunk: Seq<Seq<Seq<char>>>, k: int) -> Seq<char>
    decreases k,
{
    if k <= 0 {
        t
    } else {
        replace_all_spec(
            subst_hash_nums(t, chunk, k - 1),
            hash_num_marker(k),
            join_spec(col_vals(chunk, k - 1), list_sep()),
        )
    }
}

/// The template after the label aggregate pass for the first `k` labels: each
/// `{#LABEL}` marker is replaced by that label's column of the chunk,
/// escaped, quoted and joined with ", ".
pub open spec fn subst_hash_labels(
    t: Seq<char>,
    chunk: Seq<Seq<Seq<char>>>,
    labels: Seq<Seq<char>>,
    k: int,
) -> Seq<char>
    decreases k,
{
    if k <= 0 {
        t
    } else {
        replace_all_spec(
            subst_hash_labels(t, chunk, labels, k - 1),
            hash_label_marker(labels[k - 1]),
            join_spec(col_vals(chunk, k - 1), list_sep()),
        )
    }
}

/// One chunk's statement in simple aggregate mode: the numeric pass over all
/// column positions, then the label pass over all labels.
pub open spec fn simple_stmt(t: Seq<char>, chunk: Seq<Seq<Seq<char>>>, labels: Seq<Seq<char>>) -> Seq<
    char,
> {
    subst_hash_labels(subst_hash_nums(t, chunk, labels.len() as int), chunk, labels, labels.len() as int)
}

/// The statements of simple aggregate mode: one per chunk, in chunk order.
pub open spec fn simple_stmts(
    t: Seq<char>,
    rows: Seq<Seq<Seq<char>>>,
    labels: Seq<Seq<char>>,
    size: int,
) -> Seq<Seq<char>>
    decreases rows.len(),
{
    if size <= 0 || rows.len() == 0 {
        Seq::<Seq<char>>::empty()
    } else {
        let c = chunk_len(rows.len() as int, size);
        seq![simple_stmt(t, rows.take(c), labels)] + simple_stmts(t, rows.skip(c), labels, size)
    }
}

/// The `{#n}` marker for the 1-based position `n`.
fn hash_num_placeholder(n: usize) -> (r: Vec<char>)
    ensures
        r@ == hash_num_marker(n as int),
        r@.len() > 0,
{
    let mut r: Vec<char> = Vec::new();
    r.push('{');
    r.push('#');
    let d = dec_chars(n);
    append_chars(&mut r, &d);
    r.push('}');
    proof {
        assert(r@ =~= hash_num_marker(n as int));
    }
    r
}

/// The `{#LABEL}` marker for a column label.
fn hash_label_placeholder(lbl: &Vec<char>) -> (r: Vec<char>)
    ensures
        r@ == hash_label_marker(lbl@),
        r@.len() > 0,
{
    let mut r: Vec<char> = Vec::new();
    r.push('{');
    r.push('#');
    let u = upper_chars(lbl);
    append_chars(&mut r, &u);
    r.push('}');
    proof {
        assert(r@ =~= hash_label_marker(lbl@));
    }
    r
}

/// Generates simple aggregate statements: one per chunk of `rows_per_sql`
/// rows, each `{#n}` and `{#LABEL}` marker replaced by the matching column of
/// the chunk, escaped, quoted and joined with ", ".
pub fn generate_simple_batch_sql(
    template: &str,
    rows_data: &[Vec<String>],
    rows_per_sql: usize,
    column_names: &[String],
) -> (r: Vec<String>)
    requires
        rows_per_sql >= 1,
    ensures
        str_views(r@) == simple_stmts(
            template@,
            grid_views(rows_data@),
            str_views(column_names@),
            rows_per_sql as int,
        ),
{
    let t = str_to_chars(template);
    let labels_cv = strs_to_char_vecs(column_names);
    let sep = sep_chars();
    let ghost g = grid_views(rows_data@);
    let ghost lv = str_views(column_names@);
    let ghost size = rows_per_sql as int;
    let mut out: Vec<String> = Vec::new();
    let mut pos: usize = 0;
    proof {
        assert(g.skip(0) =~= g);
        assert(str_views(out@) + simple_stmts(t@, g, lv, size) =~= simple_stmts(t@, g, lv, size));
    }
    while pos < rows_data.len()
        invariant
            rows_per_sql >= 1,
            size == rows_per_sql as int,
            pos <= rows_data@.len(),
            g == grid_views(rows_data@),
            g.len() == rows_data@.len(),
            t@ == template@,
            views_of(labels_cv@) == lv,
            lv == str_views(column_names@),
            labels_cv@.len() == column_names@.len(),
            sep@ == list_sep(),
            simple_stmts(t@, g, lv, size) == str_views(out@) + simple_stmts(
                t@,
                g.skip(pos as int),
                lv,
                size,
            ),
        decreases rows_data@.len() - pos,
    {
        let end: usize = if rows_data.len() - pos <= rows_per_sql {
            rows_data.len()
        } else {
            pos + rows_per_sql
        };
        let ghost chunk = g.subrange(pos as int, end as int);
        let mut cur: Vec<char> = Vec::new();
        append_chars(&mut cur, &t);
        proof {
            assert(cur@ =~= t@);
        }
        let mut k: usize = 0;
        while k < column_names.len()
            invariant
                pos <= end <= rows_data@.len(),
                k <= column_names@.len(),
                g == grid_views(rows_data@),
                g.len() == rows_data@.len(),
                chunk == g.subrange(pos as int, end as int),
                t@ == template@,
                sep@ == list_sep(),
                cur@ == subst_hash_nums(t@, chunk, k as int),
            decreases column_names@.len() - k,
        {
            let vals = collect_col_vals(rows_data, pos, end, k);
            let joined = join_chars(&vals, &sep);
            let ph = hash_num_placeholder(k + 1);
            cur = replace_all(&cur, &ph, &joined);
            k = k + 1;
        }
        let mut j: usize = 0;
        let ghost t1 = subst_hash_nums(t@, chunk, column_names@.len() as int);
        while j < column_names.len()
            invariant
                pos <= end <= rows_data@.len(),
                j <= column_names@.len(),
                g == grid_views(rows_data@),
                g.len() == rows_data@.len(),
                chunk == g.subrange(pos as int, end as int),
                views_of(labels_cv@) == lv,
                labels_cv@.len() == column_names@.len(),
                sep@ == list_sep(),
                t1 == subst_hash_nums(t@, chunk, column_names@.len() as int),
                cur@ == subst_hash_labels(t1, chunk, lv, j as int),
            decreases column_names@.len() - j,
        {
            let vals = collect_col_vals(rows_data, pos, end, j);
            let joined = join_chars(&vals, &sep);
            let ph = hash_label_placeholder(&labels_cv[j]);
            cur = replace_all(&cur, &ph, &joined);
            proof {
                assert(views_of(labels_cv@)[j as int] == labels_cv@[j as int]@);
            }
            j = j + 1;
        }
        let s = chars_to_string(&cur);
        let ghost out0 = out@;
        out.push(s);
        proof {
            lemma_str_views_push(out0, s);
            let rem = g.skip(pos as int);
            let c = chunk_len(rem.len() as int, size);
            assert(c == end - pos);
            assert(rem.take(c) =~= chunk);
            assert(rem.skip(c) =~= g.skip(end as int));
            let head = seq![simple_stmt(t@, rem.take(c), lv)];
            assert(lv.len() == column_names@.len());
            assert(simple_stmts(t@, rem, lv, size) == head + simple_stmts(
                t@,
                g.skip(end as int),
                lv,
                size,
            ));
            assert(str_views(out@) =~= str_views(out0) + head);
            assert(str_views(out0) + (head + simple_stmts(t@, g.skip(end as int), lv, size)) =~= (
            str_views(out0) + head) + simple_stmts(t@, g.skip(end as int), lv, size));
        }
        pos = end;
    }
    proof {
        assert(simple_stmts(t@, g.skip(g.len() as int), lv, size) =~= Seq::<Seq<char>>::empty());
        assert(str_views(out@) + Seq::<Seq<char>>::empty() =~= str_views(out@));
    }
    out
}

/// Which statements a template and batch size produce: IN-clause mode when
/// the template holds `{values}`, else VALUES-list mode when it holds
/// `{@row}`, else simple aggregate mode.
pub open spec fn generate_batch_sql_spec(
    t: Seq<char>,
    rows: Seq<Seq<Seq<char>>>,
    labels: Seq<Seq<char>>,
    size: int,
) -> Seq<Seq<char>> {
    if has_sub(t, values_marker()) {
        in_clause_stmts(t, rows, size)
    } else if has_sub(t, row_marker()) {
        values_stmts(t, rows, labels, size)
    } else {
        simple_stmts(t, rows, labels, size)
    }
}

/// Generates batch statements, picking the mode from the template text:
/// `{values}` selects IN-clause mode, else `{@row}` selects VALUES-list mode,
/// else simple aggregate mode.
pub fn generate_batch_sql(
    template: &str,
    rows_data: &[Vec<String>],
    column_names: &[String],
    rows_per_sql: usize,
) -> (r: Vec<String>)
    requires
        rows_per_sql >= 1,
    ensures
        str_views(r@) == generate_batch_sql_spec(
            template@,
            grid_views(rows_data@),
            str_views(column_names@),
            rows_per_sql as int,
        ),
{
    let t = str_to_chars(template);
    let vm = values_marker_chars();
    let rm = row_marker_chars();
    if contains_sub(&t, &vm) {
        generate_in_clause_sql(template, rows_data, rows_per_sql, column_names)
    } else if contains_sub(&t, &rm) {
        generate_values_batch_sql(template, rows_data, rows_per_sql, column_names)
    } else {
        generate_simple_batch_sql(template, rows_data, rows_per_sql, column_names)
    }
}

/// `n` divided by `d`, rounded up.
pub open spec fn ceil_div(n: int, d: int) -> int {
    (n + d - 1) / d
}

/// No rows make no chunks.
pub proof fn lemma_ceil_div_zero(size: int)
    requires
        size >= 1,
    ensures
        ceil_div(0, size) == 0,
{
    lemma_fundamental_div_mod_converse(size - 1, size, 0, size - 1);
}

/// Taking one chunk lowers the rounded-up quotient by exactly one.
proof fn lemma_ceil_div_step(len: int, size: int)
    requires
        size >= 1,
        len >= 1,
    ensures
        ceil_div(len, size) == 1 + ceil_div(len - chunk_len(len, size), size),
{
    if len <= size {
        lemma_fundamental_div_mod_converse(len + size - 1, size, 1, len - 1);
        lemma_ceil_div_zero(size);
    } else {
        lemma_fundamental_div_mod(len - 1, size);
        vstd::arithmetic::div_mod::lemma_mod_pos_bound(len - 1, size);
        let q0 = (len - 1) / size;
        let r0 = (len - 1) % size;
        assert((q0 + 1) * size == q0 * size + size) by (nonlinear_arith);
        assert(q0 * size == size * q0) by (nonlinear_arith);
        lemma_fundamental_div_mod_converse(len + size - 1, size, q0 + 1, r0);
    }
}

/// Every row long enough to hold column `idx` contributes one value.
proof fn lemma_col_vals_full(rows: Seq<Seq<Seq<char>>>, idx: int)
    requires
        idx >= 0,
        forall|i: int| 0 <= i < rows.len() ==> idx < rows[i].len(),
    ensures
        col_vals(rows, idx).len() == rows.len(),
    decreases rows.len(),
{
    if rows.len() > 0 {
        assert(forall|i: int|
            0 <= i < rows.drop_last().len() ==> idx < #[trigger] rows.drop_last()[i].len());
        lemma_col_vals_full(rows.drop_last(), idx);
    }
}

/// In IN-clause mode, when no row is empty, every chunk yields one statement.
proof fn lemma_in_clause_count(t: Seq<char>, rows: Seq<Seq<Seq<char>>>, size: int)
    requires
        size >= 1,
        forall|i: int| 0 <= i < rows.len() ==> #[trigger] rows[i].len() > 0,
    ensures
        in_clause_stmts(t, rows, size).len() == ceil_div(rows.len() as int, size),
    decreases rows.len(),
{
    if rows.len() == 0 {
        lemma_ceil_div_zero(size);
    } else {
        let c = chunk_len(rows.len() as int, size);
        let chunk = rows.take(c);
        assert forall|i: int| 0 <= i < chunk.len() implies 0 < #[trigger] chunk[i].len() by {
            assert(chunk[i] == rows[i]);
        }
        lemma_col_vals_full(chunk, 0);
        let rest = rows.skip(c);
        assert forall|i: int| 0 <= i < rest.len() implies #[trigger] rest[i].len() > 0 by {
            assert(rest[i] == rows[i + c]);
        }
        lemma_in_clause_count(t, rest, size);
        lemma_ceil_div_step(rows.len() as int, size);
    }
}

/// In VALUES-list mode, every chunk yields one statement.
proof fn lemma_values_count(t: Seq<char>, rows: Seq<Seq<Seq<char>>>, labels: Seq<Seq<char>>, size: int)
    requires
        size >= 1,
    ensures
        values_stmts(t, rows, labels, size).len() == ceil_div(rows.len() as int, size),
    decreases rows.len(),
{
    if rows.len() == 0 {
        lemma_ceil_div_zero(size);
    } else {
        let c = chunk_len(rows.len() as int, size);
        lemma_values_count(t, rows.skip(c), labels, size);
        lemma_ceil_div_step(rows.len() as int, size);
    }
}

/// In simple aggregate mode, every chunk yields one statement.
proof fn lemma_simple_count(t: Seq<char>, rows: Seq<Seq<Seq<char>>>, labels: Seq<Seq<char>>, size: int)
    requires
        size >= 1,
    ensures
        simple_stmts(t, rows, labels, size).len() == ceil_div(rows.len() as int, size),
    decreases rows.len(),
{
    if rows.len() == 0 {
        lemma_ceil_div_zero(size);
    } else {
        let c = chunk_len(rows.len() as int, size);
        lemma_simple_count(t, rows.skip(c), labels, size);
        lemma_ceil_div_step(rows.len() as int, size);
    }
}

/// In every batch mode, when no row is empty, the statement count is the row
/// count divided by the rows-per-statement size, rounded up.
pub proof fn lemma_batch_statement_count(
    t: Seq<char>,
    rows: Seq<Seq<Seq<char>>>,
    labels: Seq<Seq<char>>,
    size: int,
)
    requires
        size >= 1,
        forall|i: int| 0 <= i < rows.len() ==> #[trigger] rows[i].len() > 0,
    ensures
        generate_batch_sql_spec(t, rows, labels, size).len() == ceil_div(rows.len() as int, size),
{
    if has_sub(t, values_marker()) {
        lemma_in_clause_count(t, rows, size);
    } else if has_sub(t, row_marker()) {
        lemma_values_count(t, rows, labels, size);
    } else {
        lemma_simple_count(t, rows, labels, size);
    }
}

} // verus!
