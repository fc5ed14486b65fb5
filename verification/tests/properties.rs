use excel2sql::column::column_letter_to_index;
use excel2sql::escape::escape_sql_string;
use excel2sql::SqlGenError;
use excel2sql::batch::generate_batch_sql;
use excel2sql::extract::extract_rows;
use excel2sql::pipeline::{generate_statements, split_name_ext, shard_file_name, shard_count};
use excel2sql::subst::generate_sql_multi;

#[test]
fn escape_is_identity_without_specials() {
    assert_eq!(escape_sql_string("plain value 42"), "plain value 42");
    assert_eq!(escape_sql_string(""), "");
}

#[test]
fn escape_is_not_idempotent() {
    let once = escape_sql_string("O'Reilly");
    let twice = escape_sql_string(&once);
    assert_ne!(twice, once);
    assert_eq!(twice, "O''''Reilly");
    let once_bs = escape_sql_string("a\\b");
    let twice_bs = escape_sql_string(&once_bs);
    assert_ne!(twice_bs, once_bs);
    assert_eq!(once_bs, "a\\\\b");
    assert_eq!(twice_bs, "a\\\\\\\\b");
}

#[test]
fn column_label_rejects_non_letters() {
    assert_eq!(
        column_letter_to_index("A1"),
        Err(SqlGenError::InvalidColumnLabel)
    );
    assert_eq!(
        column_letter_to_index("#"),
        Err(SqlGenError::InvalidColumnLabel)
    );
}

#[test]
fn column_label_is_case_insensitive() {
    assert_eq!(column_letter_to_index("a").unwrap(), 0);
    assert_eq!(column_letter_to_index("aa").unwrap(), 26);
    assert_eq!(
        column_letter_to_index("ab").unwrap(),
        column_letter_to_index("AB").unwrap()
    );
}

#[test]
fn single_row_statement_count_matches_rows() {
    let rows = vec![
        vec!["1".to_string()],
        vec!["2".to_string()],
        vec!["3".to_string()],
    ];
    let cols = vec!["A".to_string()];
    let out = generate_statements("V ('{1}');", &rows, &cols, None).unwrap();
    assert_eq!(out.len(), rows.len());
    assert_eq!(out[0], "V ('1');");
    assert_eq!(out[2], "V ('3');");
}

#[test]
fn batch_statement_count_is_ceiling() {
    let rows: Vec<Vec<String>> = (1..=7)
        .map(|i: usize| vec![i.to_string()])
        .collect();
    let cols = vec!["A".to_string()];
    let out = generate_statements("IN ({values});", &rows, &cols, Some(3)).unwrap();
    assert_eq!(out.len(), 3);
    let out2 = generate_statements("IN ({values});", &rows, &cols, Some(7)).unwrap();
    assert_eq!(out2.len(), 1);
}

#[test]
fn zero_batch_size_is_rejected() {
    let rows = vec![vec!["1".to_string()]];
    let cols = vec!["A".to_string()];
    assert_eq!(
        generate_statements("{values}", &rows, &cols, Some(0)),
        Err(SqlGenError::InvalidBatchSize)
    );
}

#[test]
fn extract_trims_and_skips_empty_rows() {
    let grid = vec![
        vec!["header".to_string()],
        vec![" Alice ".to_string(), "x".to_string()],
        vec!["   ".to_string()],
        vec!["Bob".to_string()],
    ];
    let cols = vec![0usize];
    let rows = extract_rows(&grid, 2, &cols, true).unwrap();
    assert_eq!(rows, vec![vec!["Alice".to_string()], vec!["Bob".to_string()]]);
}

#[test]
fn extract_keeps_empty_rows_when_asked() {
    let grid = vec![
        vec!["Alice".to_string()],
        vec!["".to_string()],
    ];
    let cols = vec![0usize];
    let rows = extract_rows(&grid, 1, &cols, false).unwrap();
    assert_eq!(rows.len(), 2);
    assert_eq!(rows[1], vec!["".to_string()]);
}

#[test]
fn extract_fills_missing_cells_with_empty() {
    let grid = vec![vec!["only".to_string()]];
    let cols = vec![0usize, 5usize];
    let rows = extract_rows(&grid, 1, &cols, true).unwrap();
    assert_eq!(rows, vec![vec!["only".to_string(), "".to_string()]]);
}

#[test]
fn extract_errs_when_nothing_remains() {
    let grid = vec![vec!["   ".to_string()]];
    let cols = vec![0usize];
    assert_eq!(extract_rows(&grid, 1, &cols, true), Err(SqlGenError::NoDataFound));
    assert_eq!(extract_rows(&grid, 9, &cols, false), Err(SqlGenError::NoDataFound));
}

#[test]
fn unmatched_placeholders_stay_verbatim() {
    let row = vec!["v".to_string()];
    let cols = vec!["A".to_string()];
    assert_eq!(
        generate_sql_multi("keep {2} and {B} and {x}", &row, &cols),
        "keep {2} and {B} and {x}"
    );
}

#[test]
fn values_are_escaped_at_substitution() {
    let row = vec!["O'Brien".to_string()];
    let cols = vec!["A".to_string()];
    assert_eq!(
        generate_sql_multi("('{1}')", &row, &cols),
        "('O''Brien')"
    );
}

#[test]
fn batch_hash_numeric_marker() {
    let rows = vec![
        vec!["1".to_string(), "a".to_string()],
        vec!["2".to_string(), "b".to_string()],
    ];
    let cols = vec!["A".to_string(), "B".to_string()];
    let out = generate_batch_sql("del {#2};", &rows, &cols, 2);
    assert_eq!(out, vec!["del 'a', 'b';".to_string()]);
}

#[test]
fn extract_then_generate_end_to_end() {
    let grid = vec![
        vec!["id".to_string(), "name".to_string()],
        vec!["1".to_string(), " Alice ".to_string()],
        vec!["2".to_string(), "O'Brien".to_string()],
        vec!["".to_string(), "  ".to_string()],
        vec!["3".to_string(), "Cara".to_string()],
    ];
    let labels = vec!["A".to_string(), "B".to_string()];
    let cols: Vec<usize> = labels
        .iter()
        .map(|l| column_letter_to_index(l).unwrap())
        .collect();
    let rows = extract_rows(&grid, 2, &cols, true).unwrap();
    assert_eq!(rows.len(), 3);
    let out = generate_statements(
        "INSERT INTO t (id, name) VALUES ({1}, '{2}');",
        &rows,
        &labels,
        None,
    )
    .unwrap();
    assert_eq!(out.len(), 3);
    assert_eq!(out[0], "INSERT INTO t (id, name) VALUES (1, 'Alice');");
    assert_eq!(out[1], "INSERT INTO t (id, name) VALUES (2, 'O''Brien');");
    assert_eq!(out[2], "INSERT INTO t (id, name) VALUES (3, 'Cara');");
}

#[test]
fn shard_names_and_count() {
    let (name, ext) = split_name_ext("out.sql");
    assert_eq!(name, "out");
    assert_eq!(ext, ".sql");
    let (name2, ext2) = split_name_ext("plain");
    assert_eq!(name2, "plain");
    assert_eq!(ext2, ".sql");
    assert_eq!(shard_file_name(&name, &ext, 2), "out_2.sql");
    assert_eq!(shard_count(7, 3), 3);
    assert_eq!(shard_count(6, 3), 2);
    assert_eq!(shard_count(0, 3), 0);
}
