use excel2sql::column::column_letter_to_index;
use excel2sql::escape::escape_sql_string;
use excel2sql::subst::{generate_sql, generate_sql_multi};
use excel2sql::batch::generate_batch_sql;

#[test]
fn test_column_letter_to_index() {
    assert_eq!(column_letter_to_index("A").unwrap(), 0);
    assert_eq!(column_letter_to_index("B").unwrap(), 1);
    assert_eq!(column_letter_to_index("Z").unwrap(), 25);
    assert_eq!(column_letter_to_index("AA").unwrap(), 26);
    assert_eq!(column_letter_to_index("AB").unwrap(), 27);
}

#[test]
fn test_generate_sql() {
    let template = "INSERT INTO users (name) VALUES ('{value}');";
    assert_eq!(
        generate_sql(template, "张三"),
        "INSERT INTO users (name) VALUES ('张三');"
    );
}

#[test]
fn test_generate_sql_multi_numeric() {
    let template = "INSERT INTO users (name, age) VALUES ('{1}', {2});";
    let row_values = vec!["张三".to_string(), "25".to_string()];
    let column_names = vec!["A".to_string(), "B".to_string()];
    assert_eq!(
        generate_sql_multi(template, &row_values, &column_names),
        "INSERT INTO users (name, age) VALUES ('张三', 25);"
    );
}

#[test]
fn test_generate_sql_multi_column_names() {
    let template = "INSERT INTO users (name, age) VALUES ('{A}', {B});";
    let row_values = vec!["李四".to_string(), "30".to_string()];
    let column_names = vec!["A".to_string(), "B".to_string()];
    assert_eq!(
        generate_sql_multi(template, &row_values, &column_names),
        "INSERT INTO users (name, age) VALUES ('李四', 30);"
    );
}

#[test]
fn test_generate_sql_multi_backward_compatible() {
    let template = "INSERT INTO users (name) VALUES ('{value}');";
    let row_values = vec!["王五".to_string()];
    let column_names = vec!["A".to_string()];
    assert_eq!(
        generate_sql_multi(template, &row_values, &column_names),
        "INSERT INTO users (name) VALUES ('王五');"
    );
}

#[test]
fn test_escape_sql_string() {
    assert_eq!(escape_sql_string("O'Reilly"), "O''Reilly");
    assert_eq!(escape_sql_string("C:\\path"), "C:\\\\path");
}

#[test]
fn test_generate_batch_sql_in_clause() {
    let template = "UPDATE users SET status='active' WHERE id IN ({values});";
    let rows_data = vec![
        vec!["1".to_string(), "Alice".to_string()],
        vec!["2".to_string(), "Bob".to_string()],
        vec!["3".to_string(), "Charlie".to_string()],
    ];
    let column_names = vec!["A".to_string(), "B".to_string()];
    let rows_per_sql = 2;

    let sql_statements = generate_batch_sql(template, &rows_data, &column_names, rows_per_sql);

    assert_eq!(sql_statements.len(), 2);
    assert_eq!(
        sql_statements[0],
        "UPDATE users SET status='active' WHERE id IN ('1', '2');"
    );
    assert_eq!(
        sql_statements[1],
        "UPDATE users SET status='active' WHERE id IN ('3');"
    );
}

#[test]
fn test_generate_batch_sql_values_batch() {
    let template = "INSERT INTO users (id, name) VALUES {@row};";
    let rows_data = vec![
        vec!["1".to_string(), "Alice".to_string()],
        vec!["2".to_string(), "Bob".to_string()],
        vec!["3".to_string(), "Charlie".to_string()],
    ];
    let column_names = vec!["A".to_string(), "B".to_string()];
    let rows_per_sql = 2;

    let sql_statements = generate_batch_sql(template, &rows_data, &column_names, rows_per_sql);

    assert_eq!(sql_statements.len(), 2);
    assert_eq!(
        sql_statements[0],
        "INSERT INTO users (id, name) VALUES ('1', 'Alice'), ('2', 'Bob');"
    );
    assert_eq!(
        sql_statements[1],
        "INSERT INTO users (id, name) VALUES ('3', 'Charlie');"
    );
}

#[test]
fn test_generate_batch_sql_simple_batch() {
    let template = "UPDATE users SET status='active' WHERE id IN ({#A});";
    let rows_data = vec![
        vec!["1".to_string()],
        vec!["2".to_string()],
        vec!["3".to_string()],
        vec!["4".to_string()],
    ];
    let column_names = vec!["A".to_string()];
    let rows_per_sql = 3;

    let sql_statements = generate_batch_sql(template, &rows_data, &column_names, rows_per_sql);

    assert_eq!(sql_statements.len(), 2);
    assert_eq!(
        sql_statements[0],
        "UPDATE users SET status='active' WHERE id IN ('1', '2', '3');"
    );
    assert_eq!(
        sql_statements[1],
        "UPDATE users SET status='active' WHERE id IN ('4');"
    );
}
