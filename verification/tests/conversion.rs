//! Converting a staged database file: tool invocations, parsing, and
//! the composed transaction.

use ipeds::convert::{
    archive_outcome, compose_transaction, conversion_outcome, copy_statement, parse_table_list,
    schema_artifact_path, schema_output_dir, schema_step, schema_tool_args, tables_step,
    tables_tool_args,
};
use ipeds::errors::RunError;

#[test]
fn schema_args_without_drop() {
    let args = schema_tool_args("/tmp/data.accdb", false);
    assert_eq!(args, vec!["--no-relations", "/tmp/data.accdb", "postgres"]);
    assert!(!args.iter().any(|a| a == "--drop-table"));
}

#[test]
fn schema_args_with_drop() {
    let args = schema_tool_args("/tmp/data.accdb", true);
    assert_eq!(
        args,
        vec!["--no-relations", "--drop-table", "/tmp/data.accdb", "postgres"]
    );
    assert!(args.iter().any(|a| a == "--drop-table"));
}

#[test]
fn tables_args_one_per_line() {
    let args = tables_tool_args("/tmp/data.accdb");
    assert_eq!(args, vec!["-1", "/tmp/data.accdb"]);
}

#[test]
fn parse_tables_splits_lines() {
    let tables = parse_table_list("students\ncourses\n");
    assert_eq!(tables, vec!["students", "courses"]);
}

#[test]
fn parse_tables_ignores_blank_lines() {
    let tables = parse_table_list("a\n\nb\n\n");
    assert_eq!(tables, vec!["a", "b"]);
}

#[test]
fn parse_tables_strips_carriage_returns() {
    let tables = parse_table_list("a\r\nb\r\n");
    assert_eq!(tables, vec!["a", "b"]);
}

#[test]
fn parse_tables_keeps_trailing_line() {
    let tables = parse_table_list("a\nb");
    assert_eq!(tables, vec!["a", "b"]);
    assert_eq!(parse_table_list(""), Vec::<String>::new());
}

#[test]
fn copy_statement_exact_form() {
    let sql = copy_statement("/usr/bin/mdb-export", "/tmp/data.accdb", "students");
    assert_eq!(
        sql,
        "COPY students FROM PROGRAM '/usr/bin/mdb-export -H /tmp/data.accdb students' (FORMAT csv);"
    );
}

#[test]
fn schema_artifact_under_schema_dir() {
    assert_eq!(schema_output_dir("out"), "out/schema");
    assert_eq!(schema_artifact_path("out", "data.accdb"), "out/schema/data.sql");
}

#[test]
fn schema_step_checks_exit_and_encoding() {
    assert_eq!(
        schema_step(false, Some(String::from("x"))),
        Err(RunError::ToolExecutionError)
    );
    assert_eq!(schema_step(true, None), Err(RunError::EncodingError));
    assert_eq!(
        schema_step(true, Some(String::from("CREATE TABLE t ();"))),
        Ok(String::from("CREATE TABLE t ();"))
    );
}

#[test]
fn tables_step_checks_exit_and_encoding() {
    assert_eq!(tables_step(false, None), Err(RunError::ToolExecutionError));
    assert_eq!(tables_step(true, None), Err(RunError::EncodingError));
    assert_eq!(
        tables_step(true, Some(String::from("students\ncourses\n"))),
        Ok(vec![String::from("students"), String::from("courses")])
    );
}

#[test]
fn transaction_schema_before_loads() {
    let tables = vec![String::from("students"), String::from("courses")];
    let t = compose_transaction(
        String::from("CREATE TABLE students ();"),
        "/usr/bin/mdb-export",
        "/tmp/data.accdb",
        &tables,
    );
    let stmts = t.to_statements();
    assert_eq!(stmts.len(), 3);
    assert_eq!(stmts[0], "CREATE TABLE students ();");
    assert!(stmts[1].starts_with("COPY students "));
    assert!(stmts[2].starts_with("COPY courses "));
}

#[test]
fn conversion_ok_only_when_all_steps_ok() {
    assert_eq!(conversion_outcome(Ok(()), Ok(()), &vec![Ok(()), Ok(())]), Ok(()));
    assert_eq!(
        conversion_outcome(Err(RunError::ToolExecutionError), Ok(()), &vec![]),
        Err(RunError::ToolExecutionError)
    );
    assert_eq!(
        conversion_outcome(Ok(()), Err(RunError::EncodingError), &vec![Ok(())]),
        Err(RunError::EncodingError)
    );
    assert_eq!(
        conversion_outcome(Ok(()), Ok(()), &vec![Ok(()), Err(RunError::StoreError)]),
        Err(RunError::StoreError)
    );
}

#[test]
fn conversion_first_export_error_wins() {
    let exports = vec![
        Ok(()),
        Err(RunError::StoreError),
        Err(RunError::ToolExecutionError),
    ];
    assert_eq!(
        conversion_outcome(Ok(()), Ok(()), &exports),
        Err(RunError::StoreError)
    );
}

#[test]
fn archive_outcome_joins_conversion() {
    assert_eq!(archive_outcome(Ok(()), None), Ok(()));
    assert_eq!(archive_outcome(Ok(()), Some(Ok(()))), Ok(()));
    assert_eq!(
        archive_outcome(Ok(()), Some(Err(RunError::StoreError))),
        Err(RunError::StoreError)
    );
    assert_eq!(
        archive_outcome(Err(RunError::DecodeError), Some(Ok(()))),
        Err(RunError::DecodeError)
    );
    assert_eq!(
        archive_outcome(Err(RunError::NetworkError), None),
        Err(RunError::NetworkError)
    );
}
