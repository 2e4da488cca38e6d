//! One archive end to end: a document, a database file with two
//! tables, and the transaction the store receives.

use ipeds::convert::{compose_transaction, parse_table_list, schema_artifact_path};
use ipeds::plan::{plan_archive, Entry};

#[test]
fn archive_with_document_and_database() {
    let entries = vec![
        Entry { name: String::from("readme.txt"), data: b"about this archive".to_vec() },
        Entry { name: String::from("data.accdb"), data: b"binary database".to_vec() },
    ];
    let plan = plan_archive(&entries, "out", "tmp").expect("the archive must route");

    assert_eq!(plan.writes.len(), 1);
    assert_eq!(plan.writes[0].path, "out/txt/readme.txt");
    assert_eq!(plan.writes[0].data, b"about this archive");

    let db = plan.database.expect("the database must be staged");
    assert_eq!(db.path, "tmp/data.accdb");

    assert_eq!(schema_artifact_path("out", "data.accdb"), "out/schema/data.sql");

    let tables = parse_table_list("students\ncourses\n");
    assert_eq!(tables, vec!["students", "courses"]);

    let schema = String::from("CREATE TABLE students ();\nCREATE TABLE courses ();");
    let t = compose_transaction(schema.clone(), "/usr/bin/mdb-export", &db.path, &tables);
    let stmts = t.to_statements();
    assert_eq!(stmts.len(), 3);
    assert_eq!(stmts[0], schema);
    assert_eq!(
        stmts[1],
        "COPY students FROM PROGRAM '/usr/bin/mdb-export -H tmp/data.accdb students' (FORMAT csv);"
    );
    assert_eq!(
        stmts[2],
        "COPY courses FROM PROGRAM '/usr/bin/mdb-export -H tmp/data.accdb courses' (FORMAT csv);"
    );
}
