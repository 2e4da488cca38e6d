//! Routing archive entries into the output tree.

use std::collections::HashMap;

use ipeds::errors::RunError;
use ipeds::paths::{basename, extension, join, stem, str_eq};
use ipeds::plan::{plan_archive, ArchivePlan, Entry};
use ipeds::router::{classify, NameClass, RouteAction, Router};

fn entry(name: &str, data: &[u8]) -> Entry {
    Entry { name: String::from(name), data: data.to_vec() }
}

#[test]
fn basename_takes_final_component() {
    assert_eq!(basename("a/b/c.txt"), "c.txt");
    assert_eq!(basename("c.txt"), "c.txt");
    assert_eq!(basename("dir/"), "");
}

#[test]
fn extension_after_last_dot() {
    assert_eq!(extension("c.txt"), Some(String::from("txt")));
    assert_eq!(extension("archive.tar.gz"), Some(String::from("gz")));
    assert_eq!(extension("noext"), None);
    assert_eq!(extension(".hidden"), None);
}

#[test]
fn stem_before_last_dot() {
    assert_eq!(stem("data.accdb"), "data");
    assert_eq!(stem("noext"), "noext");
}

#[test]
fn join_inserts_separator() {
    assert_eq!(join("out", "txt"), "out/txt");
}

#[test]
fn str_eq_compares_contents() {
    assert!(str_eq("abc", "abc"));
    assert!(!str_eq("abc", "abd"));
    assert!(!str_eq("abc", "ab"));
}

#[test]
fn classify_by_final_component() {
    assert!(matches!(classify("README"), NameClass::Ignored));
    assert!(matches!(classify("a/b/"), NameClass::Ignored));
    match classify("docs/guide.pdf") {
        NameClass::Plain { ext, base } => {
            assert_eq!(ext, "pdf");
            assert_eq!(base, "guide.pdf");
        }
        _ => panic!("expected a plain entry"),
    }
    match classify("nested/dir/data.accdb") {
        NameClass::Database { base } => assert_eq!(base, "data.accdb"),
        _ => panic!("expected the database entry"),
    }
}

#[test]
fn route_plain_entry_to_extension_dir() {
    let mut router = Router::new();
    match router.route("docs/guide.pdf", "out", "tmp") {
        Ok(RouteAction::WritePlain { dir, path }) => {
            assert_eq!(dir, "out/pdf");
            assert_eq!(path, "out/pdf/guide.pdf");
        }
        _ => panic!("expected a plain write"),
    }
}

#[test]
fn route_database_entry_to_staging_once() {
    let mut router = Router::new();
    match router.route("data.accdb", "out", "tmp") {
        Ok(RouteAction::StageDatabase { path }) => assert_eq!(path, "tmp/data.accdb"),
        _ => panic!("expected the database to be staged"),
    }
    match router.route("other.accdb", "out", "tmp") {
        Err(e) => assert_eq!(e, RunError::DuplicateDatabaseFile),
        Ok(_) => panic!("a second database file must be refused"),
    }
}

#[test]
fn plain_archive_routes_every_entry() {
    let entries = vec![
        entry("a.txt", b"hello"),
        entry("sub/b.csv", b"1,2"),
        entry("noext", b"zzz"),
        entry("c.txt", b"world"),
    ];
    let plan = plan_archive(&entries, "out", "tmp").expect("plain archive must route");
    assert!(plan.database.is_none());
    assert_eq!(plan.writes.len(), 3);
    assert_eq!(plan.writes[0].path, "out/txt/a.txt");
    assert_eq!(plan.writes[0].data, b"hello");
    assert_eq!(plan.writes[1].path, "out/csv/b.csv");
    assert_eq!(plan.writes[1].data, b"1,2");
    assert_eq!(plan.writes[2].path, "out/txt/c.txt");
    assert_eq!(plan.writes[2].data, b"world");
}

#[test]
fn single_database_spawns_conversion() {
    let entries = vec![entry("readme.txt", b"hi"), entry("data.accdb", b"DB")];
    let plan = plan_archive(&entries, "out", "tmp").expect("one database is fine");
    let db = plan.database.expect("the database must be staged");
    assert_eq!(db.path, "tmp/data.accdb");
    assert_eq!(db.data, b"DB");
}

#[test]
fn duplicate_database_fails_archive() {
    let entries = vec![
        entry("data.accdb", b"DB1"),
        entry("readme.txt", b"hi"),
        entry("more.accdb", b"DB2"),
    ];
    match plan_archive(&entries, "out", "tmp") {
        Err(e) => assert_eq!(e, RunError::DuplicateDatabaseFile),
        Ok(_) => panic!("two database files must fail the archive"),
    }
}

fn apply(fs: &mut HashMap<String, Vec<u8>>, plan: &ArchivePlan) {
    for w in &plan.writes {
        fs.insert(w.path.clone(), w.data.clone());
    }
}

#[test]
fn rerunning_plain_archive_is_idempotent() {
    let entries = vec![entry("a.txt", b"hello"), entry("b.csv", b"1,2")];
    let mut fs: HashMap<String, Vec<u8>> = HashMap::new();
    fs.insert(String::from("out/txt/a.txt"), b"stale".to_vec());
    let plan = plan_archive(&entries, "out", "tmp").expect("plain archive must route");
    apply(&mut fs, &plan);
    let after_first = fs.clone();
    let again = plan_archive(&entries, "out", "tmp").expect("second run must route too");
    apply(&mut fs, &again);
    assert_eq!(fs, after_first);
}
