//! The concurrency gate, the preflight, and the run-level error fold.

use ipeds::errors::{first_error, RunError};
use ipeds::scheduler::{preflight, Gate};

fn gate_admits_at_most(limit: usize) {
    let mut gate = Gate::new(limit);
    let mut admitted: usize = 0;
    for _ in 0..(limit + 5) {
        if gate.try_acquire() {
            admitted += 1;
        }
        assert!(gate.active <= limit);
    }
    assert_eq!(admitted, limit);
    gate.release();
    assert_eq!(gate.active, limit - 1);
    assert!(gate.try_acquire());
    assert_eq!(gate.active, limit);
    assert!(!gate.try_acquire());
}

#[test]
fn gate_bounds_one() {
    gate_admits_at_most(1);
}

#[test]
fn gate_bounds_four() {
    gate_admits_at_most(4);
}

#[test]
fn gate_bounds_thirty_two() {
    gate_admits_at_most(32);
}

#[test]
fn gate_interleaves_release_and_acquire() {
    let mut gate = Gate::new(2);
    assert!(gate.try_acquire());
    assert!(gate.try_acquire());
    assert!(!gate.try_acquire());
    gate.release();
    assert!(gate.try_acquire());
    assert_eq!(gate.active, 2);
    gate.release();
    gate.release();
    assert_eq!(gate.active, 0);
}

#[test]
fn preflight_needs_all_three_tools() {
    let ok = preflight(
        Some(String::from("/usr/bin/mdb-schema")),
        Some(String::from("/usr/bin/mdb-tables")),
        Some(String::from("/usr/bin/mdb-export")),
    )
    .expect("all tools resolved");
    assert_eq!(ok.schema_tool, "/usr/bin/mdb-schema");
    assert_eq!(ok.tables_tool, "/usr/bin/mdb-tables");
    assert_eq!(ok.export_tool, "/usr/bin/mdb-export");

    let missing = preflight(
        Some(String::from("/usr/bin/mdb-schema")),
        None,
        Some(String::from("/usr/bin/mdb-export")),
    );
    match missing {
        Err(e) => assert_eq!(e, RunError::ToolNotFound),
        Ok(_) => panic!("a missing tool must fail the preflight"),
    }
}

#[test]
fn run_keeps_first_error() {
    let results = vec![
        Ok(()),
        Err(RunError::NetworkError),
        Err(RunError::StoreError),
        Ok(()),
    ];
    assert_eq!(first_error(&results), Err(RunError::NetworkError));
}

#[test]
fn run_without_errors_is_ok() {
    let results: Vec<Result<(), RunError>> = vec![Ok(()), Ok(()), Ok(())];
    assert_eq!(first_error(&results), Ok(()));
    assert_eq!(first_error(&Vec::new()), Ok(()));
}

#[test]
fn only_missing_tools_invalidate_the_run() {
    assert!(RunError::ToolNotFound.is_run_fatal());
    assert!(!RunError::NetworkError.is_run_fatal());
    assert!(!RunError::DuplicateDatabaseFile.is_run_fatal());
    assert!(!RunError::FilesystemError.is_run_fatal());
}
