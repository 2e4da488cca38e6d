//! The closed error taxonomy of a pipeline run.
//!
//! Every failure a run can surface is one of these variants.  Errors are
//! local to one archive's pipeline wherever possible; the scheduler keeps
//! the first error across all archives as the run's overall result.

use vstd::prelude::*;

verus! {

/// One failure class of a pipeline run.
#[derive(Debug, Clone, Copy, PartialEq, Eq)]
pub enum RunError {
    /// Fetching an archive failed or returned a non-success status.
    NetworkError,
    /// The archive's framing was malformed.
    DecodeError,
    /// More than one recognized database entry appeared in one archive.
    DuplicateDatabaseFile,
    /// One of the external extraction tools is not resolvable; detected
    /// before any network work begins and fatal for the whole run.
    ToolNotFound,
    /// An external extraction tool exited with a non-zero status.
    ToolExecutionError,
    /// Tool output was not valid text where text is required.
    EncodingError,
    /// The relational store refused a connection or a statement.
    StoreError,
    /// Creating a directory or writing a file failed.
    FilesystemError,
}

/// The first failure in a sequence of step results, or `Ok` when every
/// step succeeded.
pub open spec fn first_error_of(rs: Seq<Result<(), RunError>>) -> Result<(), RunError>
    decreases rs.len(),
{
    if rs.len() == 0 {
        Ok(())
    } else {
        match first_error_of(rs.drop_last()) {
            Err(e) => Err(e),
            Ok(u) => rs.last(),
        }
    }
}

/// The folded result succeeds exactly when every step did.
pub proof fn lemma_first_error_ok_iff(rs: Seq<Result<(), RunError>>)
    ensures
        (first_error_of(rs) is Ok) <==> (forall|i: int| 0 <= i < rs.len() ==> #[trigger] rs[i] is Ok),
    decreases rs.len(),
{
    if rs.len() > 0 {
        let d = rs.drop_last();
        lemma_first_error_ok_iff(d);
        assert(forall|i: int| 0 <= i < d.len() ==> #[trigger] d[i] == rs[i]);
        assert(rs[rs.len() - 1] == rs.last());
        if first_error_of(rs) is Ok {
            assert forall|i: int| 0 <= i < rs.len() implies #[trigger] rs[i] is Ok by {
                if i < rs.len() - 1 {
                    assert(rs[i] == d[i]);
                }
            }
        } else {
            if first_error_of(d) is Err {
                let i = choose|i: int| 0 <= i < d.len() && !(#[trigger] d[i] is Ok);
                assert(!(rs[i] is Ok));
            } else {
                assert(!(rs[rs.len() - 1] is Ok));
            }
        }
    }
}

/// A failure among the first `k` steps settles the fold.
pub proof fn lemma_first_error_persists(rs: Seq<Result<(), RunError>>, k: int)
    requires
        0 <= k <= rs.len(),
        first_error_of(rs.subrange(0, k)) is Err,
    ensures
        first_error_of(rs) == first_error_of(rs.subrange(0, k)),
    decreases rs.len() - k,
{
    if k == rs.len() {
        assert(rs.subrange(0, k) =~= rs);
    } else {
        assert(rs.subrange(0, k + 1).drop_last() =~= rs.subrange(0, k));
        lemma_first_error_persists(rs, k + 1);
    }
}

/// Folds many step results into one, first failure winning, exactly as
/// `first_error_of` describes.
pub fn first_error(results: &Vec<Result<(), RunError>>) -> (r: Result<(), RunError>)
    ensures
        r == first_error_of(results@),
{
    let mut i: usize = 0;
    while i < results.len()
        invariant
            i <= results.len(),
            first_error_of(results@.subrange(0, i as int)) is Ok,
        decreases results.len() - i,
    {
        let ghost prev = results@.subrange(0, i as int);
        proof {
            assert(results@.subrange(0, i + 1 as int).drop_last() =~= prev);
            assert(results@.subrange(0, i + 1 as int).last() == results@[i as int]);
        }
        match results[i] {
            Err(e) => {
                proof {
                    lemma_first_error_persists(results@, i + 1 as int);
                }
                return Err(e);
            },
            Ok(u) => {},
        }
        i = i + 1;
    }
    proof {
        assert(results@.subrange(0, results.len() as int) =~= results@);
        let fr = first_error_of(results@);
        let u = fr->Ok_0;
        assert(u == ());
        assert(fr == Ok::<(), RunError>(()));
    }
    Ok(())
}

impl RunError {
    /// Whether this error invalidates the whole run rather than one
    /// archive: only a missing external tool does, and it is checked
    /// eagerly before any archive is fetched.
    pub fn is_run_fatal(&self) -> (r: bool)
        ensures
            r == (*self == RunError::ToolNotFound),
    {
        match self {
            RunError::ToolNotFound => true,
            _ => false,
        }
    }
}

} // verus!
