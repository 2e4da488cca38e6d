//! The routing plan of one whole archive.
//!
//! `route_archive_spec` is the mathematical model of running the router
//! over an archive's entries in stream order: which plain files are
//! written where, whether a database file is staged for conversion, and
//! when the archive fails with `DuplicateDatabaseFile`.  `plan_archive`
//! is the verified executable form, used where an archive's entries are
//! all at hand rather than streamed.

use vstd::prelude::*;

use crate::convert::conversion_spec;
use crate::errors::RunError;
use crate::paths::{basename_of, ext_of, joined};
use crate::router::{
    is_database_name, is_ignored_name, is_plain_name, plain_dest, RouteAction, Router,
};

verus! {

/// One decoded archive entry: its raw name as stored, and its bytes.
pub struct Entry {
    pub name: String,
    pub data: Vec<u8>,
}

impl View for Entry {
    type V = (Seq<char>, Seq<u8>);

    open spec fn view(&self) -> (Seq<char>, Seq<u8>) {
        (self.name@, self.data@)
    }
}

/// The views of a sequence of entries.
pub open spec fn entry_views(es: Seq<Entry>) -> Seq<(Seq<char>, Seq<u8>)> {
    es.map_values(|e: Entry| e@)
}

/// The model of a routed archive: the plain writes in stream order and
/// the staged database file, if any, each as a destination path with
/// the bytes written there.
#[verifier::ext_equal]
pub struct SpecPlan {
    pub writes: Seq<(Seq<char>, Seq<u8>)>,
    pub database: Option<(Seq<char>, Seq<u8>)>,
}

/// Routing an archive's entries in stream order.
pub open spec fn route_archive_spec(
    es: Seq<(Seq<char>, Seq<u8>)>,
    root: Seq<char>,
    staging: Seq<char>,
) -> Result<SpecPlan, RunError>
    decreases es.len(),
{
    if es.len() == 0 {
        Ok(SpecPlan { writes: Seq::empty(), database: None })
    } else {
        match route_archive_spec(es.drop_last(), root, staging) {
            Err(e) => Err(e),
            Ok(p) => {
                let (name, data) = es.last();
                if is_database_name(name) {
                    if p.database is Some {
                        Err(RunError::DuplicateDatabaseFile)
                    } else {
                        Ok(
                            SpecPlan {
                                writes: p.writes,
                                database: Some((joined(staging, basename_of(name)), data)),
                            },
                        )
                    }
                } else if is_plain_name(name) {
                    Ok(
                        SpecPlan {
                            writes: p.writes.push(
                                (
                                    plain_dest(root, ext_of(basename_of(name)), basename_of(name)),
                                    data,
                                ),
                            ),
                            database: p.database,
                        },
                    )
                } else {
                    Ok(p)
                }
            },
        }
    }
}

/// How many entries of the archive carry the database extension.
pub open spec fn database_count(es: Seq<(Seq<char>, Seq<u8>)>) -> nat
    decreases es.len(),
{
    if es.len() == 0 {
        0
    } else {
        database_count(es.drop_last()) + (if is_database_name(es.last().0) {
            1nat
        } else {
            0nat
        })
    }
}

pub proof fn lemma_database_count_zero(es: Seq<(Seq<char>, Seq<u8>)>)
    ensures
        (database_count(es) == 0) <==> (forall|j: int|
            0 <= j < es.len() ==> !is_database_name(#[trigger] es[j].0)),
    decreases es.len(),
{
    if es.len() > 0 {
        let d = es.drop_last();
        lemma_database_count_zero(d);
        assert(forall|j: int| 0 <= j < d.len() ==> #[trigger] d[j] == es[j]);
        if database_count(es) == 0 {
            assert forall|j: int| 0 <= j < es.len() implies !is_database_name(
                #[trigger] es[j].0,
            ) by {
                if j == es.len() - 1 {
                    assert(es[j] == es.last());
                } else {
                    assert(es[j] == d[j]);
                    assert(!is_database_name(d[j].0));
                }
            }
        } else {
            if is_database_name(es.last().0) {
                assert(es[es.len() - 1] == es.last());
                assert(is_database_name(es[es.len() - 1].0));
            } else {
                assert(database_count(d) != 0);
                let j = choose|j: int| 0 <= j < d.len() && is_database_name(#[trigger] d[j].0);
                assert(is_database_name(es[j].0));
            }
        }
    }
}

/// An archive whose entries hold at most one database file routes
/// without error, and stages a database exactly when there is one.
pub proof fn lemma_route_ok_when_no_duplicate(
    es: Seq<(Seq<char>, Seq<u8>)>,
    root: Seq<char>,
    staging: Seq<char>,
)
    requires
        database_count(es) <= 1,
    ensures
        route_archive_spec(es, root, staging) is Ok,
        (route_archive_spec(es, root, staging)->Ok_0.database is Some) <==> database_count(es)
            == 1,
    decreases es.len(),
{
    if es.len() > 0 {
        lemma_route_ok_when_no_duplicate(es.drop_last(), root, staging);
    }
}

/// The routed destination of one plain entry.
pub open spec fn plain_route_of(root: Seq<char>, e: (Seq<char>, Seq<u8>)) -> (Seq<char>, Seq<u8>) {
    (plain_dest(root, ext_of(basename_of(e.0)), basename_of(e.0)), e.1)
}

/// An archive with no database entry routes every plain entry, in
/// stream order, to `<root>/<extension>/<basename>` with its exact
/// bytes; nothing is staged for conversion and the archive succeeds.
pub proof fn lemma_no_database_routes_all_plain(
    es: Seq<(Seq<char>, Seq<u8>)>,
    root: Seq<char>,
    staging: Seq<char>,
)
    requires
        database_count(es) == 0,
    ensures
        route_archive_spec(es, root, staging) matches Ok(p) && p.database is None && p.writes
            == es.filter(|e: (Seq<char>, Seq<u8>)| is_plain_name(e.0)).map_values(
            |e: (Seq<char>, Seq<u8>)| plain_route_of(root, e),
        ),
    decreases es.len(),
{
    reveal(Seq::filter);
    let pred = |e: (Seq<char>, Seq<u8>)| is_plain_name(e.0);
    let f = |e: (Seq<char>, Seq<u8>)| plain_route_of(root, e);
    if es.len() == 0 {
        assert(es.filter(pred).map_values(f) =~= Seq::<(Seq<char>, Seq<u8>)>::empty());
    } else {
        lemma_no_database_routes_all_plain(es.drop_last(), root, staging);
        if pred(es.last()) {
            assert(es.filter(pred).map_values(f) =~= es.drop_last().filter(pred).map_values(
                f,
            ).push(f(es.last())));
        } else {
            assert(es.filter(pred) == es.drop_last().filter(pred));
        }
    }
}

/// Two or more database entries fail the archive with
/// `DuplicateDatabaseFile`; no plan, and so no conversion, results.
pub proof fn lemma_duplicate_database_fails(
    es: Seq<(Seq<char>, Seq<u8>)>,
    root: Seq<char>,
    staging: Seq<char>,
)
    requires
        database_count(es) >= 2,
    ensures
        route_archive_spec(es, root, staging) == Err::<SpecPlan, RunError>(
            RunError::DuplicateDatabaseFile,
        ),
    decreases es.len(),
{
    if database_count(es.drop_last()) >= 2 {
        lemma_duplicate_database_fails(es.drop_last(), root, staging);
    } else {
        lemma_route_ok_when_no_duplicate(es.drop_last(), root, staging);
    }
}

/// An archive with exactly one database entry stages exactly that
/// entry's bytes at its staging path, so a conversion job runs on it.
pub proof fn lemma_single_database_staged(
    es: Seq<(Seq<char>, Seq<u8>)>,
    root: Seq<char>,
    staging: Seq<char>,
    i: int,
)
    requires
        0 <= i < es.len(),
        is_database_name(es[i].0),
        forall|j: int| 0 <= j < es.len() && j != i ==> !is_database_name(#[trigger] es[j].0),
    ensures
        route_archive_spec(es, root, staging) matches Ok(p) && p.database == Some(
            (joined(staging, basename_of(es[i].0)), es[i].1),
        ),
    decreases es.len(),
{
    assert(forall|j: int|
        0 <= j < es.len() - 1 ==> #[trigger] es.drop_last()[j] == es[j]);
    if i == es.len() - 1 {
        lemma_database_count_zero(es.drop_last());
        lemma_route_ok_when_no_duplicate(es.drop_last(), root, staging);
    } else {
        lemma_single_database_staged(es.drop_last(), root, staging, i);
    }
}

/// An archive with exactly one database entry routes without error and
/// stages that entry, so its conversion job runs; and the conversion's
/// result is `Ok` exactly when schema extraction, table enumeration,
/// and every per-table export succeed.
pub proof fn lemma_single_database_conversion_ok_iff(
    es: Seq<(Seq<char>, Seq<u8>)>,
    root: Seq<char>,
    staging: Seq<char>,
    i: int,
    schema: Result<(), RunError>,
    tables: Result<(), RunError>,
    exports: Seq<Result<(), RunError>>,
)
    requires
        0 <= i < es.len(),
        is_database_name(es[i].0),
        forall|j: int| 0 <= j < es.len() && j != i ==> !is_database_name(#[trigger] es[j].0),
    ensures
        route_archive_spec(es, root, staging) is Ok,
        route_archive_spec(es, root, staging)->Ok_0.database is Some,
        (conversion_spec(schema, tables, exports) is Ok) <==> (schema is Ok && tables is Ok
            && forall|k: int| 0 <= k < exports.len() ==> #[trigger] exports[k] is Ok),
{
    lemma_single_database_staged(es, root, staging, i);
    crate::convert::lemma_conversion_ok_iff_steps_ok(schema, tables, exports);
}

/// One planned file write: a destination path and the bytes to put there.
pub struct PlannedWrite {
    pub path: String,
    pub data: Vec<u8>,
}

impl View for PlannedWrite {
    type V = (Seq<char>, Seq<u8>);

    open spec fn view(&self) -> (Seq<char>, Seq<u8>) {
        (self.path@, self.data@)
    }
}

/// The routed plan of one archive.
pub struct ArchivePlan {
    pub writes: Vec<PlannedWrite>,
    pub database: Option<PlannedWrite>,
}

impl View for ArchivePlan {
    type V = SpecPlan;

    open spec fn view(&self) -> SpecPlan {
        SpecPlan {
            writes: self.writes@.map_values(|w: PlannedWrite| w@),
            database: match self.database {
                Some(w) => Some(w@),
                None => None,
            },
        }
    }
}

/// A routing error on a prefix settles the whole archive.
proof fn lemma_route_error_persists(
    es: Seq<(Seq<char>, Seq<u8>)>,
    root: Seq<char>,
    staging: Seq<char>,
    k: int,
)
    requires
        0 <= k <= es.len(),
        route_archive_spec(es.subrange(0, k), root, staging) is Err,
    ensures
        route_archive_spec(es, root, staging) == route_archive_spec(es.subrange(0, k), root, staging),
    decreases es.len() - k,
{
    if k == es.len() {
        assert(es.subrange(0, k) =~= es);
    } else {
        assert(es.subrange(0, k + 1).drop_last() =~= es.subrange(0, k));
        assert(es.subrange(0, k + 1).len() > 0);
        lemma_route_error_persists(es, root, staging, k + 1);
    }
}

/// Exact byte copy of an entry's payload.
fn clone_bytes(v: &Vec<u8>) -> (r: Vec<u8>)
    ensures
        r@ == v@,
{
    let r = v.clone();
    proof {
        assert forall|i: int| 0 <= i < v.len() implies r@[i] == v@[i] by {
            assert(cloned::<u8>(v[i], r[i]));
        }
        assert(v@ =~= r@);
    }
    r
}

/// Routes a whole archive's entries, exactly as `route_archive_spec`
/// describes the result.
pub fn plan_archive(entries: &Vec<Entry>, out_root: &str, staging_root: &str) -> (r: Result<
    ArchivePlan,
    RunError,
>)
    ensures
        match r {
            Ok(plan) => route_archive_spec(entry_views(entries@), out_root@, staging_root@)
                == Ok::<SpecPlan, RunError>(plan@),
            Err(e) => route_archive_spec(entry_views(entries@), out_root@, staging_root@) == Err::<
                SpecPlan,
                RunError,
            >(e),
        },
{
    let ghost es = entry_views(entries@);
    let mut router = Router::new();
    let mut writes: Vec<PlannedWrite> = Vec::new();
    let mut database: Option<PlannedWrite> = None;
    let mut i: usize = 0;
    proof {
        assert(es.subrange(0, 0) =~= Seq::<(Seq<char>, Seq<u8>)>::empty());
        assert(writes@.map_values(|w: PlannedWrite| w@) =~= Seq::<(Seq<char>, Seq<u8>)>::empty());
    }
    while i < entries.len()
        invariant
            i <= entries.len(),
            es == entry_views(entries@),
            route_archive_spec(es.subrange(0, i as int), out_root@, staging_root@) == Ok::<
                SpecPlan,
                RunError,
            >(
                (SpecPlan {
                    writes: writes@.map_values(|w: PlannedWrite| w@),
                    database: match database {
                        Some(w) => Some(w@),
                        None => None,
                    },
                }),
            ),
            router.seen_database == (database is Some),
        decreases entries.len() - i,
    {
        let ghost prev = es.subrange(0, i as int);
        let ghost cur = es.subrange(0, i + 1 as int);
        proof {
            assert(cur.drop_last() =~= prev);
            assert(cur.last() == es[i as int]);
            assert(es[i as int] == entries@[i as int]@);
        }
        let name = entries[i].name.as_str();
        match router.route(name, out_root, staging_root) {
            Err(e) => {
                proof {
                    lemma_route_error_persists(es, out_root@, staging_root@, i + 1 as int);
                }
                return Err(e);
            },
            Ok(RouteAction::Skip) => {},
            Ok(RouteAction::WritePlain { dir: _, path }) => {
                let data = clone_bytes(&entries[i].data);
                writes.push(PlannedWrite { path, data });
            },
            Ok(RouteAction::StageDatabase { path }) => {
                let data = clone_bytes(&entries[i].data);
                database = Some(PlannedWrite { path, data });
            },
        }
        proof {
            let f = |w: PlannedWrite| w@;
            assert(route_archive_spec(cur, out_root@, staging_root@) matches Ok(p) && (p
                =~~= SpecPlan {
                writes: writes@.map_values(f),
                database: match database {
                    Some(w) => Some(w@),
                    None => None,
                },
            }));
        }
        i = i + 1;
    }
    proof {
        assert(es.subrange(0, entries.len() as int) =~= es);
    }
    Ok(ArchivePlan { writes, database })
}

} // verus!
