//! The output tree under overwrite semantics.
//!
//! A run writes files into the output root with full truncate-and-rewrite
//! semantics, so re-running against a populated output tree is expected
//! to leave it exactly as one run does.  The tree is modeled as a map
//! from path to bytes, and a routed plan's writes as the ordered
//! insertions into it.

use vstd::prelude::*;

verus! {

/// The output tree after the writes in `ws` land in order, each
/// truncating and rewriting whatever was at its path.
pub open spec fn apply_writes(
    fs: Map<Seq<char>, Seq<u8>>,
    ws: Seq<(Seq<char>, Seq<u8>)>,
) -> Map<Seq<char>, Seq<u8>>
    decreases ws.len(),
{
    if ws.len() == 0 {
        fs
    } else {
        apply_writes(fs, ws.drop_last()).insert(ws.last().0, ws.last().1)
    }
}

/// The bytes of the last write in `ws` that lands at `path`, if any.
pub open spec fn last_write(ws: Seq<(Seq<char>, Seq<u8>)>, path: Seq<char>) -> Option<Seq<u8>>
    decreases ws.len(),
{
    if ws.len() == 0 {
        None
    } else if ws.last().0 == path {
        Some(ws.last().1)
    } else {
        last_write(ws.drop_last(), path)
    }
}

/// What each path holds after the writes land: the last write to it,
/// or what the tree held before when no write touches it.
pub proof fn lemma_apply_writes_lookup(
    fs: Map<Seq<char>, Seq<u8>>,
    ws: Seq<(Seq<char>, Seq<u8>)>,
    path: Seq<char>,
)
    ensures
        apply_writes(fs, ws).dom().contains(path) <==> (fs.dom().contains(path) || last_write(
            ws,
            path,
        ) is Some),
        apply_writes(fs, ws).dom().contains(path) ==> apply_writes(fs, ws)[path] == (match last_write(
            ws,
            path,
        ) {
            Some(v) => v,
            None => fs[path],
        }),
    decreases ws.len(),
{
    if ws.len() > 0 {
        lemma_apply_writes_lookup(fs, ws.drop_last(), path);
    }
}

proof fn lemma_last_write_at(ws: Seq<(Seq<char>, Seq<u8>)>, k: int)
    requires
        0 <= k < ws.len(),
        forall|j: int| k < j < ws.len() ==> (#[trigger] ws[j]).0 != ws[k].0,
    ensures
        last_write(ws, ws[k].0) == Some(ws[k].1),
    decreases ws.len(),
{
    if k < ws.len() - 1 {
        assert(forall|j: int| 0 <= j < ws.len() - 1 ==> #[trigger] ws.drop_last()[j] == ws[j]);
        lemma_last_write_at(ws.drop_last(), k);
    }
}

/// Where no two writes share a path, the tree afterwards holds each
/// write's exact bytes at its path: a routed archive's plain entries
/// land byte-identical under their extension directories.
pub proof fn lemma_apply_writes_distinct_paths(
    fs: Map<Seq<char>, Seq<u8>>,
    ws: Seq<(Seq<char>, Seq<u8>)>,
    k: int,
)
    requires
        0 <= k < ws.len(),
        forall|i: int, j: int|
            0 <= i < j < ws.len() ==> (#[trigger] ws[i]).0 != (#[trigger] ws[j]).0,
    ensures
        apply_writes(fs, ws).dom().contains(ws[k].0),
        apply_writes(fs, ws)[ws[k].0] == ws[k].1,
{
    lemma_last_write_at(ws, k);
    lemma_apply_writes_lookup(fs, ws, ws[k].0);
}

/// Applying the same writes a second time leaves the tree exactly as
/// the first application did: re-running a routed plan against the
/// same output root is idempotent.
pub proof fn lemma_apply_writes_idempotent(
    fs: Map<Seq<char>, Seq<u8>>,
    ws: Seq<(Seq<char>, Seq<u8>)>,
)
    ensures
        apply_writes(apply_writes(fs, ws), ws) == apply_writes(fs, ws),
{
    let once = apply_writes(fs, ws);
    let twice = apply_writes(once, ws);
    assert forall|p: Seq<char>| #[trigger] twice.dom().contains(p) implies once.dom().contains(p)
        && twice[p] == once[p] by {
        lemma_apply_writes_lookup(fs, ws, p);
        lemma_apply_writes_lookup(once, ws, p);
    }
    assert forall|p: Seq<char>| #[trigger] once.dom().contains(p) implies twice.dom().contains(
        p,
    ) by {
        lemma_apply_writes_lookup(fs, ws, p);
        lemma_apply_writes_lookup(once, ws, p);
    }
    assert(twice =~= once);
}

} // verus!
