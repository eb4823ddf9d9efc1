//! The catalog's cross-cutting guarantees, stated once over the state model
//! and proved from the invariants and the operation contracts.

use vstd::prelude::*;

use crate::catalog::{lemma_table_match_unique, CatalogStateV};
use crate::commit::{
    apply_all, apply_all_upto, build_context, build_contexts, build_contexts_upto, commit_outcome,
    committed_rows, has_duplicate_targets, lookup_ident, all_requirements_hold, requirements_hold,
    CommitContextV, CommitTableRequest,
};
use crate::error::ErrorKind;
use crate::ident::TableIdent;
use crate::metadata::TableMetadataV;
use crate::table::create_table_error;

verus! {

/// Every table row's metadata document names the row's own UUID and root
/// location; since every mutation preserves the invariants, this holds of
/// every table after every create and every commit.
pub proof fn lemma_metadata_names_its_row(s: CatalogStateV, i: int)
    requires
        s.inv(),
        0 <= i < s.tables.len(),
    ensures
        s.tables[i].metadata.table_uuid == s.tables[i].table_id,
        s.tables[i].metadata.location == s.tables[i].table_location,
{
}

/// Resolving an identifier without opting into staged rows yields the
/// table's UUID exactly when the table is committed; in particular a staged
/// table resolves to nothing, so loading it fails as loading a missing table
/// does.
pub proof fn lemma_resolve_committed(
    s: CatalogStateV,
    wid: u128,
    ns: Seq<Seq<char>>,
    name: Seq<char>,
    i: int,
)
    requires
        s.inv(),
        s.table_matches(i, wid, ns, name),
    ensures
        s.resolve_table(wid, ns, name, false) == (if s.tables[i].is_committed() {
            Some(s.tables[i].table_id)
        } else {
            None::<u128>
        }),
{
    if s.tables[i].is_committed() {
        assert(s.table_visible(i, false));
        assert(exists|i2: int| s.table_matches(i2, wid, ns, name) && s.table_visible(i2, false));
        let i2 = choose|i2: int| s.table_matches(i2, wid, ns, name) && s.table_visible(i2, false);
        lemma_table_match_unique(s, wid, ns, name, i, i2);
    } else {
        if exists|i2: int| s.table_matches(i2, wid, ns, name) && s.table_visible(i2, false) {
            let i2 = choose|i2: int|
                s.table_matches(i2, wid, ns, name) && s.table_visible(i2, false);
            lemma_table_match_unique(s, wid, ns, name, i, i2);
            assert(false);
        }
    }
}

/// A staged table is invisible to default lookups: resolving its identifier
/// without opting into staged rows yields nothing, so a load of it fails
/// exactly as a load of a missing table does.
pub proof fn lemma_staged_invisible(
    s: CatalogStateV,
    wid: u128,
    ns: Seq<Seq<char>>,
    name: Seq<char>,
    i: int,
)
    requires
        s.inv(),
        s.table_matches(i, wid, ns, name),
        !s.tables[i].is_committed(),
    ensures
        s.resolve_table(wid, ns, name, false) is None,
{
    lemma_resolve_committed(s, wid, ns, name, i);
}

/// Creating a table under a name that a committed table already bears is a
/// conflict; creating over a staged row is not refused for the name, so the
/// create replaces the row, its UUID included.
pub proof fn lemma_create_over_existing(
    s: CatalogStateV,
    namespace_id: u128,
    name: Seq<char>,
    table_id: u128,
)
    requires
        s.inv(),
        s.namespace_active(namespace_id),
    ensures
        (exists|i: int|
            s.row_matches(i, namespace_id, name) && (#[trigger] s.tables[i]).is_committed())
            ==> create_table_error(s, namespace_id, name, table_id, true) == Some(
            ErrorKind::TableAlreadyExists,
        ),
        (forall|i: int|
            s.row_matches(i, namespace_id, name) ==> !(#[trigger] s.tables[i]).is_committed()) && !(
        exists|i: int|
            0 <= i < s.tables.len() && (#[trigger] s.tables[i]).table_id == table_id
                && !s.row_matches(i, namespace_id, name)) ==> create_table_error(
            s,
            namespace_id,
            name,
            table_id,
            true,
        ) is None,
{
}

/// Location-prefix lookup is exact where no two rows of a warehouse cover
/// one path: a row answers the lookup for `path` exactly when its root
/// location is a prefix of `path`, and a path shorter than every stored
/// location matches nothing.
pub proof fn lemma_location_lookup_exact(s: CatalogStateV, wid: u128, path: Seq<char>)
    requires
        s.inv(),
        forall|i1: int, i2: int|
            s.table_location_matches(i1, wid, path) && s.table_location_matches(i2, wid, path)
                ==> i1 == i2,
    ensures
        forall|i: int|
            #[trigger] s.table_location_matches(i, wid, path) ==> s.is_first_location_match(
                i,
                wid,
                path,
            ),
        (forall|k: int|
            0 <= k < s.tables.len() ==> path.len() < (#[trigger] s.tables[
                k
            ]).table_location.len()) ==> (forall|k: int| !s.table_location_matches(k, wid, path)),
{
    assert forall|i: int| #[trigger] s.table_location_matches(i, wid, path) implies s
        .is_first_location_match(i, wid, path) by {
        assert forall|k: int| 0 <= k < i implies !s.table_location_matches(k, wid, path) by {
            if s.table_location_matches(k, wid, path) {
                assert(k == i);
            }
        }
    }
}

/// Building a change's snapshot reads only its own target row, so a commit
/// to a different table in between does not change what the snapshot is.
proof fn lemma_build_context_stable(
    s: CatalogStateV,
    mid: CatalogStateV,
    ch: CommitTableRequest,
    ids: Seq<(TableIdent, u128)>,
    other: CommitContextV,
    m: TableMetadataV,
    l: Seq<char>,
)
    requires
        s.inv(),
        build_context(s, ch, ids) is Ok,
        build_context(s, ch, ids)->Ok_0.metadata.table_uuid != other.metadata.table_uuid,
        mid.warehouses == s.warehouses,
        mid.namespaces == s.namespaces,
        committed_rows(s, mid, seq![other], seq![m], seq![l]),
    ensures
        build_context(mid, ch, ids) == build_context(s, ch, ids),
{
    let ctx = build_context(s, ch, ids)->Ok_0;
    let ident = ch.identifier->Some_0;
    let tid = lookup_ident(ids, ident@)->Some_0;
    let i = choose|i: int| s.table_by_id_matches(i, tid);
    assert(s.table_by_id_matches(i, tid));
    assert(s.tables[i].metadata == ctx.metadata);
    assert(s.tables[i].metadata.table_uuid == s.tables[i].table_id);
    assert(mid.tables.len() == s.tables.len());
    // Row `i` is not the other commit's target, so it is untouched.
    assert(s.tables[i].table_id == ctx.metadata.table_uuid);
    if exists|c: int|
        0 <= c < seq![other].len() && (#[trigger] seq![other][c]).metadata.table_uuid == s.tables[
            i
        ].table_id {
        let c = choose|c: int|
            0 <= c < seq![other].len() && (#[trigger] seq![other][c]).metadata.table_uuid
                == s.tables[i].table_id;
        assert(c == 0);
        assert(false);
    }
    assert(mid.tables[i] == s.tables[i]);
    // Every row keeps its id, namespace, name and metadata location except
    // the other target, whose id and namespace it also keeps.
    assert forall|k: int| 0 <= k < s.tables.len() implies (#[trigger] mid.tables[k]).table_id == s
        .tables[k].table_id && mid.tables[k].namespace_id == s.tables[k].namespace_id by {
        if exists|c: int|
            0 <= c < seq![other].len() && (#[trigger] seq![other][c]).metadata.table_uuid
                == s.tables[k].table_id {
            let c = choose|c: int|
                0 <= c < seq![other].len() && (#[trigger] seq![other][c]).metadata.table_uuid
                    == s.tables[k].table_id;
            assert(c == 0);
        }
    }
    assert(mid.table_by_id_matches(i, tid));
    let i2 = choose|i2: int| mid.table_by_id_matches(i2, tid);
    assert(mid.tables[i2].table_id == tid && s.tables[i2].table_id == tid);
    crate::catalog::lemma_table_id_unique(s, i, i2);
    assert(mid.tables[i2] == s.tables[i]);
    assert(mid.namespace_by_id(mid.tables[i2].namespace_id) == s.namespace_by_id(
        s.tables[i].namespace_id,
    ));
    assert(build_context(mid, ch, ids) is Ok);
    assert(build_context(mid, ch, ids)->Ok_0 =~~= ctx);
}

/// A single-change transaction whose snapshot, requirements and updates are
/// in order commits, with that snapshot and document as its outcome.
proof fn lemma_single_commit_ok(
    s: CatalogStateV,
    ch: CommitTableRequest,
    ids: Seq<(TableIdent, u128)>,
)
    requires
        build_context(s, ch, ids) is Ok,
        requirements_hold(build_context(s, ch, ids)->Ok_0),
        crate::metadata::apply_updates(
            build_context(s, ch, ids)->Ok_0.metadata,
            build_context(s, ch, ids)->Ok_0.updates,
        ) is Ok,
    ensures
        commit_outcome(s, seq![ch], ids) == Ok::<
            (Seq<CommitContextV>, Seq<TableMetadataV>),
            ErrorKind,
        >(
            (
                seq![build_context(s, ch, ids)->Ok_0],
                seq![
                    crate::metadata::apply_updates(
                        build_context(s, ch, ids)->Ok_0.metadata,
                        build_context(s, ch, ids)->Ok_0.updates,
                    )->Ok_0,
                ],
            ),
        ),
{
    let ctx = build_context(s, ch, ids)->Ok_0;
    let m = crate::metadata::apply_updates(ctx.metadata, ctx.updates)->Ok_0;
    let c1 = seq![ch];
    assert(c1[0] == ch);
    assert(build_contexts_upto(s, c1, ids, 0) == Ok::<Seq<CommitContextV>, ErrorKind>(
        Seq::empty(),
    ));
    assert(build_contexts_upto(s, c1, ids, 1) == Ok::<Seq<CommitContextV>, ErrorKind>(
        Seq::empty().push(ctx),
    ));
    let ctxs = build_contexts(s, c1, ids)->Ok_0;
    assert(ctxs =~= seq![ctx]);
    assert(ctxs == seq![ctx]);
    assert forall|c: int| 0 <= c < ctxs.len() implies requirements_hold(#[trigger] ctxs[c]) by {
        assert(ctxs[c] == ctx);
    }
    assert(apply_all_upto(ctxs, 0) == Ok::<Seq<TableMetadataV>, ErrorKind>(Seq::empty()));
    assert(apply_all_upto(ctxs, 1) == Ok::<Seq<TableMetadataV>, ErrorKind>(
        Seq::empty().push(m),
    ));
    assert(apply_all(ctxs)->Ok_0 =~= seq![m]);
    if has_duplicate_targets(ctxs) {
        let (a, b) = choose|a: int, b: int|
            0 <= a < b < ctxs.len() && (#[trigger] ctxs[a]).metadata.table_uuid == (
            #[trigger] ctxs[b]).metadata.table_uuid;
        assert(false);
    }
    assert(commit_outcome(s, c1, ids)->Ok_0.0 =~= seq![ctx]);
    assert(commit_outcome(s, c1, ids)->Ok_0.1 =~= seq![m]);
}

/// One committed change preserves the invariants and rewrites exactly the
/// row it targets: the row's new document, the new metadata-file pointer,
/// everything else of every row untouched.
proof fn lemma_committed_rows_one_inv(
    pre: CatalogStateV,
    post: CatalogStateV,
    ctx: CommitContextV,
    m: TableMetadataV,
    l: Seq<char>,
)
    requires
        pre.inv(),
        exists|i: int|
            0 <= i < pre.tables.len() && (#[trigger] pre.tables[i]).table_id
                == ctx.metadata.table_uuid && pre.tables[i].metadata == ctx.metadata,
        m.table_uuid == ctx.metadata.table_uuid,
        m.location == ctx.metadata.location,
        post.warehouses == pre.warehouses,
        post.namespaces == pre.namespaces,
        committed_rows(pre, post, seq![ctx], seq![m], seq![l]),
    ensures
        post.inv(),
        post.tables.len() == pre.tables.len(),
        forall|i: int|
            0 <= i < pre.tables.len() ==> (#[trigger] post.tables[i]).table_id == pre.tables[
                i
            ].table_id && post.tables[i].namespace_id == pre.tables[i].namespace_id
                && post.tables[i].table_name == pre.tables[i].table_name && post.tables[
                i
            ].table_location == pre.tables[i].table_location,
        forall|i: int|
            0 <= i < pre.tables.len() && (#[trigger] pre.tables[i]).table_id
                != ctx.metadata.table_uuid ==> post.tables[i] == pre.tables[i],
        forall|i: int|
            0 <= i < pre.tables.len() && (#[trigger] pre.tables[i]).table_id
                == ctx.metadata.table_uuid ==> post.tables[i] == (crate::catalog::TableRecordV {
                metadata: m,
                metadata_location: Some(l),
                ..pre.tables[i]
            }),
{
    let cs = seq![ctx];
    assert forall|i: int| 0 <= i < pre.tables.len() implies {
        &&& (#[trigger] pre.tables[i]).table_id != ctx.metadata.table_uuid ==> post.tables[i]
            == pre.tables[i]
        &&& pre.tables[i].table_id == ctx.metadata.table_uuid ==> post.tables[i] == (
        crate::catalog::TableRecordV { metadata: m, metadata_location: Some(l), ..pre.tables[i] })
    } by {
        if pre.tables[i].table_id == ctx.metadata.table_uuid {
            assert(cs[0].metadata.table_uuid == pre.tables[i].table_id);
            let c = choose|c: int|
                0 <= c < cs.len() && (#[trigger] cs[c]).metadata.table_uuid == pre.tables[
                    i
                ].table_id;
            assert(c == 0);
            assert(seq![m][0] == m && seq![l][0] == l);
        } else {
            if exists|c: int|
                0 <= c < cs.len() && (#[trigger] cs[c]).metadata.table_uuid == pre.tables[
                    i
                ].table_id {
                let c = choose|c: int|
                    0 <= c < cs.len() && (#[trigger] cs[c]).metadata.table_uuid == pre.tables[
                        i
                    ].table_id;
                assert(false);
            }
        }
    }
    let it = choose|i: int|
        0 <= i < pre.tables.len() && (#[trigger] pre.tables[i]).table_id == ctx.metadata.table_uuid
            && pre.tables[i].metadata == ctx.metadata;
    assert forall|a: int, b: int| 0 <= a < b < post.tables.len() implies #[trigger] post.tables[
        a
    ].table_id != #[trigger] post.tables[b].table_id && !(post.tables[a].namespace_id
        == post.tables[b].namespace_id && post.tables[a].table_name == post.tables[b].table_name) by {
        assert(pre.tables[a].table_id != pre.tables[b].table_id);
    }
    assert forall|k: int| 0 <= k < post.tables.len() implies post.has_namespace(
        (#[trigger] post.tables[k]).namespace_id,
    ) by {
        assert(pre.has_namespace(pre.tables[k].namespace_id));
        assert(post.has_namespace(post.tables[k].namespace_id) == pre.has_namespace(
            post.tables[k].namespace_id,
        ));
    }
    assert forall|k: int|
        0 <= k < post.tables.len() implies (#[trigger] post.tables[k]).metadata.table_uuid
        == post.tables[k].table_id && post.tables[k].metadata.location == post.tables[
        k
    ].table_location by {
        if pre.tables[k].table_id == ctx.metadata.table_uuid {
            crate::catalog::lemma_table_id_unique(pre, k, it);
            assert(pre.tables[k].metadata == ctx.metadata);
            assert(m.location == pre.tables[k].metadata.location);
        }
    }
}

/// Rewriting the row of one further change extends a prefix of committed
/// rows by one, provided the changes target pairwise distinct tables.
proof fn lemma_committed_rows_extend(
    s: CatalogStateV,
    mid: CatalogStateV,
    post: CatalogStateV,
    ctxs: Seq<CommitContextV>,
    metas: Seq<TableMetadataV>,
    locs: Seq<Seq<char>>,
    k: int,
)
    requires
        0 <= k < ctxs.len(),
        ctxs.len() == metas.len(),
        ctxs.len() == locs.len(),
        forall|a: int, b: int|
            0 <= a < b < ctxs.len() ==> (#[trigger] ctxs[a]).metadata.table_uuid != (
            #[trigger] ctxs[b]).metadata.table_uuid,
        mid.tables.len() == s.tables.len(),
        post.tables.len() == mid.tables.len(),
        forall|i: int|
            0 <= i < s.tables.len() ==> (#[trigger] mid.tables[i]).table_id == s.tables[
                i
            ].table_id,
        committed_rows(s, mid, ctxs.take(k), metas.take(k), locs.take(k)),
        forall|i: int|
            0 <= i < mid.tables.len() && (#[trigger] mid.tables[i]).table_id != ctxs[
                k
            ].metadata.table_uuid ==> post.tables[i] == mid.tables[i],
        forall|i: int|
            0 <= i < mid.tables.len() && (#[trigger] mid.tables[i]).table_id == ctxs[
                k
            ].metadata.table_uuid ==> post.tables[i] == (crate::catalog::TableRecordV {
                metadata: metas[k],
                metadata_location: Some(locs[k]),
                ..mid.tables[i]
            }),
    ensures
        committed_rows(s, post, ctxs.take(k + 1), metas.take(k + 1), locs.take(k + 1)),
{
    let ca = ctxs.take(k);
    let cb = ctxs.take(k + 1);
    assert(forall|c: int| 0 <= c < k ==> #[trigger] cb[c] == ctxs[c] && ca[c] == ctxs[c]);
    assert(cb[k] == ctxs[k]);
    assert forall|i: int| 0 <= i < s.tables.len() implies {
        if exists|c: int|
            0 <= c < cb.len() && (#[trigger] cb[c]).metadata.table_uuid == s.tables[i].table_id {
            let c = choose|c: int|
                0 <= c < cb.len() && (#[trigger] cb[c]).metadata.table_uuid == s.tables[
                    i
                ].table_id;
            #[trigger] post.tables[i] == (crate::catalog::TableRecordV {
                metadata: metas.take(k + 1)[c],
                metadata_location: Some(locs.take(k + 1)[c]),
                ..s.tables[i]
            })
        } else {
            post.tables[i] == s.tables[i]
        }
    } by {
        let t = s.tables[i].table_id;
        // What the prefix did to row i.
        if exists|c: int|
            0 <= c < ca.len() && (#[trigger] ca[c]).metadata.table_uuid == t {
            let c0 = choose|c: int|
                0 <= c < ca.len() && (#[trigger] ca[c]).metadata.table_uuid == t;
            assert(mid.tables[i] == (crate::catalog::TableRecordV {
                metadata: metas.take(k)[c0],
                metadata_location: Some(locs.take(k)[c0]),
                ..s.tables[i]
            }));
            // Targeted earlier, so not by change k.
            assert(ctxs[c0].metadata.table_uuid == t);
            assert(ctxs[k].metadata.table_uuid != t);
            assert(mid.tables[i].table_id == t);
            assert(post.tables[i] == mid.tables[i]);
            assert(cb[c0].metadata.table_uuid == t);
            let c1 = choose|c: int|
                0 <= c < cb.len() && (#[trigger] cb[c]).metadata.table_uuid == t;
            if c1 != c0 {
                assert(ctxs[c1].metadata.table_uuid == t);
                assert(false);
            }
            assert(metas.take(k + 1)[c0] == metas.take(k)[c0]);
            assert(locs.take(k + 1)[c0] == locs.take(k)[c0]);
        } else {
            assert(mid.tables[i] == s.tables[i]);
            if t == ctxs[k].metadata.table_uuid {
                assert(post.tables[i] == (crate::catalog::TableRecordV {
                    metadata: metas[k],
                    metadata_location: Some(locs[k]),
                    ..s.tables[i]
                }));
                assert(cb[k].metadata.table_uuid == t);
                let c1 = choose|c: int|
                    0 <= c < cb.len() && (#[trigger] cb[c]).metadata.table_uuid == t;
                if c1 != k {
                    assert(ctxs[c1].metadata.table_uuid == t);
                    assert(ca[c1].metadata.table_uuid == t);
                    assert(false);
                }
                assert(metas.take(k + 1)[k] == metas[k]);
                assert(locs.take(k + 1)[k] == locs[k]);
            } else {
                assert(post.tables[i] == mid.tables[i]);
                if exists|c: int|
                    0 <= c < cb.len() && (#[trigger] cb[c]).metadata.table_uuid == t {
                    let c1 = choose|c: int|
                        0 <= c < cb.len() && (#[trigger] cb[c]).metadata.table_uuid == t;
                    if c1 < k {
                        assert(ca[c1].metadata.table_uuid == t);
                        assert(false);
                    } else {
                        assert(cb[c1] == ctxs[k]);
                        assert(false);
                    }
                }
            }
        }
    }
}

/// One step of a serialized run: the next state differs from the previous
/// one exactly by the single-change commit of `ch`, with metadata-file
/// location `l`.
pub open spec fn step_commits(
    pre: CatalogStateV,
    post: CatalogStateV,
    ch: CommitTableRequest,
    ids: Seq<(TableIdent, u128)>,
    l: Seq<char>,
) -> bool {
    &&& post.warehouses == pre.warehouses
    &&& post.namespaces == pre.namespaces
    &&& committed_rows(
        pre,
        post,
        seq![commit_outcome(pre, seq![ch], ids)->Ok_0.0[0]],
        seq![commit_outcome(pre, seq![ch], ids)->Ok_0.1[0]],
        seq![l],
    )
}

/// The first `k` steps of a serialized run of an accepted transaction: each
/// single-change commit is accepted with the batch's own snapshot and
/// document, the state so far carries exactly the first `k` rewritten rows,
/// and the snapshots of the remaining changes are still what the batch read.
#[verifier::rlimit(100)]
#[verifier::spinoff_prover]
proof fn lemma_serializes_prefix(
    s: CatalogStateV,
    states: Seq<CatalogStateV>,
    changes: Seq<CommitTableRequest>,
    ids: Seq<(TableIdent, u128)>,
    locs: Seq<Seq<char>>,
    k: int,
)
    requires
        s.inv(),
        commit_outcome(s, changes, ids) is Ok,
        states.len() == changes.len() + 1,
        locs.len() == changes.len(),
        states[0] == s,
        forall|j: int|
            0 <= j < changes.len() ==> step_commits(
                #[trigger] states[j],
                states[j + 1],
                changes[j],
                ids,
                locs[j],
            ),
        0 <= k <= changes.len(),
    ensures
        states[k].inv(),
        states[k].warehouses == s.warehouses,
        states[k].namespaces == s.namespaces,
        states[k].tables.len() == s.tables.len(),
        forall|i: int|
            0 <= i < s.tables.len() ==> (#[trigger] states[k].tables[i]).table_id == s.tables[
                i
            ].table_id,
        committed_rows(
            s,
            states[k],
            commit_outcome(s, changes, ids)->Ok_0.0.take(k),
            commit_outcome(s, changes, ids)->Ok_0.1.take(k),
            locs.take(k),
        ),
        forall|j: int|
            k <= j < changes.len() ==> build_context(states[k], #[trigger] changes[j], ids)
                == build_context(s, changes[j], ids),
        forall|j: int|
            0 <= j < k ==> commit_outcome(#[trigger] states[j], seq![changes[j]], ids) == Ok::<
                (Seq<CommitContextV>, Seq<TableMetadataV>),
                ErrorKind,
            >(
                (
                    seq![commit_outcome(s, changes, ids)->Ok_0.0[j]],
                    seq![commit_outcome(s, changes, ids)->Ok_0.1[j]],
                ),
            ),
    decreases k,
{
    let n = changes.len() as int;
    let ctxs = commit_outcome(s, changes, ids)->Ok_0.0;
    let metas = commit_outcome(s, changes, ids)->Ok_0.1;
    assert(build_contexts(s, changes, ids) is Ok && build_contexts(s, changes, ids)->Ok_0 == ctxs
        && all_requirements_hold(ctxs) && apply_all(ctxs) is Ok && apply_all(ctxs)->Ok_0 == metas
        && !has_duplicate_targets(ctxs));
    crate::commit::lemma_build_contexts_len(s, changes, ids, n);
    crate::commit::lemma_apply_all_len(ctxs, n);
    if k == 0 {
        assert forall|i: int| 0 <= i < s.tables.len() implies {
            if exists|c: int|
                0 <= c < ctxs.take(0).len() && (#[trigger] ctxs.take(0)[c]).metadata.table_uuid
                    == s.tables[i].table_id {
                let c = choose|c: int|
                    0 <= c < ctxs.take(0).len() && (#[trigger] ctxs.take(0)[c]).metadata.table_uuid
                        == s.tables[i].table_id;
                #[trigger] states[0].tables[i] == (crate::catalog::TableRecordV {
                    metadata: metas.take(0)[c],
                    metadata_location: Some(locs.take(0)[c]),
                    ..s.tables[i]
                })
            } else {
                states[0].tables[i] == s.tables[i]
            }
        } by {
            if exists|c: int|
                0 <= c < ctxs.take(0).len() && (#[trigger] ctxs.take(0)[c]).metadata.table_uuid
                    == s.tables[i].table_id {
                let c = choose|c: int|
                    0 <= c < ctxs.take(0).len() && (#[trigger] ctxs.take(0)[c]).metadata.table_uuid
                        == s.tables[i].table_id;
                assert(false);
            }
        }
        assert(committed_rows(s, states[0], ctxs.take(0), metas.take(0), locs.take(0)));
    } else {
        lemma_serializes_prefix(s, states, changes, ids, locs, k - 1);
        let pre = states[k - 1];
        let post = states[k];
        let ch = changes[k - 1];
        crate::commit::lemma_build_contexts_index(s, changes, ids, n, k - 1);
        let ctx = ctxs[k - 1];
        assert(build_context(s, ch, ids) == Ok::<CommitContextV, ErrorKind>(ctx));
        assert(build_context(pre, ch, ids) == Ok::<CommitContextV, ErrorKind>(ctx));
        crate::commit::lemma_apply_all_index(ctxs, n, k - 1);
        let m = metas[k - 1];
        assert(crate::metadata::apply_updates(ctx.metadata, ctx.updates) == Ok::<
            TableMetadataV,
            ErrorKind,
        >(m));
        assert(requirements_hold(ctx));
        lemma_single_commit_ok(pre, ch, ids);
        assert(commit_outcome(pre, seq![ch], ids) == Ok::<
            (Seq<CommitContextV>, Seq<TableMetadataV>),
            ErrorKind,
        >((seq![ctx], seq![m])));
        assert(step_commits(pre, post, ch, ids, locs[k - 1]));
        assert(commit_outcome(pre, seq![ch], ids)->Ok_0.0[0] == ctx);
        assert(commit_outcome(pre, seq![ch], ids)->Ok_0.1[0] == m);
        assert(committed_rows(pre, post, seq![ctx], seq![m], seq![locs[k - 1]]));
        // The snapshot names a row of the intermediate state.
        crate::commit::lemma_context_row(pre, ch, ids);
        crate::metadata::lemma_apply_updates_upto_fixed(
            ctx.metadata,
            ctx.updates,
            ctx.updates.len() as int,
        );
        lemma_committed_rows_one_inv(pre, post, ctx, m, locs[k - 1]);
        // Every change targets its own table, once.
        assert forall|a: int, b: int|
            0 <= a < b < ctxs.len() implies (#[trigger] ctxs[a]).metadata.table_uuid != (
            #[trigger] ctxs[b]).metadata.table_uuid by {
            if ctxs[a].metadata.table_uuid == ctxs[b].metadata.table_uuid {
                assert(has_duplicate_targets(ctxs));
            }
        }
        lemma_committed_rows_extend(s, pre, post, ctxs, metas, locs, k - 1);
        // Later snapshots are still what the batch read.
        assert forall|j: int|
            k <= j < changes.len() implies build_context(post, #[trigger] changes[j], ids)
            == build_context(s, changes[j], ids) by {
            crate::commit::lemma_build_contexts_index(s, changes, ids, n, j);
            assert(build_context(pre, changes[j], ids) == build_context(s, changes[j], ids));
            assert(build_context(s, changes[j], ids)->Ok_0 == ctxs[j]);
            assert(ctxs[j].metadata.table_uuid != ctx.metadata.table_uuid);
            lemma_build_context_stable(pre, post, changes[j], ids, ctx, m, locs[k - 1]);
        }
    }
}

/// A transaction over pairwise-independent tables serializes, whatever its
/// size: run its changes one at a time, each as its own single-change
/// commit, and every step is accepted with exactly the snapshot and the new
/// document the atomic transaction assigns to that change, and the final
/// rows are exactly the rows the atomic transaction leaves (each change
/// keeping its own metadata-file location).
pub proof fn lemma_commit_serializes_any(
    s: CatalogStateV,
    states: Seq<CatalogStateV>,
    changes: Seq<CommitTableRequest>,
    ids: Seq<(TableIdent, u128)>,
    locs: Seq<Seq<char>>,
)
    requires
        s.inv(),
        commit_outcome(s, changes, ids) is Ok,
        states.len() == changes.len() + 1,
        locs.len() == changes.len(),
        states[0] == s,
        forall|j: int|
            0 <= j < changes.len() ==> step_commits(
                #[trigger] states[j],
                states[j + 1],
                changes[j],
                ids,
                locs[j],
            ),
    ensures
        forall|j: int|
            0 <= j < changes.len() ==> commit_outcome(#[trigger] states[j], seq![changes[j]], ids)
                == Ok::<(Seq<CommitContextV>, Seq<TableMetadataV>), ErrorKind>(
                (
                    seq![commit_outcome(s, changes, ids)->Ok_0.0[j]],
                    seq![commit_outcome(s, changes, ids)->Ok_0.1[j]],
                ),
            ),
        committed_rows(
            s,
            states[changes.len() as int],
            commit_outcome(s, changes, ids)->Ok_0.0,
            commit_outcome(s, changes, ids)->Ok_0.1,
            locs,
        ),
{
    let n = changes.len() as int;
    lemma_serializes_prefix(s, states, changes, ids, locs, n);
    let ctxs = commit_outcome(s, changes, ids)->Ok_0.0;
    let metas = commit_outcome(s, changes, ids)->Ok_0.1;
    crate::commit::lemma_build_contexts_len(s, changes, ids, n);
    crate::commit::lemma_apply_all_len(ctxs, n);
    assert(ctxs.take(n) =~= ctxs);
    assert(metas.take(n) =~= metas);
    assert(locs.take(n) =~= locs);
}

/// `perm` and `back` are mutually inverse reindexings of `0..n`.
pub open spec fn is_permutation(perm: Seq<int>, back: Seq<int>, n: int) -> bool {
    &&& perm.len() == n
    &&& back.len() == n
    &&& forall|k: int| 0 <= k < n ==> 0 <= #[trigger] perm[k] < n
    &&& forall|k: int| 0 <= k < n ==> 0 <= #[trigger] back[k] < n
    &&& forall|k: int| 0 <= k < n ==> back[#[trigger] perm[k]] == k
    &&& forall|k: int| 0 <= k < n ==> perm[#[trigger] back[k]] == k
}

/// When every change's snapshot resolves, the context build is their
/// pointwise collection.
proof fn lemma_build_contexts_pointwise(
    s: CatalogStateV,
    cs: Seq<CommitTableRequest>,
    ids: Seq<(TableIdent, u128)>,
    k: int,
)
    requires
        0 <= k <= cs.len(),
        forall|j: int| 0 <= j < k ==> build_context(s, #[trigger] cs[j], ids) is Ok,
    ensures
        build_contexts_upto(s, cs, ids, k) is Ok,
        build_contexts_upto(s, cs, ids, k)->Ok_0 =~= Seq::new(
            k as nat,
            |c: int| build_context(s, cs[c], ids)->Ok_0,
        ),
    decreases k,
{
    if k > 0 {
        lemma_build_contexts_pointwise(s, cs, ids, k - 1);
    }
}

/// When every change's updates apply, the batch application is their
/// pointwise collection.
proof fn lemma_apply_all_pointwise(ctxs: Seq<CommitContextV>, k: int)
    requires
        0 <= k <= ctxs.len(),
        forall|j: int|
            0 <= j < k ==> crate::metadata::apply_updates(
                (#[trigger] ctxs[j]).metadata,
                ctxs[j].updates,
            ) is Ok,
    ensures
        apply_all_upto(ctxs, k) is Ok,
        apply_all_upto(ctxs, k)->Ok_0 =~= Seq::new(
            k as nat,
            |c: int| crate::metadata::apply_updates(ctxs[c].metadata, ctxs[c].updates)->Ok_0,
        ),
    decreases k,
{
    if k > 0 {
        lemma_apply_all_pointwise(ctxs, k - 1);
    }
}

/// An accepted transaction stays accepted under any reordering of its
/// changes, and each change keeps its own snapshot and new document: the
/// outcome is order-free.
pub proof fn lemma_commit_outcome_permuted(
    s: CatalogStateV,
    changes: Seq<CommitTableRequest>,
    ids: Seq<(TableIdent, u128)>,
    perm: Seq<int>,
    back: Seq<int>,
)
    requires
        commit_outcome(s, changes, ids) is Ok,
        is_permutation(perm, back, changes.len() as int),
    ensures
        commit_outcome(s, Seq::new(changes.len(), |k: int| changes[perm[k]]), ids) is Ok,
        commit_outcome(s, Seq::new(changes.len(), |k: int| changes[perm[k]]), ids)->Ok_0.0
            =~= Seq::new(changes.len(), |k: int| commit_outcome(s, changes, ids)->Ok_0.0[perm[k]]),
        commit_outcome(s, Seq::new(changes.len(), |k: int| changes[perm[k]]), ids)->Ok_0.1
            =~= Seq::new(changes.len(), |k: int| commit_outcome(s, changes, ids)->Ok_0.1[perm[k]]),
{
    let n = changes.len() as int;
    let changes2 = Seq::new(changes.len(), |k: int| changes[perm[k]]);
    let ctxs = commit_outcome(s, changes, ids)->Ok_0.0;
    let metas = commit_outcome(s, changes, ids)->Ok_0.1;
    crate::commit::lemma_build_contexts_len(s, changes, ids, n);
    crate::commit::lemma_apply_all_len(ctxs, n);
    assert forall|j: int| 0 <= j < n implies build_context(s, #[trigger] changes2[j], ids)
        == Ok::<CommitContextV, ErrorKind>(ctxs[perm[j]]) by {
        crate::commit::lemma_build_contexts_index(s, changes, ids, n, perm[j]);
    }
    lemma_build_contexts_pointwise(s, changes2, ids, n);
    let ctxs2 = build_contexts(s, changes2, ids)->Ok_0;
    assert(ctxs2 =~= Seq::new(changes.len(), |k: int| ctxs[perm[k]]));
    assert(changes2.len() == changes.len());
    assert forall|c: int| 0 <= c < ctxs2.len() implies requirements_hold(#[trigger] ctxs2[c]) by {
        assert(ctxs2[c] == ctxs[perm[c]]);
        assert(requirements_hold(ctxs[perm[c]]));
    }
    assert forall|j: int|
        0 <= j < n implies crate::metadata::apply_updates(
        (#[trigger] ctxs2[j]).metadata,
        ctxs2[j].updates,
    ) == Ok::<TableMetadataV, ErrorKind>(metas[perm[j]]) by {
        crate::commit::lemma_apply_all_index(ctxs, n, perm[j]);
        assert(ctxs2[j] == ctxs[perm[j]]);
    }
    lemma_apply_all_pointwise(ctxs2, n);
    assert(apply_all(ctxs2)->Ok_0 =~= Seq::new(changes.len(), |k: int| metas[perm[k]]));
    if has_duplicate_targets(ctxs2) {
        let (c1, c2) = choose|c1: int, c2: int|
            0 <= c1 < c2 < ctxs2.len() && (#[trigger] ctxs2[c1]).metadata.table_uuid == (
            #[trigger] ctxs2[c2]).metadata.table_uuid;
        assert(ctxs2[c1] == ctxs[perm[c1]] && ctxs2[c2] == ctxs[perm[c2]]);
        assert(back[perm[c1]] == c1 && back[perm[c2]] == c2);
        crate::commit::lemma_target_unique(ctxs, perm[c1], perm[c2]);
        assert(false);
    }
    assert(ctxs2.len() == ctxs.len());
}

/// The rows a commit leaves behind are described identically with the
/// changes in any order, each change keeping its own new document and
/// metadata-file location.
pub proof fn lemma_committed_rows_permuted(
    pre: CatalogStateV,
    post: CatalogStateV,
    ctxs: Seq<CommitContextV>,
    metas: Seq<TableMetadataV>,
    locs: Seq<Seq<char>>,
    perm: Seq<int>,
    back: Seq<int>,
)
    requires
        ctxs.len() == metas.len(),
        ctxs.len() == locs.len(),
        is_permutation(perm, back, ctxs.len() as int),
        !has_duplicate_targets(ctxs),
        committed_rows(pre, post, ctxs, metas, locs),
    ensures
        committed_rows(
            pre,
            post,
            Seq::new(ctxs.len(), |k: int| ctxs[perm[k]]),
            Seq::new(ctxs.len(), |k: int| metas[perm[k]]),
            Seq::new(ctxs.len(), |k: int| locs[perm[k]]),
        ),
{
    let n = ctxs.len() as int;
    let cs2 = Seq::new(ctxs.len(), |k: int| ctxs[perm[k]]);
    let ms2 = Seq::new(ctxs.len(), |k: int| metas[perm[k]]);
    let ls2 = Seq::new(ctxs.len(), |k: int| locs[perm[k]]);
    assert forall|i: int| 0 <= i < pre.tables.len() implies {
        if exists|c: int|
            0 <= c < cs2.len() && (#[trigger] cs2[c]).metadata.table_uuid == pre.tables[
                i
            ].table_id {
            let c = choose|c: int|
                0 <= c < cs2.len() && (#[trigger] cs2[c]).metadata.table_uuid == pre.tables[
                    i
                ].table_id;
            #[trigger] post.tables[i] == (crate::catalog::TableRecordV {
                metadata: ms2[c],
                metadata_location: Some(ls2[c]),
                ..pre.tables[i]
            })
        } else {
            post.tables[i] == pre.tables[i]
        }
    } by {
        let t = pre.tables[i].table_id;
        if exists|c: int| 0 <= c < cs2.len() && (#[trigger] cs2[c]).metadata.table_uuid == t {
            let c2 = choose|c: int|
                0 <= c < cs2.len() && (#[trigger] cs2[c]).metadata.table_uuid == t;
            assert(cs2[c2] == ctxs[perm[c2]]);
            assert(ctxs[perm[c2]].metadata.table_uuid == t);
            assert(exists|c: int|
                0 <= c < ctxs.len() && (#[trigger] ctxs[c]).metadata.table_uuid == t);
            let c1 = choose|c: int|
                0 <= c < ctxs.len() && (#[trigger] ctxs[c]).metadata.table_uuid == t;
            crate::commit::lemma_target_unique(ctxs, c1, perm[c2]);
            assert(post.tables[i] == (crate::catalog::TableRecordV {
                metadata: metas[c1],
                metadata_location: Some(locs[c1]),
                ..pre.tables[i]
            }));
            assert(ms2[c2] == metas[perm[c2]] && ls2[c2] == locs[perm[c2]]);
        } else {
            if exists|c: int| 0 <= c < ctxs.len() && (#[trigger] ctxs[c]).metadata.table_uuid == t {
                let c1 = choose|c: int|
                    0 <= c < ctxs.len() && (#[trigger] ctxs[c]).metadata.table_uuid == t;
                assert(cs2[back[c1]] == ctxs[perm[back[c1]]]);
                assert(perm[back[c1]] == c1);
                assert(cs2[back[c1]].metadata.table_uuid == t);
                assert(false);
            }
            assert(post.tables[i] == pre.tables[i]);
        }
    }
}

/// The full serialization law: an accepted transaction over pairwise
/// independent tables can be run one change at a time in any order; every
/// step is accepted with exactly the snapshot and new document the atomic
/// transaction assigns to that change, and the final rows are exactly the
/// atomic transaction's rows, each change keeping the metadata-file location
/// of its own step.
pub proof fn lemma_commit_serializes_in_any_order(
    s: CatalogStateV,
    states: Seq<CatalogStateV>,
    changes: Seq<CommitTableRequest>,
    ids: Seq<(TableIdent, u128)>,
    perm: Seq<int>,
    back: Seq<int>,
    locs: Seq<Seq<char>>,
)
    requires
        s.inv(),
        commit_outcome(s, changes, ids) is Ok,
        is_permutation(perm, back, changes.len() as int),
        states.len() == changes.len() + 1,
        locs.len() == changes.len(),
        states[0] == s,
        forall|j: int|
            0 <= j < changes.len() ==> step_commits(
                #[trigger] states[j],
                states[j + 1],
                changes[perm[j]],
                ids,
                locs[j],
            ),
    ensures
        forall|j: int|
            0 <= j < changes.len() ==> commit_outcome(
                #[trigger] states[j],
                seq![changes[perm[j]]],
                ids,
            ) == Ok::<(Seq<CommitContextV>, Seq<TableMetadataV>), ErrorKind>(
                (
                    seq![commit_outcome(s, changes, ids)->Ok_0.0[perm[j]]],
                    seq![commit_outcome(s, changes, ids)->Ok_0.1[perm[j]]],
                ),
            ),
        committed_rows(
            s,
            states[changes.len() as int],
            commit_outcome(s, changes, ids)->Ok_0.0,
            commit_outcome(s, changes, ids)->Ok_0.1,
            Seq::new(changes.len(), |k: int| locs[back[k]]),
        ),
{
    let n = changes.len() as int;
    let changes2 = Seq::new(changes.len(), |k: int| changes[perm[k]]);
    let ctxs = commit_outcome(s, changes, ids)->Ok_0.0;
    let metas = commit_outcome(s, changes, ids)->Ok_0.1;
    lemma_commit_outcome_permuted(s, changes, ids, perm, back);
    let ctxs2 = commit_outcome(s, changes2, ids)->Ok_0.0;
    let metas2 = commit_outcome(s, changes2, ids)->Ok_0.1;
    assert(ctxs2 == Seq::new(changes.len(), |k: int| ctxs[perm[k]]));
    assert(metas2 == Seq::new(changes.len(), |k: int| metas[perm[k]]));
    assert forall|j: int|
        0 <= j < changes.len() implies step_commits(
        #[trigger] states[j],
        states[j + 1],
        changes2[j],
        ids,
        locs[j],
    ) by {
        assert(changes2[j] == changes[perm[j]]);
    }
    lemma_commit_serializes_any(s, states, changes2, ids, locs);
    assert forall|j: int|
        0 <= j < changes.len() implies commit_outcome(
        #[trigger] states[j],
        seq![changes[perm[j]]],
        ids,
    ) == Ok::<(Seq<CommitContextV>, Seq<TableMetadataV>), ErrorKind>(
        (seq![ctxs[perm[j]]], seq![metas[perm[j]]]),
    ) by {
        assert(changes2[j] == changes[perm[j]]);
        assert(ctxs2[j] == ctxs[perm[j]] && metas2[j] == metas[perm[j]]);
        assert(seq![ctxs2[j]] =~= seq![ctxs[perm[j]]]);
        assert(seq![metas2[j]] =~= seq![metas[perm[j]]]);
    }
    // Map the rewritten rows back to the transaction's own order.
    crate::commit::lemma_build_contexts_len(s, changes, ids, n);
    crate::commit::lemma_apply_all_len(ctxs, n);
    if has_duplicate_targets(ctxs2) {
        let (c1, c2) = choose|c1: int, c2: int|
            0 <= c1 < c2 < ctxs2.len() && (#[trigger] ctxs2[c1]).metadata.table_uuid == (
            #[trigger] ctxs2[c2]).metadata.table_uuid;
        assert(ctxs2[c1] == ctxs[perm[c1]] && ctxs2[c2] == ctxs[perm[c2]]);
        crate::commit::lemma_target_unique(ctxs, perm[c1], perm[c2]);
        assert(back[perm[c1]] == c1 && back[perm[c2]] == c2);
        assert(false);
    }
    lemma_committed_rows_permuted(s, states[n], ctxs2, metas2, locs, back, perm);
    assert(Seq::new(ctxs2.len(), |k: int| ctxs2[back[k]]) =~= ctxs);
    assert(Seq::new(ctxs2.len(), |k: int| metas2[back[k]]) =~= metas);
    assert(Seq::new(ctxs2.len(), |k: int| locs[back[k]]) =~= Seq::new(
        changes.len(),
        |k: int| locs[back[k]],
    ));
}

} // verus!
