//! Idempotence of a repository pass: running the worker's pass twice in a
//! row over the same snapshot leaves the stored commit and branch sets
//! exactly as the first run left them — no duplicates, no changed rows.
//! Everything is proved over the same model functions the worker's
//! contract is stated with.

use vstd::prelude::*;
use crate::branch_store::{lemma_find_branch_first, spec_branch_key, spec_find_branch,
    spec_upsert_branch, spec_upsert_branches, spec_upserted_row};
use crate::entities::{Branch, CommitRowView};
use crate::gitmodel::{spec_cursor_hit, spec_find_log, spec_select, CommitView, GitBranch, RefLog};
use crate::worker::{spec_batch_views, spec_branch_entities, spec_bulk_insert_v, spec_converted_row,
    spec_cursor_v, spec_has_key_v, spec_index_branch_step, spec_index_repo, spec_latest_idx_v};

verus! {

/// Whether a row belongs to the branch being indexed.
pub open spec fn spec_row_match(r: CommitRowView, rid: i64, name: Seq<char>) -> bool {
    r.repository_id == rid && r.branch == name
}

/// Two rows that agree on everything but the assigned id.
pub open spec fn spec_same_sans_id(a: CommitRowView, b: CommitRowView) -> bool {
    (CommitRowView { id: 0, ..a }) == (CommitRowView { id: 0, ..b })
}

// ---------------------------------------------------------------------
// Shape of a bulk insertion.
// ---------------------------------------------------------------------

/// A present identity stays present when rows are only appended.
proof fn lemma_has_key_extend(
    rows: Seq<CommitRowView>,
    rows2: Seq<CommitRowView>,
    rid: i64,
    oid: Seq<char>,
    branch: Seq<char>,
)
    requires
        spec_has_key_v(rows, rid, oid, branch),
        rows2.len() >= rows.len(),
        rows2.subrange(0, rows.len() as int) == rows,
    ensures
        spec_has_key_v(rows2, rid, oid, branch),
{
    let i = choose|i: int|
        0 <= i < rows.len() && (#[trigger] rows[i]).repository_id == rid && rows[i].oid == oid
            && rows[i].branch == branch;
    assert(rows2[i] == rows2.subrange(0, rows.len() as int)[i]);
}

/// What a bulk insertion leaves behind: the old rows as a prefix, each
/// appended row one of the batch up to its id, the counter advanced by
/// the number appended, and every batch identity present afterwards.
proof fn lemma_bulk_shape(rows: Seq<CommitRowView>, batch: Seq<CommitRowView>, nid: int)
    ensures
        ({
            let res = spec_bulk_insert_v(rows, batch, nid);
            &&& res.0.len() >= rows.len()
            &&& res.0.subrange(0, rows.len() as int) == rows
            &&& res.1 == nid + res.0.len() - rows.len()
            &&& forall|k: int|
                rows.len() <= k < res.0.len() ==> exists|m: int|
                    0 <= m < batch.len() && spec_same_sans_id(#[trigger] res.0[k], batch[m])
            &&& forall|m: int|
                0 <= m < batch.len() ==> spec_has_key_v(
                    res.0,
                    (#[trigger] batch[m]).repository_id,
                    batch[m].oid,
                    batch[m].branch,
                )
        }),
    decreases batch.len(),
{
    let res = spec_bulk_insert_v(rows, batch, nid);
    if batch.len() == 0 {
        assert(res.0.subrange(0, rows.len() as int) =~= rows);
    } else {
        let b = batch[0];
        assert(forall|m: int| 0 <= m < batch.skip(1).len() ==> batch.skip(1)[m] == batch[m + 1]);
        if spec_has_key_v(rows, b.repository_id, b.oid, b.branch) {
            lemma_bulk_shape(rows, batch.skip(1), nid);
            lemma_has_key_extend(rows, res.0, b.repository_id, b.oid, b.branch);
            assert forall|k: int|
                rows.len() <= k < res.0.len() implies exists|m: int|
                0 <= m < batch.len() && spec_same_sans_id(#[trigger] res.0[k], batch[m]) by {
                let m = choose|m: int|
                    0 <= m < batch.skip(1).len() && spec_same_sans_id(
                        #[trigger] res.0[k],
                        batch.skip(1)[m],
                    );
                assert(spec_same_sans_id(res.0[k], batch[m + 1]));
            }
            assert forall|m: int|
                0 <= m < batch.len() implies spec_has_key_v(
                res.0,
                (#[trigger] batch[m]).repository_id,
                batch[m].oid,
                batch[m].branch,
            ) by {
                if m > 0 {
                    assert(batch.skip(1)[m - 1] == batch[m]);
                }
            }
        } else {
            let pushed = rows.push(CommitRowView { id: nid as i64, ..b });
            lemma_bulk_shape(pushed, batch.skip(1), nid + 1);
            assert(res.0.subrange(0, rows.len() as int) =~= pushed.subrange(
                0,
                pushed.len() as int,
            ).subrange(0, rows.len() as int));
            assert(res.0.subrange(0, rows.len() as int) =~= rows);
            assert(spec_has_key_v(pushed, b.repository_id, b.oid, b.branch)) by {
                assert(pushed[rows.len() as int].repository_id == b.repository_id);
            }
            lemma_has_key_extend(pushed, res.0, b.repository_id, b.oid, b.branch);
            assert forall|k: int|
                rows.len() <= k < res.0.len() implies exists|m: int|
                0 <= m < batch.len() && spec_same_sans_id(#[trigger] res.0[k], batch[m]) by {
                if k == rows.len() {
                    assert(res.0[k] == pushed[rows.len() as int]) by {
                        assert(res.0.subrange(0, pushed.len() as int) == pushed);
                        assert(res.0.subrange(0, pushed.len() as int)[k] == res.0[k]);
                    }
                    assert(spec_same_sans_id(res.0[k], batch[0]));
                } else {
                    let m = choose|m: int|
                        0 <= m < batch.skip(1).len() && spec_same_sans_id(
                            #[trigger] res.0[k],
                            batch.skip(1)[m],
                        );
                    assert(spec_same_sans_id(res.0[k], batch[m + 1]));
                }
            }
            assert forall|m: int|
                0 <= m < batch.len() implies spec_has_key_v(
                res.0,
                (#[trigger] batch[m]).repository_id,
                batch[m].oid,
                batch[m].branch,
            ) by {
                if m > 0 {
                    assert(batch.skip(1)[m - 1] == batch[m]);
                }
            }
        }
    }
}

/// A bulk insertion whose identities are all present already changes
/// nothing.
proof fn lemma_bulk_all_present(rows: Seq<CommitRowView>, batch: Seq<CommitRowView>, nid: int)
    requires
        forall|m: int|
            0 <= m < batch.len() ==> spec_has_key_v(
                rows,
                (#[trigger] batch[m]).repository_id,
                batch[m].oid,
                batch[m].branch,
            ),
    ensures
        spec_bulk_insert_v(rows, batch, nid).0 == rows,
        spec_bulk_insert_v(rows, batch, nid).1 == nid,
    decreases batch.len(),
{
    if batch.len() > 0 {
        assert(forall|m: int| 0 <= m < batch.skip(1).len() ==> batch.skip(1)[m] == batch[m + 1]);
        lemma_bulk_all_present(rows, batch.skip(1), nid);
    }
}

// ---------------------------------------------------------------------
// Stability of the cursor.
// ---------------------------------------------------------------------

/// Appending rows of other branches never moves a branch's cursor.
proof fn lemma_latest_append_other(
    rows: Seq<CommitRowView>,
    extra: Seq<CommitRowView>,
    rid: i64,
    name: Seq<char>,
)
    requires
        forall|k: int| 0 <= k < extra.len() ==> !spec_row_match(#[trigger] extra[k], rid, name),
    ensures
        spec_latest_idx_v(rows + extra, rid, name) == spec_latest_idx_v(rows, rid, name),
    decreases extra.len(),
{
    if extra.len() == 0 {
        assert(rows + extra =~= rows);
    } else {
        let s = rows + extra;
        assert(s.drop_last() =~= rows + extra.drop_last());
        assert(s[s.len() - 1] == extra[extra.len() - 1]);
        assert(forall|k: int|
            0 <= k < extra.drop_last().len() ==> extra.drop_last()[k] == extra[k]);
        lemma_latest_append_other(rows, extra.drop_last(), rid, name);
    }
}

/// The cursor, when present, is a position of the rows.
proof fn lemma_latest_v_in_range(rows: Seq<CommitRowView>, rid: i64, name: Seq<char>)
    ensures
        match spec_latest_idx_v(rows, rid, name) {
            Option::Some(i) => 0 <= i < rows.len(),
            Option::None => true,
        },
    decreases rows.len(),
{
    if rows.len() > 0 {
        lemma_latest_v_in_range(rows.drop_last(), rid, name);
    }
}

/// Appending rows of the branch itself either keeps the cursor or moves
/// it into the appended region.
proof fn lemma_latest_append_matching(
    rows: Seq<CommitRowView>,
    app: Seq<CommitRowView>,
    rid: i64,
    name: Seq<char>,
)
    requires
        forall|k: int| 0 <= k < app.len() ==> spec_row_match(#[trigger] app[k], rid, name),
    ensures
        match spec_latest_idx_v(rows + app, rid, name) {
            Option::None => app.len() == 0 && spec_latest_idx_v(rows, rid, name) is None,
            Option::Some(i) => (0 <= i < rows.len() && spec_latest_idx_v(rows, rid, name)
                == Option::Some(i)) || (rows.len() <= i < rows.len() + app.len()),
        },
    decreases app.len(),
{
    if app.len() == 0 {
        assert(rows + app =~= rows);
        lemma_latest_v_in_range(rows, rid, name);
    } else {
        let s = rows + app;
        assert(s.drop_last() =~= rows + app.drop_last());
        assert(s[s.len() - 1] == app[app.len() - 1]);
        assert(forall|k: int|
            0 <= k < app.drop_last().len() ==> app.drop_last()[k] == app[k]);
        lemma_latest_append_matching(rows, app.drop_last(), rid, name);
        lemma_latest_v_in_range(s.drop_last(), rid, name);
    }
}

// ---------------------------------------------------------------------
// Stability of the selection.
// ---------------------------------------------------------------------

/// A selection bounded by the id of one of the first selection's own
/// commits is a prefix of that first selection.
proof fn lemma_select_prefix(log: Seq<CommitView>, limit: nat, since: Option<Seq<char>>, oid: Seq<char>)
    requires
        exists|k: int|
            0 <= k < spec_select(log, limit, since).len() && (#[trigger] spec_select(
                log,
                limit,
                since,
            )[k]).oid == oid,
    ensures
        spec_select(log, limit, Option::Some(oid)).is_prefix_of(spec_select(log, limit, since)),
    decreases log.len(),
{
    let sel1 = spec_select(log, limit, since);
    let sel2 = spec_select(log, limit, Option::Some(oid));
    let k = choose|k: int| 0 <= k < sel1.len() && (#[trigger] sel1[k]).oid == oid;
    if log[0].oid == oid {
        assert(sel2 =~= Seq::<CommitView>::empty());
        assert(sel2.is_prefix_of(sel1));
    } else {
        let rest1 = spec_select(log.skip(1), (limit - 1) as nat, since);
        let rest2 = spec_select(log.skip(1), (limit - 1) as nat, Option::Some(oid));
        if crate::gitmodel::spec_is_merge(log[0]) {
            lemma_select_prefix(log.skip(1), (limit - 1) as nat, since, oid);
        } else {
            assert(sel1 == seq![log[0]] + rest1);
            if k == 0 {
                assert(false);
            }
            assert(rest1[k - 1] == sel1[k]);
            lemma_select_prefix(log.skip(1), (limit - 1) as nat, since, oid);
            assert(rest2.is_prefix_of(rest1));
            assert(sel2 == seq![log[0]] + rest2);
            assert(sel2 =~= sel1.subrange(0, sel2.len() as int)) by {
                assert(forall|h: int| 0 <= h < rest2.len() ==> rest2[h] == rest1[h]);
            }
        }
    }
}

// ---------------------------------------------------------------------
// One branch pass, rerun.
// ---------------------------------------------------------------------

/// Rerunning one branch pass — after the first pass's insertions and any
/// number of other branches' rows — changes nothing: the cursor now sits
/// at or beyond everything the walk would yield again.
proof fn lemma_branch_step_rerun(
    rows0: Seq<CommitRowView>,
    nid0: int,
    rid: i64,
    name: Seq<char>,
    logs: Seq<RefLog>,
    limit: nat,
    now: i64,
    extra: Seq<CommitRowView>,
    nid2: int,
)
    requires
        forall|k: int| 0 <= k < extra.len() ==> !spec_row_match(#[trigger] extra[k], rid, name),
    ensures
        ({
            let step = spec_index_branch_step(rows0, nid0, rid, name, logs, limit, now);
            let again = spec_index_branch_step(step.rows + extra, nid2, rid, name, logs, limit, now);
            again.rows == step.rows + extra && again.next_id == nid2
        }),
{
    let step = spec_index_branch_step(rows0, nid0, rid, name, logs, limit, now);
    let mid = step.rows + extra;
    let again = spec_index_branch_step(mid, nid2, rid, name, logs, limit, now);
    let ref_name = "refs/remotes/"@ + name;
    match spec_find_log(logs, ref_name) {
        Option::None => {
            assert(again.rows =~= mid);
        },
        Option::Some(log) => {
            let cursor1 = spec_cursor_v(rows0, rid, name);
            let sel1 = spec_select(log, limit, cursor1);
            let batch1 = spec_batch_views(sel1, rid, name, now);
            lemma_bulk_shape(rows0, batch1, nid0);
            let rows1 = step.rows;
            let app = rows1.subrange(rows0.len() as int, rows1.len() as int);
            assert(rows1 =~= rows0 + app);
            assert forall|k: int|
                0 <= k < app.len() implies spec_row_match(#[trigger] app[k], rid, name) by {
                assert(app[k] == rows1[rows0.len() + k]);
                let m = choose|m: int|
                    0 <= m < batch1.len() && spec_same_sans_id(
                        rows1[rows0.len() + k],
                        #[trigger] batch1[m],
                    );
                assert(batch1[m].repository_id == rid && batch1[m].branch == name);
                assert((CommitRowView { id: 0, ..app[k] }).repository_id == app[k].repository_id);
            }
            // the cursor of the rerun
            lemma_latest_append_other(rows1, extra, rid, name);
            assert(mid =~= rows1 + extra);
            assert(mid.subrange(0, rows1.len() as int) =~= rows1);
            lemma_latest_append_matching(rows0, app, rid, name);
            let cursor_mid = spec_cursor_v(mid, rid, name);
            let sel2 = spec_select(log, limit, cursor_mid);
            let batch2 = spec_batch_views(sel2, rid, name, now);
            // every rerun identity is already present
            assert forall|m: int|
                0 <= m < batch2.len() implies spec_has_key_v(
                mid,
                (#[trigger] batch2[m]).repository_id,
                batch2[m].oid,
                batch2[m].branch,
            ) by {
                match spec_latest_idx_v(rows0 + app, rid, name) {
                    Option::None => {
                        // nothing matched at all: the first selection was empty
                        assert(app.len() == 0);
                        assert(cursor_mid == spec_cursor_v(rows0, rid, name));
                        assert(sel2 == sel1);
                        assert(spec_has_key_v(
                            rows1,
                            batch1[m].repository_id,
                            batch1[m].oid,
                            batch1[m].branch,
                        ));
                        lemma_has_key_extend(
                            rows1,
                            mid,
                            batch1[m].repository_id,
                            batch1[m].oid,
                            batch1[m].branch,
                        );
                    },
                    Option::Some(i) => {
                        if 0 <= i < rows0.len() && spec_latest_idx_v(rows0, rid, name)
                            == Option::Some(i) {
                            assert((rows0 + app)[i] == rows0[i]);
                            assert(cursor_mid == cursor1);
                            assert(sel2 == sel1);
                            assert(batch2[m] == batch1[m]);
                            assert(spec_has_key_v(
                                rows1,
                                batch1[m].repository_id,
                                batch1[m].oid,
                                batch1[m].branch,
                            ));
                            lemma_has_key_extend(
                                rows1,
                                mid,
                                batch1[m].repository_id,
                                batch1[m].oid,
                                batch1[m].branch,
                            );
                        } else {
                            // the cursor moved into the first pass's insertions
                            let a = i - rows0.len();
                            assert((rows0 + app)[i] == app[a]);
                            assert(app[a] == rows1[rows0.len() + a]);
                            let w = choose|w: int|
                                0 <= w < batch1.len() && spec_same_sans_id(
                                    rows1[rows0.len() + a],
                                    #[trigger] batch1[w],
                                );
                            assert((CommitRowView { id: 0, ..app[a] }).oid == app[a].oid);
                            assert(app[a].oid == batch1[w].oid);
                            assert(batch1[w].oid == sel1[w].oid);
                            assert(cursor_mid == Option::Some(sel1[w].oid));
                            lemma_select_prefix(log, limit, cursor1, sel1[w].oid);
                            assert(sel2.is_prefix_of(sel1));
                            assert(sel2[m] == sel1.subrange(0, sel2.len() as int)[m]);
                            assert(sel2[m] == sel1[m]);
                            assert(batch2[m] == batch1[m]);
                            assert(spec_has_key_v(
                                rows1,
                                batch1[m].repository_id,
                                batch1[m].oid,
                                batch1[m].branch,
                            ));
                            lemma_has_key_extend(
                                rows1,
                                mid,
                                batch1[m].repository_id,
                                batch1[m].oid,
                                batch1[m].branch,
                            );
                        }
                    },
                }
            }
            lemma_bulk_all_present(mid, batch2, nid2);
        },
    }
}

// ---------------------------------------------------------------------
// A whole repository pass, rerun.
// ---------------------------------------------------------------------

/// A repository pass only appends rows, and every appended row belongs to
/// one of the listed branches.
proof fn lemma_index_repo_shape(
    rows: Seq<CommitRowView>,
    nid: int,
    rid: i64,
    branches: Seq<GitBranch>,
    logs: Seq<RefLog>,
    limit: nat,
    now: i64,
)
    ensures
        ({
            let m = spec_index_repo(rows, nid, rid, branches, logs, limit, now);
            &&& m.rows.len() >= rows.len()
            &&& m.rows.subrange(0, rows.len() as int) == rows
            &&& forall|k: int|
                rows.len() <= k < m.rows.len() ==> exists|b: int|
                    0 <= b < branches.len() && spec_row_match(
                        #[trigger] m.rows[k],
                        rid,
                        branches[b].name@,
                    )
        }),
    decreases branches.len(),
{
    let m = spec_index_repo(rows, nid, rid, branches, logs, limit, now);
    if branches.len() > 0 {
        assert(forall|b: int|
            0 <= b < branches.skip(1).len() ==> branches.skip(1)[b] == branches[b + 1]);
        if "origin/"@.is_prefix_of(branches[0].name@) {
            let name = branches[0].name@;
            let step = spec_index_branch_step(rows, nid, rid, name, logs, limit, now);
            // the step's own insertions belong to this branch
            let ref_name = "refs/remotes/"@ + name;
            match spec_find_log(logs, ref_name) {
                Option::Some(log) => {
                    let cursor = spec_cursor_v(rows, rid, name);
                    let sel = spec_select(log, limit, cursor);
                    let batch = spec_batch_views(sel, rid, name, now);
                    lemma_bulk_shape(rows, batch, nid);
                },
                Option::None => {},
            }
            lemma_index_repo_shape(step.rows, step.next_id, rid, branches.skip(1), logs, limit, now);
            assert(m.rows.subrange(0, rows.len() as int) =~= step.rows.subrange(
                0,
                step.rows.len() as int,
            ).subrange(0, rows.len() as int));
            assert(m.rows.subrange(0, rows.len() as int) =~= rows);
            assert forall|k: int|
                rows.len() <= k < m.rows.len() implies exists|b: int|
                0 <= b < branches.len() && spec_row_match(
                    #[trigger] m.rows[k],
                    rid,
                    branches[b].name@,
                ) by {
                if k < step.rows.len() {
                    assert(m.rows[k] == step.rows[k]) by {
                        assert(m.rows.subrange(0, step.rows.len() as int)[k] == m.rows[k]);
                    }
                    match spec_find_log(logs, ref_name) {
                        Option::Some(log) => {
                            let cursor = spec_cursor_v(rows, rid, name);
                            let sel = spec_select(log, limit, cursor);
                            let batch = spec_batch_views(sel, rid, name, now);
                            let w = choose|w: int|
                                0 <= w < batch.len() && spec_same_sans_id(
                                    step.rows[k],
                                    #[trigger] batch[w],
                                );
                            assert(spec_row_match(m.rows[k], rid, branches[0].name@));
                        },
                        Option::None => {
                            assert(false);
                        },
                    }
                } else {
                    let b = choose|b: int|
                        0 <= b < branches.skip(1).len() && spec_row_match(
                            #[trigger] m.rows[k],
                            rid,
                            branches.skip(1)[b].name@,
                        );
                    assert(spec_row_match(m.rows[k], rid, branches[b + 1].name@));
                }
            }
        } else {
            lemma_index_repo_shape(rows, nid, rid, branches.skip(1), logs, limit, now);
        }
    } else {
        assert(m.rows.subrange(0, rows.len() as int) =~= rows);
    }
}

/// Rerunning a whole repository pass over its own result changes neither
/// the commit rows nor the id counter, as long as the snapshot lists each
/// branch once.
pub proof fn lemma_index_repo_rerun(
    rows0: Seq<CommitRowView>,
    nid0: int,
    rid: i64,
    branches: Seq<GitBranch>,
    logs: Seq<RefLog>,
    limit: nat,
    now: i64,
    nid2: int,
)
    requires
        forall|a: int, b: int|
            0 <= a < b < branches.len() ==> (#[trigger] branches[a]).name@
                != (#[trigger] branches[b]).name@,
    ensures
        ({
            let once = spec_index_repo(rows0, nid0, rid, branches, logs, limit, now);
            let twice = spec_index_repo(once.rows, nid2, rid, branches, logs, limit, now);
            twice.rows == once.rows && twice.next_id == nid2
        }),
    decreases branches.len(),
{
    let once = spec_index_repo(rows0, nid0, rid, branches, logs, limit, now);
    let twice = spec_index_repo(once.rows, nid2, rid, branches, logs, limit, now);
    if branches.len() == 0 {
    } else {
        assert(forall|a: int, b: int|
            0 <= a < b < branches.skip(1).len() ==> (#[trigger] branches.skip(1)[a]).name@
                != (#[trigger] branches.skip(1)[b]).name@) by {
            assert(forall|a: int|
                0 <= a < branches.skip(1).len() ==> branches.skip(1)[a] == branches[a + 1]);
        }
        if "origin/"@.is_prefix_of(branches[0].name@) {
            let name = branches[0].name@;
            let step = spec_index_branch_step(rows0, nid0, rid, name, logs, limit, now);
            let rest = spec_index_repo(step.rows, step.next_id, rid, branches.skip(1), logs, limit, now);
            assert(once.rows == rest.rows);
            // everything the later branches appended is foreign to this one
            lemma_index_repo_shape(step.rows, step.next_id, rid, branches.skip(1), logs, limit, now);
            let extra = rest.rows.subrange(step.rows.len() as int, rest.rows.len() as int);
            assert(rest.rows =~= step.rows + extra);
            assert forall|k: int|
                0 <= k < extra.len() implies !spec_row_match(#[trigger] extra[k], rid, name) by {
                assert(extra[k] == rest.rows[step.rows.len() + k]);
                let b = choose|b: int|
                    0 <= b < branches.skip(1).len() && spec_row_match(
                        rest.rows[step.rows.len() + k],
                        rid,
                        (#[trigger] branches.skip(1)[b]).name@,
                    );
                assert(branches.skip(1)[b] == branches[b + 1]);
                assert(branches[b + 1].name@ != branches[0].name@);
            }
            lemma_branch_step_rerun(rows0, nid0, rid, name, logs, limit, now, extra, nid2);
            let again = spec_index_branch_step(once.rows, nid2, rid, name, logs, limit, now);
            assert(again.rows == once.rows && again.next_id == nid2);
            // rerunning the remaining branches over their own result
            lemma_index_repo_rerun(
                step.rows,
                step.next_id,
                rid,
                branches.skip(1),
                logs,
                limit,
                now,
                nid2,
            );
        } else {
            lemma_index_repo_rerun(rows0, nid0, rid, branches.skip(1), logs, limit, now, nid2);
        }
    }
}

// ---------------------------------------------------------------------
// The branch rows, rerun.
// ---------------------------------------------------------------------

/// A branch row carries exactly the values an entity writes.
pub open spec fn spec_branch_settled(rows: Seq<Branch>, e: Branch) -> bool {
    match spec_find_branch(rows, e.repository_id, e.name@) {
        Option::Some(i) => 0 <= i < rows.len() && rows[i].target_oid == e.target_oid
            && rows[i].is_default == e.is_default && rows[i].updated_at == e.updated_at,
        Option::None => false,
    }
}

/// What a first-match branch search yields, positionally.
proof fn lemma_find_branch_props(rows: Seq<Branch>, rid: i64, name: Seq<char>)
    ensures
        match spec_find_branch(rows, rid, name) {
            Option::Some(i) => 0 <= i < rows.len() && spec_branch_key(rows[i], rid, name)
                && forall|j: int| 0 <= j < i ==> !spec_branch_key(#[trigger] rows[j], rid, name),
            Option::None => forall|j: int|
                0 <= j < rows.len() ==> !spec_branch_key(#[trigger] rows[j], rid, name),
        },
    decreases rows.len(),
{
    if rows.len() > 0 && !spec_branch_key(rows[0], rid, name) {
        lemma_find_branch_props(rows.skip(1), rid, name);
        match spec_find_branch(rows.skip(1), rid, name) {
            Option::Some(i) => {
                assert(rows.skip(1)[i] == rows[i + 1]);
                assert forall|j: int| 0 <= j < i + 1 implies !spec_branch_key(
                    #[trigger] rows[j],
                    rid,
                    name,
                ) by {
                    if j > 0 {
                        assert(rows.skip(1)[j - 1] == rows[j]);
                    }
                }
            },
            Option::None => {
                assert forall|j: int| 0 <= j < rows.len() implies !spec_branch_key(
                    #[trigger] rows[j],
                    rid,
                    name,
                ) by {
                    if j > 0 {
                        assert(rows.skip(1)[j - 1] == rows[j]);
                    }
                }
            },
        }
    }
}

/// An upsert settles its own entity.
proof fn lemma_upsert_settles(rows: Seq<Branch>, e: Branch, nid: int)
    ensures
        spec_branch_settled(spec_upsert_branch(rows, e, nid).0, e),
{
    lemma_find_branch_props(rows, e.repository_id, e.name@);
    match spec_find_branch(rows, e.repository_id, e.name@) {
        Option::Some(i) => {
            let updated = rows.update(i, spec_upserted_row(rows[i], e));
            assert forall|j: int| 0 <= j < i implies !spec_branch_key(
                #[trigger] updated[j],
                e.repository_id,
                e.name@,
            ) by {
                assert(updated[j] == rows[j]);
            }
            lemma_find_branch_first(updated, e.repository_id, e.name@, i);
        },
        Option::None => {
            let pushed = rows.push(Branch { id: nid as i64, ..e });
            assert(spec_branch_key(pushed[rows.len() as int], e.repository_id, e.name@));
            assert forall|j: int| 0 <= j < rows.len() implies !spec_branch_key(
                #[trigger] pushed[j],
                e.repository_id,
                e.name@,
            ) by {
                assert(pushed[j] == rows[j]);
            }
            lemma_find_branch_first(pushed, e.repository_id, e.name@, rows.len() as int);
        },
    }
}

/// An upsert of a different identity leaves an entity settled.
proof fn lemma_upsert_keeps_settled(rows: Seq<Branch>, e: Branch, f: Branch, nid: int)
    requires
        spec_branch_settled(rows, e),
        !(f.repository_id == e.repository_id && f.name@ == e.name@),
    ensures
        spec_branch_settled(spec_upsert_branch(rows, f, nid).0, e),
{
    lemma_find_branch_props(rows, e.repository_id, e.name@);
    let i = spec_find_branch(rows, e.repository_id, e.name@)->0;
    lemma_find_branch_props(rows, f.repository_id, f.name@);
    match spec_find_branch(rows, f.repository_id, f.name@) {
        Option::Some(fi) => {
            let updated = rows.update(fi, spec_upserted_row(rows[fi], f));
            assert(fi != i);
            assert(updated[i] == rows[i]);
            assert forall|j: int| 0 <= j < i implies !spec_branch_key(
                #[trigger] updated[j],
                e.repository_id,
                e.name@,
            ) by {
                assert(updated[j].repository_id == rows[j].repository_id && updated[j].name@
                    == rows[j].name@);
            }
            lemma_find_branch_first(updated, e.repository_id, e.name@, i);
        },
        Option::None => {
            let pushed = rows.push(Branch { id: nid as i64, ..f });
            assert(pushed[i] == rows[i]);
            assert forall|j: int| 0 <= j < i implies !spec_branch_key(
                #[trigger] pushed[j],
                e.repository_id,
                e.name@,
            ) by {
                assert(pushed[j] == rows[j]);
            }
            lemma_find_branch_first(pushed, e.repository_id, e.name@, i);
        },
    }
}

/// After a batch upsert, every entity of the batch is settled, provided
/// no two entities share an identity.
proof fn lemma_upsert_branches_settle(rows: Seq<Branch>, ents: Seq<Branch>, nid: int, m: int)
    requires
        forall|a: int, b: int|
            0 <= a < b < ents.len() ==> !((#[trigger] ents[a]).repository_id
                == (#[trigger] ents[b]).repository_id && ents[a].name@ == ents[b].name@),
        0 <= m < ents.len(),
    ensures
        spec_branch_settled(spec_upsert_branches(rows, ents, nid).0, ents[m]),
    decreases ents.len(),
{
    let stepped = spec_upsert_branch(rows, ents[0], nid);
    assert(forall|a: int| 0 <= a < ents.skip(1).len() ==> ents.skip(1)[a] == ents[a + 1]);
    if m == 0 {
        lemma_upsert_settles(rows, ents[0], nid);
        lemma_keep_settled_through_batch(stepped.0, ents.skip(1), stepped.1, ents[0]);
    } else {
        lemma_upsert_branches_settle(stepped.0, ents.skip(1), stepped.1, m - 1);
    }
}

/// A settled entity stays settled through a batch of other identities.
proof fn lemma_keep_settled_through_batch(rows: Seq<Branch>, ents: Seq<Branch>, nid: int, e: Branch)
    requires
        spec_branch_settled(rows, e),
        forall|a: int|
            0 <= a < ents.len() ==> !((#[trigger] ents[a]).repository_id == e.repository_id
                && ents[a].name@ == e.name@),
    ensures
        spec_branch_settled(spec_upsert_branches(rows, ents, nid).0, e),
    decreases ents.len(),
{
    if ents.len() > 0 {
        lemma_upsert_keeps_settled(rows, e, ents[0], nid);
        let stepped = spec_upsert_branch(rows, ents[0], nid);
        assert(forall|a: int| 0 <= a < ents.skip(1).len() ==> ents.skip(1)[a] == ents[a + 1]);
        lemma_keep_settled_through_batch(stepped.0, ents.skip(1), stepped.1, e);
    }
}

/// Upserting a settled entity changes nothing.
proof fn lemma_upsert_settled_noop(rows: Seq<Branch>, e: Branch, nid: int)
    requires
        spec_branch_settled(rows, e),
    ensures
        spec_upsert_branch(rows, e, nid).0 == rows,
        spec_upsert_branch(rows, e, nid).1 == nid,
{
    lemma_find_branch_props(rows, e.repository_id, e.name@);
    let i = spec_find_branch(rows, e.repository_id, e.name@)->0;
    assert(spec_upserted_row(rows[i], e) == rows[i]);
    assert(rows.update(i, rows[i]) =~= rows);
}

/// Re-upserting a batch of already-settled entities changes nothing.
proof fn lemma_upsert_branches_settled_noop(rows: Seq<Branch>, ents: Seq<Branch>, nid: int)
    requires
        forall|m: int| 0 <= m < ents.len() ==> spec_branch_settled(rows, #[trigger] ents[m]),
    ensures
        spec_upsert_branches(rows, ents, nid).0 == rows,
        spec_upsert_branches(rows, ents, nid).1 == nid,
    decreases ents.len(),
{
    if ents.len() > 0 {
        lemma_upsert_settled_noop(rows, ents[0], nid);
        assert(forall|m: int| 0 <= m < ents.skip(1).len() ==> ents.skip(1)[m] == ents[m + 1]);
        lemma_upsert_branches_settled_noop(rows, ents.skip(1), nid);
    }
}

// ---------------------------------------------------------------------
// Idempotence of the whole repository pass.
// ---------------------------------------------------------------------

/// Running the worker's repository pass twice in a row over the same
/// snapshot — with no new upstream commits in between — leaves the stored
/// commit rows and branch rows exactly as the first run left them: no
/// duplicate rows, no changed row counts, no moved id counters. The one
/// assumption is the snapshot's own validity: its branch listing names
/// each branch once.
pub proof fn lemma_index_repository_idempotent(
    commit_rows: Seq<CommitRowView>,
    commit_next: int,
    branch_rows: Seq<Branch>,
    branch_next: int,
    rid: i64,
    branches: Seq<GitBranch>,
    logs: Seq<RefLog>,
    limit: nat,
    now: i64,
)
    requires
        forall|a: int, b: int|
            0 <= a < b < branches.len() ==> (#[trigger] branches[a]).name@
                != (#[trigger] branches[b]).name@,
    ensures
        ({
            let ents = spec_branch_entities(branches, rid, now);
            let once = spec_upsert_branches(branch_rows, ents, branch_next);
            let twice = spec_upsert_branches(once.0, ents, once.1);
            twice.0 == once.0 && twice.1 == once.1
        }),
        ({
            let once = spec_index_repo(commit_rows, commit_next, rid, branches, logs, limit, now);
            let twice = spec_index_repo(once.rows, once.next_id, rid, branches, logs, limit, now);
            twice.rows == once.rows && twice.next_id == once.next_id
        }),
{
    let ents = spec_branch_entities(branches, rid, now);
    assert forall|a: int, b: int|
        0 <= a < b < ents.len() implies !((#[trigger] ents[a]).repository_id
        == (#[trigger] ents[b]).repository_id && ents[a].name@ == ents[b].name@) by {
        assert(ents[a].name == branches[a].name && ents[b].name == branches[b].name);
    }
    let once = spec_upsert_branches(branch_rows, ents, branch_next);
    assert forall|m: int| 0 <= m < ents.len() implies spec_branch_settled(
        once.0,
        #[trigger] ents[m],
    ) by {
        lemma_upsert_branches_settle(branch_rows, ents, branch_next, m);
    }
    lemma_upsert_branches_settled_noop(once.0, ents, once.1);
    lemma_index_repo_rerun(
        commit_rows,
        commit_next,
        rid,
        branches,
        logs,
        limit,
        now,
        spec_index_repo(commit_rows, commit_next, rid, branches, logs, limit, now).next_id,
    );
}

} // verus!
