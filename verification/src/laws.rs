//! The properties the indexing core is built around, stated and proved
//! over the same spec functions its contracts use: cursor exclusivity,
//! merge exclusion, and the branch-equivalence anti-join.

use vstd::prelude::*;
use crate::commit_store::{spec_diff_selection, spec_has_equivalent, spec_insert_desc, spec_page,
    spec_sort_desc, spec_time_key};
use crate::entities::{Commit, CommitRowView};
use crate::gitmodel::{commit_views, spec_cursor_hit, spec_find_log, spec_is_merge, spec_select,
    CommitView, RefLog};

verus! {

// ---------------------------------------------------------------------
// The walk model: well-formed history and the ancestor relation.
// ---------------------------------------------------------------------

/// No two positions of a walk carry the same object id.
pub open spec fn spec_distinct_oids(log: Seq<CommitView>) -> bool {
    forall|i: int, j: int| 0 <= i < j < log.len() ==> log[i].oid != log[j].oid
}

/// Position `j` holds a parent of position `i`.
pub open spec fn spec_parent_edge(log: Seq<CommitView>, i: int, j: int) -> bool {
    0 <= i < log.len() && 0 <= j < log.len() && log[i].parents.contains(log[j].oid)
}

/// `j` is reachable from `i` through parent edges in at most `n` steps.
pub open spec fn spec_reaches_in(log: Seq<CommitView>, i: int, j: int, n: nat) -> bool
    decreases n,
{
    n > 0 && (spec_parent_edge(log, i, j) || exists|k: int|
        spec_parent_edge(log, i, k) && spec_reaches_in(log, k, j, (n - 1) as nat))
}

/// `j` holds an ancestor of the commit at `i`.
pub open spec fn spec_ancestor(log: Seq<CommitView>, i: int, j: int) -> bool {
    exists|n: nat| spec_reaches_in(log, i, j, n)
}

/// A well-formed walk: object ids distinct, every parent listed after its
/// child, as a reverse-chronological walk of a history yields them.
pub open spec fn spec_wf_log(log: Seq<CommitView>) -> bool {
    spec_distinct_oids(log) && forall|i: int, j: int|
        spec_parent_edge(log, i, j) ==> i < j
}

/// In a well-formed walk, everything reachable lies strictly later.
proof fn lemma_reaches_later(log: Seq<CommitView>, i: int, j: int, n: nat)
    requires
        spec_wf_log(log),
        spec_reaches_in(log, i, j, n),
    ensures
        i < j,
    decreases n,
{
    if !spec_parent_edge(log, i, j) {
        let k = choose|k: int|
            spec_parent_edge(log, i, k) && spec_reaches_in(log, k, j, (n - 1) as nat);
        lemma_reaches_later(log, k, j, (n - 1) as nat);
    }
}

/// Every selected commit is a non-merge commit of the walk, taken from a
/// position before the cursor's first occurrence and before the limit.
pub proof fn lemma_select_membership(
    log: Seq<CommitView>,
    limit: nat,
    since: Option<Seq<char>>,
    k: int,
)
    requires
        0 <= k < spec_select(log, limit, since).len(),
    ensures
        exists|i: int|
            {
                &&& 0 <= i < log.len()
                &&& #[trigger] log[i] == spec_select(log, limit, since)[k]
                &&& !spec_is_merge(log[i])
                &&& i < limit
                &&& forall|h: int| 0 <= h <= i ==> !spec_cursor_hit(#[trigger] log[h], since)
            },
    decreases log.len(),
{
    let sel = spec_select(log, limit, since);
    let rest = spec_select(log.skip(1), (limit - 1) as nat, since);
    if spec_is_merge(log[0]) {
        lemma_select_membership(log.skip(1), (limit - 1) as nat, since, k);
        let i = choose|i: int|
            {
                &&& 0 <= i < log.skip(1).len()
                &&& #[trigger] log.skip(1)[i] == rest[k]
                &&& !spec_is_merge(log.skip(1)[i])
                &&& i < limit - 1
                &&& forall|h: int| 0 <= h <= i ==> !spec_cursor_hit(#[trigger] log.skip(1)[h], since)
            };
        assert(log[i + 1] == sel[k]);
        assert forall|h: int| 0 <= h <= i + 1 implies !spec_cursor_hit(#[trigger] log[h], since) by {
            if h > 0 {
                assert(log.skip(1)[h - 1] == log[h]);
            }
        }
    } else {
        if k == 0 {
            assert(log[0] == sel[k]);
        } else {
            lemma_select_membership(log.skip(1), (limit - 1) as nat, since, k - 1);
            let i = choose|i: int|
                {
                    &&& 0 <= i < log.skip(1).len()
                    &&& #[trigger] log.skip(1)[i] == rest[k - 1]
                    &&& !spec_is_merge(log.skip(1)[i])
                    &&& i < limit - 1
                    &&& forall|h: int|
                        0 <= h <= i ==> !spec_cursor_hit(#[trigger] log.skip(1)[h], since)
                };
            assert(log[i + 1] == sel[k]);
            assert forall|h: int| 0 <= h <= i + 1 implies !spec_cursor_hit(
                #[trigger] log[h],
                since,
            ) by {
                if h > 0 {
                    assert(log.skip(1)[h - 1] == log[h]);
                }
            }
        }
    }
}

// ---------------------------------------------------------------------
// Cursoring correctness: a walk bounded by an already-indexed cursor
// commit never yields that commit again, nor any of its ancestors.
// ---------------------------------------------------------------------

/// For a branch already indexed up to the commit at `cpos`, a subsequent
/// selection bounded by that commit's id yields neither the commit itself
/// nor any ancestor of it.
pub proof fn lemma_cursor_excludes_indexed(
    log: Seq<CommitView>,
    limit: nat,
    cpos: int,
    j: int,
    k: int,
)
    requires
        spec_wf_log(log),
        0 <= cpos < log.len(),
        0 <= j < log.len(),
        j == cpos || spec_ancestor(log, cpos, j),
        0 <= k < spec_select(log, limit, Option::Some(log[cpos].oid)).len(),
    ensures
        spec_select(log, limit, Option::Some(log[cpos].oid))[k].oid != log[j].oid,
{
    let since = Option::Some(log[cpos].oid);
    let sel = spec_select(log, limit, since);
    lemma_select_membership(log, limit, since, k);
    let i = choose|i: int|
        {
            &&& 0 <= i < log.len()
            &&& #[trigger] log[i] == sel[k]
            &&& !spec_is_merge(log[i])
            &&& i < limit
            &&& forall|h: int| 0 <= h <= i ==> !spec_cursor_hit(#[trigger] log[h], since)
        };
    // the selected position lies strictly before the cursor's position
    assert(i < cpos) by {
        if i >= cpos {
            assert(spec_cursor_hit(log[cpos], since));
        }
    }
    if j != cpos {
        let n = choose|n: nat| spec_reaches_in(log, cpos, j, n);
        lemma_reaches_later(log, cpos, j, n);
    }
    assert(i < j);
    assert(log[i].oid != log[j].oid);
}

// ---------------------------------------------------------------------
// Merge exclusion: a commit with more than one parent is never selected,
// and so never enters the stored commit set.
// ---------------------------------------------------------------------

/// Nothing a selection yields is a merge commit.
pub proof fn lemma_select_excludes_merges(
    log: Seq<CommitView>,
    limit: nat,
    since: Option<Seq<char>>,
    k: int,
)
    requires
        0 <= k < spec_select(log, limit, since).len(),
    ensures
        spec_select(log, limit, since)[k].parents.len() <= 1,
{
    lemma_select_membership(log, limit, since, k);
}

/// A resolved walk is one of the snapshot's recorded walks.
proof fn lemma_find_log_membership(logs: Seq<RefLog>, name: Seq<char>)
    requires
        spec_find_log(logs, name) is Some,
    ensures
        exists|l: int|
            0 <= l < logs.len() && spec_find_log(logs, name) == Option::Some(
                commit_views((#[trigger] logs[l]).commits@),
            ),
    decreases logs.len(),
{
    if logs.len() > 0 && logs[0].ref_name@ != name {
        lemma_find_log_membership(logs.skip(1), name);
        let l = choose|l: int|
            0 <= l < logs.skip(1).len() && spec_find_log(logs.skip(1), name) == Option::Some(
                commit_views((#[trigger] logs.skip(1)[l]).commits@),
            );
        assert(logs[l + 1] == logs.skip(1)[l]);
    }
}

/// Bulk insertion introduces no row with an object id the batch does not
/// carry.
proof fn lemma_bulk_no_new_oid(
    rows: Seq<CommitRowView>,
    batch: Seq<CommitRowView>,
    nid: int,
    oid: Seq<char>,
)
    requires
        forall|j: int| 0 <= j < rows.len() ==> (#[trigger] rows[j]).oid != oid,
        forall|k: int| 0 <= k < batch.len() ==> (#[trigger] batch[k]).oid != oid,
    ensures
        forall|j: int|
            0 <= j < crate::worker::spec_bulk_insert_v(rows, batch, nid).0.len() ==> (
            #[trigger] crate::worker::spec_bulk_insert_v(rows, batch, nid).0[j]).oid != oid,
    decreases batch.len(),
{
    if batch.len() > 0 {
        let b = batch[0];
        assert(b == batch[0]);
        assert(forall|k: int| 0 <= k < batch.skip(1).len() ==> batch.skip(1)[k] == batch[k + 1]);
        if crate::worker::spec_has_key_v(rows, b.repository_id, b.oid, b.branch) {
            lemma_bulk_no_new_oid(rows, batch.skip(1), nid, oid);
        } else {
            let pushed = rows.push(CommitRowView { id: nid as i64, ..b });
            assert(forall|j: int|
                0 <= j < pushed.len() ==> (#[trigger] pushed[j]).oid != oid);
            lemma_bulk_no_new_oid(pushed, batch.skip(1), nid + 1, oid);
        }
    }
}

/// Merge exclusion, over a whole repository pass: a commit that every
/// walk of the snapshot shows with more than one parent never appears in
/// the stored commit set, provided it was not stored before.
pub proof fn lemma_merges_never_stored(
    rows: Seq<CommitRowView>,
    nid: int,
    rid: i64,
    branches: Seq<crate::gitmodel::GitBranch>,
    logs: Seq<RefLog>,
    limit: nat,
    now: i64,
    oid: Seq<char>,
)
    requires
        forall|l: int, k: int|
            0 <= l < logs.len() && 0 <= k < logs[l].commits@.len() && #[trigger] commit_views(
                logs[l].commits@,
            )[k].oid == oid ==> commit_views(logs[l].commits@)[k].parents.len() > 1,
        forall|j: int| 0 <= j < rows.len() ==> (#[trigger] rows[j]).oid != oid,
    ensures
        forall|j: int|
            0 <= j < crate::worker::spec_index_repo(rows, nid, rid, branches, logs, limit, now).rows.len()
                ==> (#[trigger] crate::worker::spec_index_repo(
                rows,
                nid,
                rid,
                branches,
                logs,
                limit,
                now,
            ).rows[j]).oid != oid,
    decreases branches.len(),
{
    if branches.len() > 0 {
        if "origin/"@.is_prefix_of(branches[0].name@) {
            let name = branches[0].name@;
            let step = crate::worker::spec_index_branch_step(rows, nid, rid, name, logs, limit, now);
            let ref_name = "refs/remotes/"@ + name;
            match spec_find_log(logs, ref_name) {
                Option::Some(log) => {
                    lemma_find_log_membership(logs, ref_name);
                    let cursor = crate::worker::spec_cursor_v(rows, rid, name);
                    let sel = spec_select(log, limit, cursor);
                    let batch = crate::worker::spec_batch_views(sel, rid, name, now);
                    assert forall|k: int| 0 <= k < batch.len() implies (
                    #[trigger] batch[k]).oid != oid by {
                        lemma_select_membership(log, limit, cursor, k);
                        let i = choose|i: int|
                            {
                                &&& 0 <= i < log.len()
                                &&& #[trigger] log[i] == sel[k]
                                &&& !spec_is_merge(log[i])
                                &&& i < limit
                                &&& forall|h: int|
                                    0 <= h <= i ==> !spec_cursor_hit(#[trigger] log[h], cursor)
                            };
                        if sel[k].oid == oid {
                            let l = choose|l: int|
                                0 <= l < logs.len() && spec_find_log(logs, ref_name)
                                    == Option::Some(commit_views((#[trigger] logs[l]).commits@));
                            assert(commit_views(logs[l].commits@)[i].oid == oid);
                            assert(commit_views(logs[l].commits@)[i].parents.len() > 1);
                        }
                    }
                    lemma_bulk_no_new_oid(rows, batch, nid, oid);
                },
                Option::None => {},
            }
            lemma_merges_never_stored(
                step.rows,
                step.next_id,
                rid,
                branches.skip(1),
                logs,
                limit,
                now,
                oid,
            );
        } else {
            lemma_merges_never_stored(rows, nid, rid, branches.skip(1), logs, limit, now, oid);
        }
    }
}

// ---------------------------------------------------------------------
// Branch-equivalence anti-join: a commit of branch A whose author name
// and summary also appear on branch B is excluded from the A-only rows.
// ---------------------------------------------------------------------

/// Whatever a descending insertion yields was the inserted row or already
/// there.
proof fn lemma_insert_desc_mem(s: Seq<Commit>, c: Commit, by_committer: bool, x: Commit)
    requires
        spec_insert_desc(s, c, by_committer).contains(x),
    ensures
        x == c || s.contains(x),
    decreases s.len(),
{
    if s.len() != 0 && !(spec_time_key(c, by_committer) > spec_time_key(s[0], by_committer)) {
        let rest = spec_insert_desc(s.skip(1), c, by_committer);
        let whole = seq![s[0]] + rest;
        let k = choose|k: int| 0 <= k < whole.len() && whole[k] == x;
        if k == 0 {
            assert(s[0] == x);
        } else {
            assert(rest[k - 1] == x);
            lemma_insert_desc_mem(s.skip(1), c, by_committer, x);
            if s.skip(1).contains(x) {
                let m = choose|m: int| 0 <= m < s.skip(1).len() && s.skip(1)[m] == x;
                assert(s[m + 1] == x);
            }
        }
    }
}

/// Whatever a sort yields was in its input.
proof fn lemma_sort_desc_mem(s: Seq<Commit>, by_committer: bool, x: Commit)
    requires
        spec_sort_desc(s, by_committer).contains(x),
    ensures
        s.contains(x),
    decreases s.len(),
{
    if s.len() > 0 {
        lemma_insert_desc_mem(spec_sort_desc(s.drop_last(), by_committer), s.last(), by_committer, x);
        if x != s.last() {
            lemma_sort_desc_mem(s.drop_last(), by_committer, x);
            let m = choose|m: int| 0 <= m < s.drop_last().len() && s.drop_last()[m] == x;
            assert(s[m] == x);
        } else {
            assert(s[s.len() - 1] == x);
        }
    }
}

/// Whatever a page yields was in the listing.
proof fn lemma_page_mem(s: Seq<Commit>, offset: int, limit: int, x: Commit)
    requires
        spec_page(s, offset, limit).contains(x),
    ensures
        s.contains(x),
{
    let page = spec_page(s, offset, limit);
    let k = choose|k: int| 0 <= k < page.len() && page[k] == x;
    let off = if offset < 0 {
        0
    } else {
        offset
    };
    assert(s[off + k] == x);
}

/// The anti-join excludes equivalents: when branch B holds a row with the
/// same author name and summary as a row of branch A, the branch
/// comparison of A against B never yields that row of A, whatever its
/// object id.
pub proof fn lemma_anti_join_excludes(
    rows: Seq<Commit>,
    rid: i64,
    branch_a: Seq<char>,
    branch_b: Seq<char>,
    limit: int,
    i: int,
    j: int,
)
    requires
        0 <= i < rows.len(),
        0 <= j < rows.len(),
        rows[i].repository_id == rid,
        rows[j].repository_id == rid,
        rows[i].branch@ == branch_a,
        rows[j].branch@ == branch_b,
        rows[i].author_name@ == rows[j].author_name@,
        rows[i].summary@ == rows[j].summary@,
    ensures
        !spec_page(
            spec_sort_desc(spec_diff_selection(rows, rid, branch_a, branch_b), true),
            0,
            limit,
        ).contains(rows[i]),
{
    let sel = spec_diff_selection(rows, rid, branch_a, branch_b);
    let pred = |c: Commit|
        c.repository_id == rid && c.branch@ == branch_a && !spec_has_equivalent(
            rows,
            rid,
            branch_b,
            c.author_name@,
            c.summary@,
        );
    assert(spec_has_equivalent(rows, rid, branch_b, rows[i].author_name@, rows[i].summary@));
    assert(!pred(rows[i]));
    rows.filter_lemma(pred);
    if spec_page(spec_sort_desc(sel, true), 0, limit).contains(rows[i]) {
        lemma_page_mem(spec_sort_desc(sel, true), 0, limit, rows[i]);
        lemma_sort_desc_mem(sel, true, rows[i]);
        assert(sel.contains(rows[i]));
    }
}

} // verus!
