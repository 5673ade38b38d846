//! The index worker: one repository pass. It persists the branch listing
//! as a batch upsert, then walks each remote-tracking branch from its
//! cursor and bulk-inserts the new commits, counting per-branch failures
//! without aborting the rest. The whole pass is pinned to a functional
//! model over row views, so re-running it can be reasoned about exactly.

use vstd::prelude::*;
use crate::branch_store::{spec_upsert_branches, BranchStore};
use crate::commit_store::{spec_bulk_insert, spec_latest_idx, CommitStore};
use crate::entities::{commit_row_views, Branch, Commit, CommitRowView};
use crate::error::GitxError;
use crate::gitmodel::{commit_views, select_commits, spec_find_log, spec_select, CommitView,
    GitBranch, RefLog, RepoSnapshot};
use crate::text::{spec_join_comma, str_starts_with};

verus! {

/// What one repository pass reports: commits taken from the walks, and how
/// many branches were indexed or failed.
#[derive(Debug, PartialEq, Eq)]
pub struct IndexResult {
    pub commits_indexed: usize,
    pub branches_indexed: usize,
    pub branches_failed: usize,
}

impl Default for IndexResult {
    /// An empty tally.
    fn default() -> (r: Self)
        ensures
            r.commits_indexed == 0,
            r.branches_indexed == 0,
            r.branches_failed == 0,
    {
        IndexResult { commits_indexed: 0, branches_indexed: 0, branches_failed: 0 }
    }
}

/// Whether some row view carries the identity triple.
pub open spec fn spec_has_key_v(
    rows: Seq<CommitRowView>,
    rid: i64,
    oid: Seq<char>,
    branch: Seq<char>,
) -> bool {
    exists|i: int|
        0 <= i < rows.len() && (#[trigger] rows[i]).repository_id == rid && rows[i].oid == oid
            && rows[i].branch == branch
}

/// Insert-or-ignore over row views, mirroring the store's bulk insertion.
pub open spec fn spec_bulk_insert_v(
    rows: Seq<CommitRowView>,
    batch: Seq<CommitRowView>,
    next_id: int,
) -> (Seq<CommitRowView>, int)
    decreases batch.len(),
{
    if batch.len() == 0 {
        (rows, next_id)
    } else {
        let b = batch[0];
        if spec_has_key_v(rows, b.repository_id, b.oid, b.branch) {
            spec_bulk_insert_v(rows, batch.skip(1), next_id)
        } else {
            spec_bulk_insert_v(
                rows.push(CommitRowView { id: next_id as i64, ..b }),
                batch.skip(1),
                next_id + 1,
            )
        }
    }
}

/// The branch cursor over row views, mirroring the store's.
pub open spec fn spec_latest_idx_v(rows: Seq<CommitRowView>, rid: i64, branch: Seq<char>) -> Option<
    int,
>
    decreases rows.len(),
{
    if rows.len() == 0 {
        Option::None
    } else {
        let k = rows.len() - 1;
        let prev = spec_latest_idx_v(rows.drop_last(), rid, branch);
        if rows[k].repository_id == rid && rows[k].branch == branch {
            match prev {
                Option::None => Option::Some(k),
                Option::Some(i) => if rows[k].author_time > rows[i].author_time {
                    Option::Some(k)
                } else {
                    prev
                },
            }
        } else {
            prev
        }
    }
}

/// The cursor's object id for a branch, if anything is stored for it.
pub open spec fn spec_cursor_v(rows: Seq<CommitRowView>, rid: i64, branch: Seq<char>) -> Option<
    Seq<char>,
> {
    match spec_latest_idx_v(rows, rid, branch) {
        Option::Some(i) => Option::Some(rows[i].oid),
        Option::None => Option::None,
    }
}

/// How a walked commit becomes a row for a branch: tagged with the
/// repository and the branch's short name, message defaulted to empty,
/// parents joined with commas, stamped with the pass's instant.
pub open spec fn spec_converted_row(
    cv: CommitView,
    rid: i64,
    branch: Seq<char>,
    now: i64,
) -> CommitRowView {
    CommitRowView {
        id: 0,
        repository_id: rid,
        oid: cv.oid,
        branch: branch,
        author_name: cv.author_name,
        author_email: cv.author_email,
        author_time: cv.author_time,
        committer_name: cv.committer_name,
        committer_email: cv.committer_email,
        committer_time: cv.committer_time,
        summary: cv.summary,
        message: Option::Some(
            match cv.message {
                Option::Some(m) => m,
                Option::None => Seq::empty(),
            },
        ),
        parent_oids: Option::Some(spec_join_comma(cv.parents)),
        created_at: now,
    }
}

/// The batch a branch pass offers the store.
pub open spec fn spec_batch_views(
    sel: Seq<CommitView>,
    rid: i64,
    branch: Seq<char>,
    now: i64,
) -> Seq<CommitRowView> {
    Seq::new(sel.len(), |k: int| spec_converted_row(sel[k], rid, branch, now))
}

/// What one branch pass leaves behind.
pub struct BranchStep {
    pub rows: Seq<CommitRowView>,
    pub next_id: int,
    pub ok: bool,
    pub count: nat,
}

/// One branch pass over the model: resolve the ref's walk, select from the
/// cursor, convert, bulk-insert. A ref that does not resolve fails the
/// branch and leaves the rows alone.
pub open spec fn spec_index_branch_step(
    rows: Seq<CommitRowView>,
    next_id: int,
    rid: i64,
    name: Seq<char>,
    logs: Seq<RefLog>,
    limit: nat,
    now: i64,
) -> BranchStep {
    let ref_name = "refs/remotes/"@ + name;
    match spec_find_log(logs, ref_name) {
        Option::None => BranchStep { rows, next_id, ok: false, count: 0 },
        Option::Some(log) => {
            let cursor = spec_cursor_v(rows, rid, name);
            let sel = spec_select(log, limit, cursor);
            let batch = spec_batch_views(sel, rid, name, now);
            let ins = spec_bulk_insert_v(rows, batch, next_id);
            BranchStep { rows: ins.0, next_id: ins.1, ok: true, count: sel.len() }
        },
    }
}

/// What a whole repository pass leaves behind.
pub struct IndexModel {
    pub rows: Seq<CommitRowView>,
    pub next_id: int,
    pub branches_indexed: nat,
    pub branches_failed: nat,
    pub commits_indexed: nat,
}

/// A repository pass over the model: each remote-tracking branch, in
/// listing order, runs one branch pass; other branches are skipped.
pub open spec fn spec_index_repo(
    rows: Seq<CommitRowView>,
    next_id: int,
    rid: i64,
    branches: Seq<GitBranch>,
    logs: Seq<RefLog>,
    limit: nat,
    now: i64,
) -> IndexModel
    decreases branches.len(),
{
    if branches.len() == 0 {
        IndexModel { rows, next_id, branches_indexed: 0, branches_failed: 0, commits_indexed: 0 }
    } else if "origin/"@.is_prefix_of(branches[0].name@) {
        let step = spec_index_branch_step(rows, next_id, rid, branches[0].name@, logs, limit, now);
        let rest = spec_index_repo(step.rows, step.next_id, rid, branches.skip(1), logs, limit, now);
        IndexModel {
            rows: rest.rows,
            next_id: rest.next_id,
            branches_indexed: rest.branches_indexed + if step.ok {
                1nat
            } else {
                0nat
            },
            branches_failed: rest.branches_failed + if step.ok {
                0nat
            } else {
                1nat
            },
            commits_indexed: rest.commits_indexed + step.count,
        }
    } else {
        spec_index_repo(rows, next_id, rid, branches.skip(1), logs, limit, now)
    }
}

/// The branch entity recorded for one listed branch.
pub open spec fn spec_branch_entity(gb: GitBranch, rid: i64, now: i64) -> Branch {
    Branch {
        id: 0,
        repository_id: rid,
        name: gb.name,
        target_oid: gb.target_oid,
        is_default: gb.is_head,
        updated_at: now,
    }
}

/// The batch of branch entities a pass records.
pub open spec fn spec_branch_entities(gbs: Seq<GitBranch>, rid: i64, now: i64) -> Seq<Branch> {
    Seq::new(gbs.len(), |i: int| spec_branch_entity(gbs[i], rid, now))
}

/// A selection never yields more commits than the walked positions.
pub proof fn lemma_select_len(log: Seq<CommitView>, limit: nat, since: Option<Seq<char>>)
    ensures
        spec_select(log, limit, since).len() <= limit,
    decreases log.len(),
{
    if log.len() > 0 && limit > 0 && !crate::gitmodel::spec_cursor_hit(log[0], since) {
        lemma_select_len(log.skip(1), (limit - 1) as nat, since);
    }
}

/// Bulk insertion advances the id counter by at most the batch's length.
pub proof fn lemma_bulk_v_next_bound(rows: Seq<CommitRowView>, batch: Seq<CommitRowView>, nid: int)
    ensures
        nid <= spec_bulk_insert_v(rows, batch, nid).1 <= nid + batch.len(),
    decreases batch.len(),
{
    if batch.len() > 0 {
        let b = batch[0];
        if spec_has_key_v(rows, b.repository_id, b.oid, b.branch) {
            lemma_bulk_v_next_bound(rows, batch.skip(1), nid);
        } else {
            lemma_bulk_v_next_bound(
                rows.push(CommitRowView { id: nid as i64, ..b }),
                batch.skip(1),
                nid + 1,
            );
        }
    }
}

/// A repository pass advances the commit id counter by at most one
/// branch's worth of insertions per listed branch.
pub proof fn lemma_index_repo_next_bound(
    rows: Seq<CommitRowView>,
    nid: int,
    rid: i64,
    branches: Seq<GitBranch>,
    logs: Seq<RefLog>,
    limit: nat,
    now: i64,
)
    ensures
        nid <= spec_index_repo(rows, nid, rid, branches, logs, limit, now).next_id <= nid
            + branches.len() * (limit as int),
    decreases branches.len(),
{
    let m = spec_index_repo(rows, nid, rid, branches, logs, limit, now);
    if branches.len() > 0 {
        let nb = branches.len() as int;
        let lim = limit as int;
        assert(nb * lim == (nb - 1) * lim + lim) by (nonlinear_arith);
        assert((nb - 1) * lim >= 0) by (nonlinear_arith)
            requires
                nb >= 1,
                lim >= 0,
        ;
        assert(branches.skip(1).len() == nb - 1);
        if "origin/"@.is_prefix_of(branches[0].name@) {
            let step = spec_index_branch_step(rows, nid, rid, branches[0].name@, logs, limit, now);
            let ref_name = "refs/remotes/"@ + branches[0].name@;
            match spec_find_log(logs, ref_name) {
                Option::Some(log) => {
                    let cursor = spec_cursor_v(rows, rid, branches[0].name@);
                    let sel = spec_select(log, limit, cursor);
                    lemma_select_len(log, limit, cursor);
                    lemma_bulk_v_next_bound(
                        rows,
                        spec_batch_views(sel, rid, branches[0].name@, now),
                        nid,
                    );
                },
                Option::None => {},
            }
            lemma_index_repo_next_bound(
                step.rows,
                step.next_id,
                rid,
                branches.skip(1),
                logs,
                limit,
                now,
            );
        } else {
            lemma_index_repo_next_bound(rows, nid, rid, branches.skip(1), logs, limit, now);
        }
    }
}

/// The store's bulk insertion, seen through row views, is the model's.
pub proof fn lemma_bulk_insert_views(rows: Seq<Commit>, cs: Seq<Commit>, nid: int)
    ensures
        commit_row_views(spec_bulk_insert(rows, cs, nid).0) == spec_bulk_insert_v(
            commit_row_views(rows),
            commit_row_views(cs),
            nid,
        ).0,
        spec_bulk_insert(rows, cs, nid).1 == spec_bulk_insert_v(
            commit_row_views(rows),
            commit_row_views(cs),
            nid,
        ).1,
    decreases cs.len(),
{
    let rv = commit_row_views(rows);
    let cv = commit_row_views(cs);
    if cs.len() > 0 {
        let c = cs[0];
        assert(cv[0] == c@);
        assert(commit_row_views(cs.skip(1)) =~= cv.skip(1));
        assert(crate::commit_store::spec_has_commit_key(rows, c.repository_id, c.oid@, c.branch@)
            == spec_has_key_v(rv, c@.repository_id, c@.oid, c@.branch)) by {
            if crate::commit_store::spec_has_commit_key(rows, c.repository_id, c.oid@, c.branch@) {
                let i = choose|i: int|
                    0 <= i < rows.len() && crate::commit_store::spec_commit_key(
                        #[trigger] rows[i],
                        c.repository_id,
                        c.oid@,
                        c.branch@,
                    );
                assert(rv[i].repository_id == c@.repository_id && rv[i].oid == c@.oid && rv[i].branch
                    == c@.branch);
            }
            if spec_has_key_v(rv, c@.repository_id, c@.oid, c@.branch) {
                let i = choose|i: int|
                    0 <= i < rv.len() && (#[trigger] rv[i]).repository_id == c@.repository_id
                        && rv[i].oid == c@.oid && rv[i].branch == c@.branch;
                assert(crate::commit_store::spec_commit_key(
                    rows[i],
                    c.repository_id,
                    c.oid@,
                    c.branch@,
                ));
            }
        }
        if crate::commit_store::spec_has_commit_key(rows, c.repository_id, c.oid@, c.branch@) {
            lemma_bulk_insert_views(rows, cs.skip(1), nid);
        } else {
            let pushed = Commit { id: nid as i64, ..c };
            assert(pushed@ =~~= (CommitRowView { id: nid as i64, ..c@ }));
            assert(commit_row_views(rows.push(pushed)) =~= rv.push(
                CommitRowView { id: nid as i64, ..c@ },
            ));
            lemma_bulk_insert_views(rows.push(pushed), cs.skip(1), nid + 1);
        }
    }
}

/// The store's cursor, seen through row views, is the model's.
pub proof fn lemma_latest_views(rows: Seq<Commit>, rid: i64, branch: Seq<char>)
    ensures
        spec_latest_idx(rows, rid, branch) == spec_latest_idx_v(commit_row_views(rows), rid, branch),
    decreases rows.len(),
{
    let rv = commit_row_views(rows);
    if rows.len() > 0 {
        lemma_latest_views(rows.drop_last(), rid, branch);
        assert(commit_row_views(rows.drop_last()) =~= rv.drop_last());
        let k = rows.len() - 1;
        assert(rv[k] == rows[k]@);
        crate::commit_store::lemma_latest_props(rows.drop_last(), rid, branch);
        match spec_latest_idx(rows.drop_last(), rid, branch) {
            Option::Some(i) => {
                assert(rows.drop_last()[i] == rows[i]);
                assert(rv[i] == rows[i]@);
            },
            Option::None => {},
        }
    }
}

/// The index worker: runs one repository pass against the stores.
pub struct IndexWorker {
    pub max_commits_per_branch: usize,
}

impl IndexWorker {
    pub fn new(max_commits_per_branch: usize) -> (r: Self)
        ensures
            r.max_commits_per_branch == max_commits_per_branch,
    {
        IndexWorker { max_commits_per_branch }
    }

    /// Indexes one repository from a snapshot of its branches and walks:
    /// every listed branch is upserted, then each remote-tracking branch
    /// is walked from its cursor and its new commits are inserted, with
    /// failures counted per branch. The stores end exactly as the model
    /// `spec_index_repo` says, with branch rows recorded before commits.
    pub fn index_repository(
        &self,
        repository_id: i64,
        repo: &RepoSnapshot,
        commit_store: &mut CommitStore,
        branch_store: &mut BranchStore,
        now: i64,
    ) -> (r: IndexResult)
        requires
            old(commit_store).wf(),
            old(branch_store).wf(),
            old(branch_store).next_id() as int + repo.branches@.len() <= i64::MAX,
            old(commit_store).next_id() as int + repo.branches@.len() * (
            self.max_commits_per_branch as int) <= i64::MAX,
            repo.branches@.len() * (self.max_commits_per_branch as int) <= usize::MAX,
        ensures
            final(commit_store).wf(),
            final(branch_store).wf(),
            final(branch_store).rows() == spec_upsert_branches(
                old(branch_store).rows(),
                spec_branch_entities(repo.branches@, repository_id, now),
                old(branch_store).next_id() as int,
            ).0,
            final(branch_store).next_id() as int == spec_upsert_branches(
                old(branch_store).rows(),
                spec_branch_entities(repo.branches@, repository_id, now),
                old(branch_store).next_id() as int,
            ).1,
            ({
                let m = spec_index_repo(
                    commit_row_views(old(commit_store).rows()),
                    old(commit_store).next_id() as int,
                    repository_id,
                    repo.branches@,
                    repo.logs@,
                    self.max_commits_per_branch as nat,
                    now,
                );
                &&& commit_row_views(final(commit_store).rows()) == m.rows
                &&& final(commit_store).next_id() as int == m.next_id
                &&& r.commits_indexed == m.commits_indexed
                &&& r.branches_indexed == m.branches_indexed
                &&& r.branches_failed == m.branches_failed
            }),
    {
        let ghost init_rows = commit_row_views(old(commit_store).rows());
        let ghost init_nid = old(commit_store).next_id() as int;
        let ghost limit = self.max_commits_per_branch as nat;
        let ghost model = spec_index_repo(
            init_rows,
            init_nid,
            repository_id,
            repo.branches@,
            repo.logs@,
            limit,
            now,
        );

        // Persist the branch listing first, so the branch picker stays
        // current even if no branch is content-indexed below.
        let nb = repo.branches.len();
        let mut entities: Vec<Branch> = Vec::new();
        let mut i: usize = 0;
        while i < nb
            invariant
                i <= nb,
                nb == repo.branches@.len(),
                entities@.len() == i,
                forall|k: int|
                    0 <= k < i ==> entities@[k] == spec_branch_entity(
                        #[trigger] repo.branches@[k],
                        repository_id,
                        now,
                    ),
            decreases nb - i,
        {
            let b = &repo.branches[i];
            entities.push(
                Branch {
                    id: 0,
                    repository_id,
                    name: b.name.clone(),
                    target_oid: b.target_oid.clone(),
                    is_default: b.is_head,
                    updated_at: now,
                },
            );
            i = i + 1;
        }
        proof {
            assert(entities@ =~= spec_branch_entities(repo.branches@, repository_id, now));
        }
        if entities.len() > 0 {
            branch_store.save_many(&entities);
        } else {
            proof {
                assert(spec_branch_entities(repo.branches@, repository_id, now)
                    =~= Seq::<Branch>::empty());
            }
        }

        let mut result = IndexResult { commits_indexed: 0, branches_indexed: 0, branches_failed: 0 };
        let mut i: usize = 0;
        proof {
            assert(repo.branches@.skip(0) =~= repo.branches@);
        }
        while i < nb
            invariant
                i <= nb,
                nb == repo.branches@.len(),
                commit_store.wf(),
                limit == self.max_commits_per_branch as nat,
                model == spec_index_repo(
                    init_rows,
                    init_nid,
                    repository_id,
                    repo.branches@,
                    repo.logs@,
                    limit,
                    now,
                ),
                commit_store.next_id() as int + (nb - i) * (limit as int) <= i64::MAX,
                1 <= init_nid,
                init_nid + (nb as int) * (limit as int) <= i64::MAX,
                (nb as int) * (limit as int) <= usize::MAX,
                result.commits_indexed as int <= (i as int) * (limit as int),
                result.branches_indexed + result.branches_failed <= i,
                ({
                    let rest = spec_index_repo(
                        commit_row_views(commit_store.rows()),
                        commit_store.next_id() as int,
                        repository_id,
                        repo.branches@.skip(i as int),
                        repo.logs@,
                        limit,
                        now,
                    );
                    &&& model.rows == rest.rows
                    &&& model.next_id == rest.next_id
                    &&& model.branches_indexed == result.branches_indexed + rest.branches_indexed
                    &&& model.branches_failed == result.branches_failed + rest.branches_failed
                    &&& model.commits_indexed == result.commits_indexed + rest.commits_indexed
                }),
            decreases nb - i,
        {
            proof {
                assert(repo.branches@.skip(i as int)[0] == repo.branches@[i as int]);
                assert(repo.branches@.skip(i as int).skip(1) =~= repo.branches@.skip(i + 1));
                assert((nb - i) * (limit as int) == (nb - i - 1) * (limit as int) + (limit as int))
                    by (nonlinear_arith);
                assert((i as int) * (limit as int) + (limit as int) == (i as int + 1) * (
                limit as int)) by (nonlinear_arith);
            }
            let b = &repo.branches[i];
            if str_starts_with(b.name.as_str(), "origin/") {
                let ghost pre_rows = commit_row_views(commit_store.rows());
                let ghost pre_nid = commit_store.next_id() as int;
                let outcome = self.index_branch(repository_id, repo, &b.name, commit_store, now);
                proof {
                    let step = spec_index_branch_step(
                        pre_rows,
                        pre_nid,
                        repository_id,
                        repo.branches@[i as int].name@,
                        repo.logs@,
                        limit,
                        now,
                    );
                    let ref_name = "refs/remotes/"@ + repo.branches@[i as int].name@;
                    match spec_find_log(repo.logs@, ref_name) {
                        Option::Some(log) => {
                            let cursor = spec_cursor_v(
                                pre_rows,
                                repository_id,
                                repo.branches@[i as int].name@,
                            );
                            let sel = spec_select(log, limit, cursor);
                            lemma_select_len(log, limit, cursor);
                            lemma_bulk_v_next_bound(
                                pre_rows,
                                spec_batch_views(
                                    sel,
                                    repository_id,
                                    repo.branches@[i as int].name@,
                                    now,
                                ),
                                pre_nid,
                            );
                            assert(step.count <= limit);
                            assert(step.next_id <= pre_nid + limit as int);
                        },
                        Option::None => {},
                    }
                    assert((i as int + 1) * (limit as int) <= (nb as int) * (limit as int))
                        by (nonlinear_arith)
                        requires
                            0 <= limit as int,
                            i as int + 1 <= nb as int,
                    ;
                    assert((nb as int) * (limit as int) <= i64::MAX - init_nid);
                }
                match outcome {
                    Ok(count) => {
                        result.commits_indexed = result.commits_indexed + count;
                        result.branches_indexed = result.branches_indexed + 1;
                    },
                    Err(_) => {
                        result.branches_failed = result.branches_failed + 1;
                    },
                }
            }
            i = i + 1;
        }
        proof {
            assert(repo.branches@.skip(nb as int) =~= Seq::<GitBranch>::empty());
        }
        result
    }

    /// Walks one remote-tracking branch from its cursor and inserts what
    /// the walk yields, exactly one model step. A ref that does not
    /// resolve is the branch's failure; the stores are left alone.
    fn index_branch(
        &self,
        repository_id: i64,
        repo: &RepoSnapshot,
        name: &String,
        commit_store: &mut CommitStore,
        now: i64,
    ) -> (r: Result<usize, GitxError>)
        requires
            old(commit_store).wf(),
            old(commit_store).next_id() as int + self.max_commits_per_branch as int <= i64::MAX,
        ensures
            final(commit_store).wf(),
            ({
                let step = spec_index_branch_step(
                    commit_row_views(old(commit_store).rows()),
                    old(commit_store).next_id() as int,
                    repository_id,
                    name@,
                    repo.logs@,
                    self.max_commits_per_branch as nat,
                    now,
                );
                &&& commit_row_views(final(commit_store).rows()) == step.rows
                &&& final(commit_store).next_id() as int == step.next_id
                &&& (match r {
                    Ok(count) => step.ok && count == step.count,
                    Err(_) => !step.ok,
                })
            }),
    {
        let ghost rows0 = commit_row_views(old(commit_store).rows());
        let cursor = commit_store.get_latest_commit(repository_id, name.as_str());
        proof {
            lemma_latest_views(commit_store.rows(), repository_id, name@);
        }
        let since: Option<&str> = match &cursor {
            Option::Some(c) => Option::Some(c.oid.as_str()),
            Option::None => Option::None,
        };
        proof {
            assert(crate::gitmodel::spec_since(since) == spec_cursor_v(rows0, repository_id, name@));
        }
        let ref_name = String::from_str("refs/remotes/").concat(name.as_str());
        proof {
            assert(ref_name@ == "refs/remotes/"@ + name@);
        }
        let log = match repo.find_log(ref_name.as_str()) {
            Option::Some(log) => log,
            Option::None => {
                return Err(GitxError::ReferenceNotFound(ref_name));
            },
        };
        let selected = select_commits(log, self.max_commits_per_branch, since);
        let ghost sel = spec_select(
            commit_views(log@),
            self.max_commits_per_branch as nat,
            spec_cursor_v(rows0, repository_id, name@),
        );
        proof {
            lemma_select_len(
                commit_views(log@),
                self.max_commits_per_branch as nat,
                spec_cursor_v(rows0, repository_id, name@),
            );
        }
        let count = selected.len();
        if count == 0 {
            proof {
                let batch = spec_batch_views(sel, repository_id, name@, now);
                assert(batch.len() == 0);
                assert(spec_bulk_insert_v(rows0, batch, old(commit_store).next_id() as int).0
                    == rows0);
            }
            return Ok(0);
        }
        let mut batch: Vec<Commit> = Vec::new();
        let mut k: usize = 0;
        while k < count
            invariant
                k <= count,
                count == selected@.len(),
                commit_views(selected@) == sel,
                batch@.len() == k,
                forall|j: int|
                    0 <= j < k ==> (#[trigger] batch@[j])@ == spec_converted_row(
                        sel[j],
                        repository_id,
                        name@,
                        now,
                    ),
            decreases count - k,
        {
            proof {
                assert(commit_views(selected@)[k as int] == selected@[k as int]@);
            }
            let row = convert_commit(&selected[k], repository_id, name, now);
            batch.push(row);
            k = k + 1;
        }
        proof {
            assert(commit_row_views(batch@) =~= spec_batch_views(sel, repository_id, name@, now));
        }
        let offered = commit_store.bulk_insert(&batch);
        proof {
            lemma_bulk_insert_views(
                old(commit_store).rows(),
                batch@,
                old(commit_store).next_id() as int,
            );
        }
        Ok(offered)
    }
}

/// Converts one walked commit into the row recorded for a branch.
fn convert_commit(g: &crate::gitmodel::GitCommit, repository_id: i64, name: &String, now: i64) -> (r:
    Commit)
    ensures
        r@ == spec_converted_row(g@, repository_id, name@, now),
{
    let base = Commit::new_at(
        repository_id,
        g.oid.clone(),
        name.clone(),
        g.author_name.clone(),
        g.author_email.clone(),
        g.author_time,
        g.committer_name.clone(),
        g.committer_email.clone(),
        g.committer_time,
        g.summary.clone(),
        now,
    );
    let message = match &g.message {
        Option::Some(m) => m.clone(),
        Option::None => String::new(),
    };
    let with_msg = base.with_message(message);
    let parents = g.parent_oids.clone();
    proof {
        assert(parents.deep_view() =~= g.parent_oids.deep_view());
    }
    let done = with_msg.with_parents(parents);
    proof {
        assert(done@ =~~= spec_converted_row(g@, repository_id, name@, now));
    }
    done
}

} // verus!
