//! The indexer scheduler's decisions for one cycle: record every
//! discovered repository, hand each one to the index worker whenever its
//! snapshot could be read, and aggregate the outcomes. The surrounding
//! application owns the timer loop, the concurrency fan-out and the
//! fetches; a failed or timed-out fetch changes nothing here, because the
//! cycle prefers degraded freshness over halting.

use vstd::prelude::*;
use crate::branch_store::{spec_upsert_branches, BranchStore};
use crate::commit_store::CommitStore;
use crate::config::IndexerConfig;
use crate::discovery::DiscoveredRepo;
use crate::entities::{repo_row_views, CommitRowView, Branch, RepoRowView, Repository};
use crate::error::GitxError;
use crate::gitmodel::{FetchResult, RepoSnapshot};
use crate::repository_store::RepositoryStore;
use crate::table::spec_find_first;
use crate::text::{i64_to_string, spec_signed_decimal};
use crate::worker::{spec_branch_entities, spec_index_repo, IndexResult, IndexWorker};

verus! {

/// What one cycle reports: every discovered repository ends up counted
/// as synced or failed.
#[derive(Debug, PartialEq, Eq)]
pub struct IndexStats {
    pub repos_discovered: usize,
    pub repos_synced: usize,
    pub repos_failed: usize,
}

impl Default for IndexStats {
    /// An empty tally.
    fn default() -> (r: Self)
        ensures
            r.repos_discovered == 0,
            r.repos_synced == 0,
            r.repos_failed == 0,
    {
        IndexStats { repos_discovered: 0, repos_synced: 0, repos_failed: 0 }
    }
}

/// One repository's share of a cycle, as the application's concurrent
/// task gathered it: the discovery, what the fetch reported (ignored by
/// the decisions, logged only), and the snapshot of branches and walks.
/// An absent snapshot models the task's failure: the backend could not
/// read the repository, or the task itself fell over.
#[derive(Debug)]
pub struct RepoTask {
    pub repo: DiscoveredRepo,
    pub fetched: Option<FetchResult>,
    pub snapshot: Option<RepoSnapshot>,
}

/// The three stores' contents, as one cycle's model state.
pub struct CycleState {
    pub repo_rows: Seq<RepoRowView>,
    pub repo_next: int,
    pub branch_rows: Seq<Branch>,
    pub branch_next: int,
    pub commit_rows: Seq<CommitRowView>,
    pub commit_next: int,
}

/// The row a fresh repository is recorded as.
pub open spec fn spec_fresh_repo_row(name: Seq<char>, path: Seq<char>, id: int, now: i64) -> RepoRowView {
    RepoRowView {
        id: id as i64,
        name,
        path,
        description: Option::None,
        default_branch: "main"@,
        last_synced_at: Option::None,
        created_at: now,
        updated_at: now,
    }
}

/// The slot of the row with a path, if any.
pub open spec fn spec_find_repo_by_path(rows: Seq<RepoRowView>, path: Seq<char>) -> Option<int> {
    spec_find_first(rows, |r: RepoRowView| r.path == path)
}

/// Recording a discovery: a known path has its sync time stamped, an
/// unknown one gets a fresh row without one. Yields the row's id.
pub open spec fn spec_record_discovered(
    rows: Seq<RepoRowView>,
    next: int,
    name: Seq<char>,
    path: Seq<char>,
    now: i64,
) -> (Seq<RepoRowView>, int, int) {
    match spec_find_repo_by_path(rows, path) {
        Option::Some(i) => (
            rows.update(
                i,
                RepoRowView { last_synced_at: Option::Some(now), updated_at: now, ..rows[i] },
            ),
            next,
            rows[i].id as int,
        ),
        Option::None => (rows.push(spec_fresh_repo_row(name, path, next, now)), next + 1, next),
    }
}

/// One repository's task over the model: record it, then, when its
/// snapshot was read, run the worker's repository pass; otherwise count
/// it failed and move on. Either way the other tasks are untouched.
pub open spec fn spec_run_task(s: CycleState, task: RepoTask, limit: nat, now: i64) -> (
    CycleState,
    bool,
) {
    let rec = spec_record_discovered(s.repo_rows, s.repo_next, task.repo.name@, task.repo.path@, now);
    let s1 = CycleState { repo_rows: rec.0, repo_next: rec.1, ..s };
    match task.snapshot {
        Option::None => (s1, false),
        Option::Some(snap) => {
            let rid = rec.2 as i64;
            let bs = spec_upsert_branches(
                s1.branch_rows,
                spec_branch_entities(snap.branches@, rid, now),
                s1.branch_next,
            );
            let m = spec_index_repo(
                s1.commit_rows,
                s1.commit_next,
                rid,
                snap.branches@,
                snap.logs@,
                limit,
                now,
            );
            (
                CycleState {
                    branch_rows: bs.0,
                    branch_next: bs.1,
                    commit_rows: m.rows,
                    commit_next: m.next_id,
                    ..s1
                },
                true,
            )
        },
    }
}

/// A whole cycle over the model, task by task, tallying synced and
/// failed repositories.
pub open spec fn spec_run_cycle(s: CycleState, tasks: Seq<RepoTask>, limit: nat, now: i64) -> (
    CycleState,
    nat,
    nat,
)
    decreases tasks.len(),
{
    if tasks.len() == 0 {
        (s, 0, 0)
    } else {
        let step = spec_run_task(s, tasks[0], limit, now);
        let rest = spec_run_cycle(step.0, tasks.skip(1), limit, now);
        (
            rest.0,
            rest.1 + if step.1 {
                1nat
            } else {
                0nat
            },
            rest.2 + if step.1 {
                0nat
            } else {
                1nat
            },
        )
    }
}

/// How many branches the cycle's snapshots list in all: the budget its
/// insertions can need.
pub open spec fn spec_total_branches(tasks: Seq<RepoTask>) -> int
    decreases tasks.len(),
{
    if tasks.len() == 0 {
        0
    } else {
        (match tasks[0].snapshot {
            Option::Some(snap) => snap.branches@.len() as int,
            Option::None => 0,
        }) + spec_total_branches(tasks.skip(1))
    }
}

/// The total branch count never goes below zero.
pub proof fn lemma_total_branches_nonneg(tasks: Seq<RepoTask>)
    ensures
        spec_total_branches(tasks) >= 0,
    decreases tasks.len(),
{
    if tasks.len() > 0 {
        lemma_total_branches_nonneg(tasks.skip(1));
    }
}

/// The store's first-match by path, seen through row views, is the
/// model's.
pub proof fn lemma_find_repo_by_path_views(rows: Seq<Repository>, path: Seq<char>)
    ensures
        spec_find_first(rows, |r: Repository| r.path@ == path) == spec_find_repo_by_path(
            repo_row_views(rows),
            path,
        ),
    decreases rows.len(),
{
    let rv = repo_row_views(rows);
    if rows.len() > 0 {
        assert(rv[0] == rows[0]@);
        if rows[0].path@ != path {
            lemma_find_repo_by_path_views(rows.skip(1), path);
            assert(repo_row_views(rows.skip(1)) =~= rv.skip(1));
        }
    }
}

/// The scheduler's decision core: drives one cycle's store updates and
/// the manual trigger path.
pub struct IndexerScheduler {
    pub indexer: IndexerConfig,
}

impl IndexerScheduler {
    pub fn new(indexer: IndexerConfig) -> (r: Self)
        ensures
            r.indexer == indexer,
    {
        IndexerScheduler { indexer }
    }

    /// Records one discovered repository and yields its row id: a known
    /// path is stamped as synced now, a new path gets a fresh row.
    fn record_discovered(
        &self,
        repo_store: &mut RepositoryStore,
        discovered: &DiscoveredRepo,
        now: i64,
    ) -> (r: i64)
        requires
            old(repo_store).wf(),
            old(repo_store).next_id() < i64::MAX,
        ensures
            final(repo_store).wf(),
            ({
                let rec = spec_record_discovered(
                    repo_row_views(old(repo_store).rows()),
                    old(repo_store).next_id() as int,
                    discovered.name@,
                    discovered.path@,
                    now,
                );
                &&& repo_row_views(final(repo_store).rows()) == rec.0
                &&& final(repo_store).next_id() as int == rec.1
                &&& r as int == rec.2
            }),
    {
        let ghost rows0 = old(repo_store).rows();
        let ghost p: Seq<char> = discovered.path@;
        let ghost pred_v = |row: Repository| row.path@ == p;
        let path_str = discovered.path.as_str();
        let ghost pred = |row: Repository| row.path@ == path_str@;
        proof {
            lemma_find_repo_by_path_views(rows0, p);
            assert(pred =~= pred_v);
        }
        let found = repo_store.find_by_path(path_str);
        match found {
            Option::Some(existing) => {
                let mut repo = existing;
                repo.update_sync_time_at(now);
                let id = repo_store.save(&repo);
                proof {
                    let i = spec_find_first(rows0, pred)->0;
                    crate::table::lemma_find_first_props(rows0, pred);
                    let pred_saved = |row: Repository| row.path@ == repo.path@;
                    assert(repo.path@ == p);
                    assert(pred_saved =~= pred_v);
                    assert forall|j: int| 0 <= j < i implies !pred_saved(#[trigger] rows0[j]) by {
                        assert(!pred(rows0[j]));
                    }
                    crate::table::lemma_find_first_of(rows0, pred_saved, i);
                    assert(spec_find_first(rows0, pred_saved) == Option::Some(i));
                    assert(spec_find_repo_by_path(repo_row_views(rows0), p) == Option::Some(i));
                    let written = crate::repository_store::spec_upserted_repo(rows0[i], repo);
                    assert(written == (Repository {
                        last_synced_at: Option::Some(now),
                        updated_at: now,
                        ..rows0[i]
                    }));
                    assert(repo_row_views(repo_store.rows()) =~= repo_row_views(rows0).update(
                        i,
                        (RepoRowView {
                            last_synced_at: Option::Some(now),
                            updated_at: now,
                            ..repo_row_views(rows0)[i]
                        }),
                    ));
                }
                id
            },
            Option::None => {
                let fresh = Repository::new_at(discovered.name.clone(), discovered.path.clone(), now);
                let id = repo_store.save(&fresh);
                proof {
                    let pred_saved = |row: Repository| row.path@ == fresh.path@;
                    crate::table::lemma_find_first_props(rows0, pred);
                    assert(fresh.path@ == p);
                    assert(pred_saved =~= pred_v);
                    assert forall|j: int| 0 <= j < rows0.len() implies !pred_saved(
                        #[trigger] rows0[j],
                    ) by {
                        assert(!pred(rows0[j]));
                    }
                    crate::table::lemma_find_first_none(rows0, pred_saved);
                    assert(spec_find_first(rows0, pred_saved) is None);
                    assert(spec_find_repo_by_path(repo_row_views(rows0), p) is None);
                    let pushed = Repository { id: old(repo_store).next_id(), ..fresh };
                    assert(pushed@ =~~= spec_fresh_repo_row(
                        discovered.name@,
                        discovered.path@,
                        old(repo_store).next_id() as int,
                        now,
                    ));
                    assert(repo_row_views(repo_store.rows()) =~= repo_row_views(rows0).push(
                        pushed@,
                    ));
                }
                id
            },
        }
    }

    /// Runs one cycle's decisions over the gathered tasks: every
    /// repository is recorded, each readable snapshot is indexed, and the
    /// tally always accounts for every discovered repository — one
    /// repository's failure never keeps another from its outcome.
    pub fn run_index_cycle(
        &self,
        tasks: &Vec<RepoTask>,
        repo_store: &mut RepositoryStore,
        commit_store: &mut CommitStore,
        branch_store: &mut BranchStore,
        now: i64,
    ) -> (stats: IndexStats)
        requires
            old(repo_store).wf(),
            old(commit_store).wf(),
            old(branch_store).wf(),
            old(repo_store).next_id() as int + tasks@.len() <= i64::MAX,
            old(branch_store).next_id() as int + spec_total_branches(tasks@) <= i64::MAX,
            old(commit_store).next_id() as int + spec_total_branches(tasks@) * (
            self.indexer.max_commits_per_branch as int) <= i64::MAX,
            spec_total_branches(tasks@) * (self.indexer.max_commits_per_branch as int)
                <= usize::MAX,
        ensures
            final(repo_store).wf(),
            final(commit_store).wf(),
            final(branch_store).wf(),
            stats.repos_discovered == tasks@.len(),
            stats.repos_synced + stats.repos_failed == stats.repos_discovered,
            ({
                let outcome = spec_run_cycle(
                    CycleState {
                        repo_rows: repo_row_views(old(repo_store).rows()),
                        repo_next: old(repo_store).next_id() as int,
                        branch_rows: old(branch_store).rows(),
                        branch_next: old(branch_store).next_id() as int,
                        commit_rows: crate::entities::commit_row_views(old(commit_store).rows()),
                        commit_next: old(commit_store).next_id() as int,
                    },
                    tasks@,
                    self.indexer.max_commits_per_branch as nat,
                    now,
                );
                &&& repo_row_views(final(repo_store).rows()) == outcome.0.repo_rows
                &&& final(repo_store).next_id() as int == outcome.0.repo_next
                &&& final(branch_store).rows() == outcome.0.branch_rows
                &&& final(branch_store).next_id() as int == outcome.0.branch_next
                &&& crate::entities::commit_row_views(final(commit_store).rows())
                    == outcome.0.commit_rows
                &&& final(commit_store).next_id() as int == outcome.0.commit_next
                &&& stats.repos_synced == outcome.1
                &&& stats.repos_failed == outcome.2
            }),
    {
        let ghost limit = self.indexer.max_commits_per_branch as nat;
        let ghost init = CycleState {
            repo_rows: repo_row_views(old(repo_store).rows()),
            repo_next: old(repo_store).next_id() as int,
            branch_rows: old(branch_store).rows(),
            branch_next: old(branch_store).next_id() as int,
            commit_rows: crate::entities::commit_row_views(old(commit_store).rows()),
            commit_next: old(commit_store).next_id() as int,
        };
        let ghost outcome = spec_run_cycle(init, tasks@, limit, now);
        let n = tasks.len();
        let mut stats = IndexStats { repos_discovered: n, repos_synced: 0, repos_failed: 0 };
        let mut i: usize = 0;
        proof {
            assert(tasks@.skip(0) =~= tasks@);
        }
        while i < n
            invariant
                i <= n,
                n == tasks@.len(),
                repo_store.wf(),
                commit_store.wf(),
                branch_store.wf(),
                limit == self.indexer.max_commits_per_branch as nat,
                stats.repos_discovered == n,
                stats.repos_synced + stats.repos_failed == i,
                outcome == spec_run_cycle(init, tasks@, limit, now),
                repo_store.next_id() as int + (n - i) <= i64::MAX,
                branch_store.next_id() as int + spec_total_branches(tasks@.skip(i as int))
                    <= i64::MAX,
                commit_store.next_id() as int + spec_total_branches(tasks@.skip(i as int)) * (
                limit as int) <= i64::MAX,
                spec_total_branches(tasks@.skip(i as int)) * (limit as int) <= usize::MAX,
                ({
                    let rest = spec_run_cycle(
                        CycleState {
                            repo_rows: repo_row_views(repo_store.rows()),
                            repo_next: repo_store.next_id() as int,
                            branch_rows: branch_store.rows(),
                            branch_next: branch_store.next_id() as int,
                            commit_rows: crate::entities::commit_row_views(commit_store.rows()),
                            commit_next: commit_store.next_id() as int,
                        },
                        tasks@.skip(i as int),
                        limit,
                        now,
                    );
                    &&& outcome.0 == rest.0
                    &&& outcome.1 == stats.repos_synced + rest.1
                    &&& outcome.2 == stats.repos_failed + rest.2
                }),
            decreases n - i,
        {
            proof {
                assert(tasks@.skip(i as int)[0] == tasks@[i as int]);
                assert(tasks@.skip(i as int).skip(1) =~= tasks@.skip(i + 1));
                lemma_total_branches_nonneg(tasks@.skip(i + 1));
            }
            let task = &tasks[i];
            let id = self.record_discovered(repo_store, &task.repo, now);
            match &task.snapshot {
                Option::Some(snap) => {
                    proof {
                        let nb = snap.branches@.len() as int;
                        let tail = spec_total_branches(tasks@.skip(i + 1));
                        let rem = spec_total_branches(tasks@.skip(i as int));
                        assert(rem == nb + tail);
                        assert(nb * (limit as int) + tail * (limit as int) == rem * (limit as int))
                            by (nonlinear_arith)
                            requires
                                rem == nb + tail,
                        ;
                        assert(tail * (limit as int) >= 0) by (nonlinear_arith)
                            requires
                                tail >= 0,
                                limit as int >= 0,
                        ;
                        assert(nb * (limit as int) >= 0) by (nonlinear_arith)
                            requires
                                nb >= 0,
                                limit as int >= 0,
                        ;
                    }
                    let ghost pre_crows = crate::entities::commit_row_views(commit_store.rows());
                    let ghost pre_cnid = commit_store.next_id() as int;
                    let ghost pre_brows = branch_store.rows();
                    let ghost pre_bnid = branch_store.next_id() as int;
                    let worker = IndexWorker::new(self.indexer.max_commits_per_branch);
                    let _ = worker.index_repository(id, snap, commit_store, branch_store, now);
                    stats.repos_synced = stats.repos_synced + 1;
                    proof {
                        crate::worker::lemma_index_repo_next_bound(
                            pre_crows,
                            pre_cnid,
                            id,
                            snap.branches@,
                            snap.logs@,
                            limit,
                            now,
                        );
                        crate::branch_store::lemma_upsert_branches_next_bound(
                            pre_brows,
                            spec_branch_entities(snap.branches@, id, now),
                            pre_bnid,
                        );
                    }
                },
                Option::None => {
                    stats.repos_failed = stats.repos_failed + 1;
                },
            }
            i = i + 1;
        }
        proof {
            assert(tasks@.skip(n as int) =~= Seq::<RepoTask>::empty());
        }
        stats
    }

    /// The manual trigger's lookup: the repository by id, or the error
    /// the caller is shown.
    pub fn trigger_lookup(&self, repo_store: &RepositoryStore, repository_id: i64) -> (r: Result<
        Repository,
        GitxError,
    >)
        ensures
            match r {
                Ok(repo) => {
                    &&& spec_find_first(
                        repo_store.rows(),
                        |row: Repository| row.id == repository_id,
                    ) matches Option::Some(i)
                    &&& 0 <= i < repo_store.rows().len()
                    &&& repo == repo_store.rows()[i]
                },
                Err(e) => {
                    &&& spec_find_first(repo_store.rows(), |row: Repository| row.id == repository_id)
                        is None
                    &&& e matches GitxError::RepositoryNotFound(msg)
                    &&& msg@ == spec_signed_decimal(repository_id as int)
                },
            },
    {
        match repo_store.find_by_id(repository_id) {
            Option::Some(repo) => Ok(repo),
            Option::None => Err(GitxError::RepositoryNotFound(i64_to_string(repository_id))),
        }
    }

    /// The manual trigger's indexing step, run after the caller fetched:
    /// one worker pass, then the repository's sync time is stamped. Unlike
    /// the scheduled path, the caller sees the pass's outcome directly.
    pub fn trigger_index(
        &self,
        repository_id: i64,
        snapshot: &RepoSnapshot,
        repo_store: &mut RepositoryStore,
        commit_store: &mut CommitStore,
        branch_store: &mut BranchStore,
        now: i64,
    ) -> (r: IndexResult)
        requires
            old(repo_store).wf(),
            old(commit_store).wf(),
            old(branch_store).wf(),
            old(branch_store).next_id() as int + snapshot.branches@.len() <= i64::MAX,
            old(commit_store).next_id() as int + snapshot.branches@.len() * (
            self.indexer.max_commits_per_branch as int) <= i64::MAX,
            snapshot.branches@.len() * (self.indexer.max_commits_per_branch as int) <= usize::MAX,
        ensures
            final(repo_store).wf(),
            final(commit_store).wf(),
            final(branch_store).wf(),
            final(branch_store).rows() == spec_upsert_branches(
                old(branch_store).rows(),
                spec_branch_entities(snapshot.branches@, repository_id, now),
                old(branch_store).next_id() as int,
            ).0,
            ({
                let m = spec_index_repo(
                    crate::entities::commit_row_views(old(commit_store).rows()),
                    old(commit_store).next_id() as int,
                    repository_id,
                    snapshot.branches@,
                    snapshot.logs@,
                    self.indexer.max_commits_per_branch as nat,
                    now,
                );
                &&& crate::entities::commit_row_views(final(commit_store).rows()) == m.rows
                &&& r.commits_indexed == m.commits_indexed
                &&& r.branches_indexed == m.branches_indexed
                &&& r.branches_failed == m.branches_failed
            }),
            match spec_find_first(old(repo_store).rows(), |row: Repository| row.id == repository_id) {
                Option::Some(i) => final(repo_store).rows() == old(repo_store).rows().update(
                    i,
                    (Repository {
                        last_synced_at: Option::Some(now),
                        updated_at: now,
                        ..old(repo_store).rows()[i]
                    }),
                ),
                Option::None => final(repo_store).rows() == old(repo_store).rows(),
            },
    {
        let worker = IndexWorker::new(self.indexer.max_commits_per_branch);
        let result = worker.index_repository(
            repository_id,
            snapshot,
            commit_store,
            branch_store,
            now,
        );
        repo_store.update_sync_time_at(repository_id, now);
        result
    }
}

} // verus!
