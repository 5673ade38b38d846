use gitx::branch_store::BranchStore;
use gitx::commit_store::CommitStore;
use gitx::config::IndexerConfig;
use gitx::discovery::{DiscoveredRepo, RepositoryDiscovery, ScanProbe};
use gitx::error::GitxError;
use gitx::gitmodel::{normalize_branches, parse_oid_lines, select_commits, BranchEntry, GitBranch,
    GitCommit, RefLog, RepoSnapshot};
use gitx::repository_store::RepositoryStore;
use gitx::scheduler::{IndexerScheduler, RepoTask};
use gitx::worker::IndexWorker;

fn commit(oid: &str, author: &str, summary: &str, time: i64, parents: &[&str]) -> GitCommit {
    GitCommit {
        oid: oid.to_string(),
        author_name: author.to_string(),
        author_email: format!("{}@example.com", author),
        author_time: time,
        committer_name: author.to_string(),
        committer_email: format!("{}@example.com", author),
        committer_time: time,
        summary: summary.to_string(),
        message: Some(format!("{}\n\nbody", summary)),
        parent_oids: parents.iter().map(|p| p.to_string()).collect(),
    }
}

fn branch(name: &str, target: &str, is_head: bool) -> GitBranch {
    GitBranch { name: name.to_string(), target_oid: target.to_string(), is_head }
}

/// The end-to-end snapshot: a main branch of five ordinary commits and one
/// merge, and a feature branch adding two commits, one of them a
/// cherry-pick sharing author and summary with a main commit.
fn sample_snapshot() -> RepoSnapshot {
    let main_log = vec![
        commit("m5", "ada", "five", 50, &["m4"]),
        commit("mm", "bob", "merge branch", 45, &["m4", "f0"]),
        commit("m4", "ada", "four", 40, &["m3"]),
        commit("m3", "bob", "three", 30, &["m2"]),
        commit("m2", "ada", "two", 20, &["m1"]),
        commit("m1", "ada", "one", 10, &[]),
    ];
    let feature_log = vec![
        commit("f2", "cyd", "feature work", 70, &["f1"]),
        commit("f1", "ada", "four", 60, &["m5"]),
    ];
    RepoSnapshot {
        branches: vec![branch("origin/main", "m5", true), branch("origin/feature", "f2", false)],
        logs: vec![
            RefLog { ref_name: "refs/remotes/origin/main".to_string(), commits: main_log },
            RefLog { ref_name: "refs/remotes/origin/feature".to_string(), commits: feature_log },
        ],
    }
}

#[test]
fn branch_listing_skips_malformed_entries() {
    let entries = vec![
        BranchEntry { name: Some("origin/main".to_string()), target_oid: Some("m5".to_string()) },
        BranchEntry { name: None, target_oid: Some("x".to_string()) },
        BranchEntry { name: Some("origin/dev".to_string()), target_oid: None },
        BranchEntry { name: Some("origin/old".to_string()), target_oid: Some("o1".to_string()) },
    ];
    let branches = normalize_branches(&entries, Some("origin/main"));
    assert_eq!(branches.len(), 2);
    assert_eq!(branches[0].name, "origin/main");
    assert!(branches[0].is_head);
    assert_eq!(branches[1].name, "origin/old");
    assert!(!branches[1].is_head);
}

#[test]
fn range_log_lines_are_trimmed_and_filtered() {
    let parsed = parse_oid_lines("abc\r\n\n  def \n\nghi");
    assert_eq!(parsed, vec!["abc".to_string(), "def".to_string(), "ghi".to_string()]);
    assert!(parse_oid_lines("  \n\n").is_empty());
}

#[test]
fn default_branch_pick() {
    let mut branches = BranchStore::new();
    let snapshot = sample_snapshot();
    let mut commits = CommitStore::new();
    let worker = IndexWorker::new(2000);
    worker.index_repository(1, &snapshot, &mut commits, &mut branches, 1000);
    let rows = branches.find_by_repository(1);
    let picked = gitx::branch_store::pick_default(&rows).unwrap();
    assert_eq!(picked.name, "origin/main");
    let empty: Vec<gitx::entities::Branch> = vec![];
    assert!(gitx::branch_store::pick_default(&empty).is_none());
}

#[test]
fn select_skips_merges_and_respects_limit() {
    let log = sample_snapshot().logs.remove(0).commits;
    let all = select_commits(&log, 100, None);
    let oids: Vec<&str> = all.iter().map(|c| c.oid.as_str()).collect();
    assert_eq!(oids, vec!["m5", "m4", "m3", "m2", "m1"]);
    // the limit counts walked positions, the merge among them
    let bounded = select_commits(&log, 3, None);
    let oids: Vec<&str> = bounded.iter().map(|c| c.oid.as_str()).collect();
    assert_eq!(oids, vec!["m5", "m4"]);
}

#[test]
fn select_stops_before_cursor() {
    let log = sample_snapshot().logs.remove(0).commits;
    let since = select_commits(&log, 100, Some("m3"));
    let oids: Vec<&str> = since.iter().map(|c| c.oid.as_str()).collect();
    // neither the cursor commit nor its ancestors reappear
    assert_eq!(oids, vec!["m5", "m4"]);
}

#[test]
fn end_to_end_indexing_pass() {
    let snapshot = sample_snapshot();
    let mut commits = CommitStore::new();
    let mut branches = BranchStore::new();
    let worker = IndexWorker::new(2000);
    let result = worker.index_repository(1, &snapshot, &mut commits, &mut branches, 1000);

    assert_eq!(result.branches_indexed, 2);
    assert_eq!(result.branches_failed, 0);
    assert_eq!(result.commits_indexed, 7);

    // five rows for main, two for feature, and the merge commit nowhere
    assert_eq!(commits.count_by_repository(1, Some("origin/main")), 5);
    assert_eq!(commits.count_by_repository(1, Some("origin/feature")), 2);
    assert_eq!(commits.count_by_repository(1, None), 7);
    assert!(commits.find_by_oid(1, "mm").is_none());

    // both branches recorded for the picker
    let rows = branches.find_by_repository(1);
    assert_eq!(rows.len(), 2);
    assert_eq!(rows[0].name, "origin/main");
    assert!(rows[0].is_default);
    assert_eq!(rows[0].target_oid, "m5");
    assert_eq!(rows[0].updated_at, 1000);

    // the branch comparison: the cherry-pick is excluded by the heuristic
    let feature_only = commits.find_diff_commits(1, "origin/feature", "origin/main", 1000);
    assert_eq!(feature_only.len(), 1);
    assert_eq!(feature_only[0].oid, "f2");
}

#[test]
fn indexing_twice_changes_nothing() {
    let snapshot = sample_snapshot();
    let mut commits = CommitStore::new();
    let mut branches = BranchStore::new();
    let worker = IndexWorker::new(2000);
    worker.index_repository(1, &snapshot, &mut commits, &mut branches, 1000);
    let commit_rows_once = commits.list_by_repository(1, None, -1, 0);
    let branch_rows_once = branches.find_by_repository(1);

    let again = worker.index_repository(1, &snapshot, &mut commits, &mut branches, 1000);
    assert_eq!(again.branches_failed, 0);
    let commit_rows_twice = commits.list_by_repository(1, None, -1, 0);
    let branch_rows_twice = branches.find_by_repository(1);

    assert_eq!(commit_rows_once, commit_rows_twice);
    assert_eq!(branch_rows_once, branch_rows_twice);
    assert_eq!(commits.count_by_repository(1, None), 7);
}

#[test]
fn incremental_pass_takes_only_new_commits() {
    let mut snapshot = sample_snapshot();
    let mut commits = CommitStore::new();
    let mut branches = BranchStore::new();
    let worker = IndexWorker::new(2000);
    worker.index_repository(1, &snapshot, &mut commits, &mut branches, 1000);

    // one new commit lands on main upstream
    snapshot.logs[0].commits.insert(0, commit("m6", "ada", "six", 80, &["m5"]));
    let result = worker.index_repository(1, &snapshot, &mut commits, &mut branches, 2000);
    assert_eq!(result.commits_indexed, 1);
    assert_eq!(commits.count_by_repository(1, Some("origin/main")), 6);
    let latest = commits.get_latest_commit(1, "origin/main").unwrap();
    assert_eq!(latest.oid, "m6");
}

#[test]
fn unresolved_ref_fails_only_that_branch() {
    let mut snapshot = sample_snapshot();
    // the feature ref no longer resolves
    snapshot.logs.remove(1);
    let mut commits = CommitStore::new();
    let mut branches = BranchStore::new();
    let worker = IndexWorker::new(2000);
    let result = worker.index_repository(1, &snapshot, &mut commits, &mut branches, 1000);
    assert_eq!(result.branches_indexed, 1);
    assert_eq!(result.branches_failed, 1);
    assert_eq!(commits.count_by_repository(1, None), 5);
    // the failed branch's row is still recorded
    assert_eq!(branches.find_by_repository(1).len(), 2);
}

#[test]
fn non_remote_branches_are_not_walked() {
    let mut snapshot = sample_snapshot();
    snapshot.branches.push(branch("local-only", "m5", false));
    let mut commits = CommitStore::new();
    let mut branches = BranchStore::new();
    let worker = IndexWorker::new(2000);
    let result = worker.index_repository(1, &snapshot, &mut commits, &mut branches, 1000);
    assert_eq!(result.branches_indexed, 2);
    assert_eq!(result.branches_failed, 0);
    // the listing is still recorded, including the local branch
    assert_eq!(branches.find_by_repository(1).len(), 3);
}

#[test]
fn listing_orders_newest_first_and_pages() {
    let snapshot = sample_snapshot();
    let mut commits = CommitStore::new();
    let mut branches = BranchStore::new();
    let worker = IndexWorker::new(2000);
    worker.index_repository(1, &snapshot, &mut commits, &mut branches, 1000);

    let page = commits.list_by_repository(1, Some("origin/main"), 2, 1);
    let oids: Vec<&str> = page.iter().map(|c| c.oid.as_str()).collect();
    assert_eq!(oids, vec!["m4", "m3"]);
    let rest = commits.list_by_repository(1, Some("origin/main"), -1, 3);
    let oids: Vec<&str> = rest.iter().map(|c| c.oid.as_str()).collect();
    assert_eq!(oids, vec!["m2", "m1"]);
}

#[test]
fn listing_edges() {
    let snapshot = sample_snapshot();
    let mut commits = CommitStore::new();
    let mut branches = BranchStore::new();
    let worker = IndexWorker::new(2000);
    worker.index_repository(1, &snapshot, &mut commits, &mut branches, 1000);
    // a negative offset reads from the start; an offset past the end is empty
    assert_eq!(commits.list_by_repository(1, Some("origin/main"), 1, -5).len(), 1);
    assert!(commits.list_by_repository(1, Some("origin/main"), 10, 99).is_empty());
    assert!(commits.list_by_repository(1, Some("origin/main"), 0, 0).is_empty());
    // a zero walk budget selects nothing
    let log = &snapshot.logs[0].commits;
    assert!(select_commits(log, 0, None).is_empty());
    // an unknown branch has no cursor
    assert!(commits.get_latest_commit(1, "origin/nowhere").is_none());
}

#[test]
fn single_save_refreshes_text_fields_only() {
    let snapshot = sample_snapshot();
    let mut commits = CommitStore::new();
    let mut branches = BranchStore::new();
    let worker = IndexWorker::new(2000);
    worker.index_repository(1, &snapshot, &mut commits, &mut branches, 1000);

    let mut row = commits.find_by_oid(1, "m5").unwrap();
    let stored_time = row.author_time;
    row.summary = "five, reworded".to_string();
    row.author_time = 9999;
    let id = commits.save(&row);
    let after = commits.find_by_oid(1, "m5").unwrap();
    assert_eq!(after.id, id);
    assert_eq!(after.summary, "five, reworded");
    // identity and timestamps are never rewritten by a conflict
    assert_eq!(after.author_time, stored_time);
    assert_eq!(commits.count_by_repository(1, None), 7);
}

#[test]
fn repository_store_upserts_by_path() {
    let mut repos = RepositoryStore::new();
    let first = gitx::entities::Repository::new_at("a".to_string(), "/srv/a".to_string(), 10);
    let id1 = repos.save(&first);
    let second = gitx::entities::Repository::new_at("a2".to_string(), "/srv/a".to_string(), 20);
    let id2 = repos.save(&second);
    assert_eq!(id1, id2);
    assert_eq!(repos.list_all().len(), 1);
    let row = repos.find_by_path("/srv/a").unwrap();
    assert_eq!(row.name, "a2");
    assert_eq!(row.created_at, 10);
    assert!(repos.exists_by_path("/srv/a"));
    assert!(!repos.exists_by_path("/srv/b"));
    assert_eq!(repos.find_by_name("a2").unwrap().id, id1);
    repos.update_sync_time_at(id1, 99);
    assert_eq!(repos.find_by_id(id1).unwrap().last_synced_at, Some(99));
    repos.delete(id1);
    assert!(repos.find_by_id(id1).is_none());
}

#[test]
fn stores_scope_deletion_by_repository() {
    let snapshot = sample_snapshot();
    let mut commits = CommitStore::new();
    let mut branches = BranchStore::new();
    let worker = IndexWorker::new(2000);
    worker.index_repository(1, &snapshot, &mut commits, &mut branches, 1000);
    worker.index_repository(2, &snapshot, &mut commits, &mut branches, 1000);
    commits.delete_by_repository(1);
    branches.delete_by_repository(1);
    assert_eq!(commits.count_by_repository(1, None), 0);
    assert_eq!(commits.count_by_repository(2, None), 7);
    assert!(branches.find_by_repository(1).is_empty());
    assert_eq!(branches.find_by_repository(2).len(), 2);
}

#[test]
fn discovery_is_non_recursive() {
    let discovery = RepositoryDiscovery::new(vec![]);
    // the scan path itself has no control directory; only a child one
    // level deeper would, and that child is never probed
    let probes = vec![ScanProbe {
        path: "/srv/projects".to_string(),
        exists: true,
        has_git_dir: false,
        has_packed_refs: false,
        canonical: Some("/srv/projects".to_string()),
    }];
    assert!(discovery.discover_all(&probes).is_empty());
}

#[test]
fn discovery_names_and_canonicalizes() {
    let discovery = RepositoryDiscovery::new(vec![]);
    assert_eq!(discovery.scan_target("/srv/git", "tool"), "/srv/git/tool");
    let probes = vec![
        ScanProbe {
            path: "/srv/git/tool".to_string(),
            exists: true,
            has_git_dir: true,
            has_packed_refs: false,
            canonical: Some("/data/git/tool".to_string()),
        },
        ScanProbe {
            path: "/srv/git/missing".to_string(),
            exists: false,
            has_git_dir: false,
            has_packed_refs: false,
            canonical: None,
        },
        ScanProbe {
            path: "/srv/git/bare/.".to_string(),
            exists: true,
            has_git_dir: false,
            has_packed_refs: true,
            canonical: None,
        },
    ];
    let found = discovery.discover_all(&probes);
    assert_eq!(found.len(), 2);
    assert_eq!(found[0].name, "tool");
    assert_eq!(found[0].path, "/data/git/tool");
    // canonicalization failed: the probed path stands in
    assert_eq!(found[1].name, "bare");
    assert_eq!(found[1].path, "/srv/git/bare/.");
}

#[test]
fn cycle_counts_every_repository() {
    let scheduler = IndexerScheduler::new(IndexerConfig::default());
    let mut repos = RepositoryStore::new();
    let mut commits = CommitStore::new();
    let mut branches = BranchStore::new();
    let tasks = vec![
        RepoTask {
            repo: DiscoveredRepo { name: "good".to_string(), path: "/srv/good".to_string() },
            fetched: None,
            snapshot: Some(sample_snapshot()),
        },
        RepoTask {
            repo: DiscoveredRepo { name: "bad".to_string(), path: "/srv/bad".to_string() },
            fetched: None,
            snapshot: None,
        },
    ];
    let stats = scheduler.run_index_cycle(&tasks, &mut repos, &mut commits, &mut branches, 500);
    assert_eq!(stats.repos_discovered, 2);
    assert_eq!(stats.repos_synced, 1);
    assert_eq!(stats.repos_failed, 1);
    assert_eq!(stats.repos_synced + stats.repos_failed, stats.repos_discovered);
    // even the failed repository got its row
    assert_eq!(repos.list_all().len(), 2);
    let good = repos.find_by_path("/srv/good").unwrap();
    assert_eq!(good.last_synced_at, None);
    assert_eq!(commits.count_by_repository(good.id, None), 7);
}

#[test]
fn second_cycle_stamps_known_repositories() {
    let scheduler = IndexerScheduler::new(IndexerConfig::default());
    let mut repos = RepositoryStore::new();
    let mut commits = CommitStore::new();
    let mut branches = BranchStore::new();
    let task = |snap| {
        vec![RepoTask {
            repo: DiscoveredRepo { name: "r".to_string(), path: "/srv/r".to_string() },
            fetched: None,
            snapshot: snap,
        }]
    };
    scheduler.run_index_cycle(&task(Some(sample_snapshot())), &mut repos, &mut commits, &mut branches, 500);
    scheduler.run_index_cycle(&task(Some(sample_snapshot())), &mut repos, &mut commits, &mut branches, 600);
    let row = repos.find_by_path("/srv/r").unwrap();
    assert_eq!(row.last_synced_at, Some(600));
    assert_eq!(row.created_at, 500);
    assert_eq!(repos.list_all().len(), 1);
    assert_eq!(commits.count_by_repository(row.id, None), 7);
}

#[test]
fn manual_trigger_surfaces_missing_repository() {
    let scheduler = IndexerScheduler::new(IndexerConfig::default());
    let repos = RepositoryStore::new();
    let err = scheduler.trigger_lookup(&repos, 42).unwrap_err();
    assert_eq!(err, GitxError::RepositoryNotFound("42".to_string()));
}

#[test]
fn manual_trigger_indexes_and_stamps() {
    let scheduler = IndexerScheduler::new(IndexerConfig::default());
    let mut repos = RepositoryStore::new();
    let mut commits = CommitStore::new();
    let mut branches = BranchStore::new();
    let id = repos.save(&gitx::entities::Repository::new_at(
        "r".to_string(),
        "/srv/r".to_string(),
        10,
    ));
    let repo = scheduler.trigger_lookup(&repos, id).unwrap();
    assert_eq!(repo.path, "/srv/r");
    let snapshot = sample_snapshot();
    let result = scheduler.trigger_index(id, &snapshot, &mut repos, &mut commits, &mut branches, 77);
    assert_eq!(result.branches_indexed, 2);
    assert_eq!(repos.find_by_id(id).unwrap().last_synced_at, Some(77));
    assert_eq!(commits.count_by_repository(id, None), 7);
}

#[test]
fn diff_query_orders_by_committer_time_and_bounds() {
    let snapshot = sample_snapshot();
    let mut commits = CommitStore::new();
    let mut branches = BranchStore::new();
    let worker = IndexWorker::new(2000);
    worker.index_repository(1, &snapshot, &mut commits, &mut branches, 1000);
    // main against feature: "four" has an equivalent on feature (the
    // cherry-pick), the other four commits are main-only, newest first
    let main_only = commits.find_diff_commits(1, "origin/main", "origin/feature", 1000);
    let oids: Vec<&str> = main_only.iter().map(|c| c.oid.as_str()).collect();
    assert_eq!(oids, vec!["m5", "m3", "m2", "m1"]);
    let bounded = commits.find_diff_commits(1, "origin/main", "origin/feature", 2);
    let oids: Vec<&str> = bounded.iter().map(|c| c.oid.as_str()).collect();
    assert_eq!(oids, vec!["m5", "m3"]);
}
