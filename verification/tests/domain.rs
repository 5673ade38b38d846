use gitx::config::{CacheConfig, DatabaseConfig, GitConfig, IndexerConfig};
use gitx::diffview::{format_diff_stats, render_diff_line};
use gitx::entities::{Commit, Repository};
use gitx::error::GitxError;
use gitx::text::{escape_html, i64_to_string, join_path, str_equal, str_starts_with,
    usize_to_string};
use gitx::values::{BranchName, CommitSha, RepositoryId};

#[test]
fn test_basic() {
    assert_eq!(2 + 2, 4);
}

#[test]
fn repository_id_round_trip() {
    let id = RepositoryId::new(17);
    assert_eq!(id.as_i64(), 17);
    assert_eq!(id.0, 17);
}

#[test]
fn commit_sha_accepts_forty_hex_digits() {
    let sha = "0123456789abcdef0123456789ABCDEF01234567".to_string();
    let parsed = CommitSha::new(sha.clone()).unwrap();
    assert_eq!(parsed.as_str(), sha.as_str());
}

#[test]
fn commit_sha_rejects_wrong_length() {
    let err = CommitSha::new("abc".to_string()).unwrap_err();
    assert_eq!(err, "Invalid commit SHA length: 3");
}

#[test]
fn commit_sha_rejects_non_hex() {
    let err = CommitSha::new("zzzzzzzzzzzzzzzzzzzzzzzzzzzzzzzzzzzzzzzz".to_string()).unwrap_err();
    assert_eq!(err, "Invalid commit SHA: contains non-hex characters");
}

#[test]
fn branch_short_name_strips_ref_prefixes() {
    assert_eq!(BranchName::new("refs/remotes/origin/main".to_string()).short_name(), "main");
    assert_eq!(BranchName::new("refs/heads/dev".to_string()).short_name(), "dev");
    assert_eq!(BranchName::new("origin/main".to_string()).short_name(), "origin/main");
}

#[test]
fn decimal_rendering() {
    assert_eq!(usize_to_string(0), "0");
    assert_eq!(usize_to_string(90210), "90210");
    assert_eq!(i64_to_string(-42), "-42");
    assert_eq!(i64_to_string(7), "7");
}

#[test]
fn string_helpers() {
    assert!(str_starts_with("origin/main", "origin/"));
    assert!(!str_starts_with("main", "origin/"));
    assert!(str_equal("abc", "abc"));
    assert!(!str_equal("abc", "abd"));
}

#[test]
fn path_joining() {
    assert_eq!(join_path("/srv/git", "repo"), "/srv/git/repo");
    assert_eq!(join_path("/srv/git/", "repo"), "/srv/git/repo");
    assert_eq!(join_path("/srv/git", "/abs"), "/abs");
    assert_eq!(join_path("", "repo"), "repo");
    assert_eq!(join_path("/srv/git", ""), "/srv/git");
}

#[test]
fn html_escaping() {
    assert_eq!(escape_html("<a>&b"), "&lt;a&gt;&amp;b");
    assert_eq!(escape_html("plain"), "plain");
}

#[test]
fn diff_stats_line() {
    assert_eq!(format_diff_stats(2, 10, 3), "2 files changed, 10 insertions(+), 3 deletions(-)");
}

#[test]
fn diff_line_rendering() {
    assert_eq!(render_diff_line('+', "x<y"), "<span class=\"diff-add-line\">x&lt;y</span>");
    assert_eq!(render_diff_line('-', "gone"), "<span class=\"diff-remove-line\">gone</span>");
    assert_eq!(render_diff_line(' ', "ctx"), "<span class=\"diff-context\"> ctx</span>");
    assert_eq!(render_diff_line('@', "@@ -1 +1 @@"), "@@ -1 +1 @@");
}

#[test]
fn commit_with_parents_joins_with_commas() {
    let c = Commit::new_at(
        1,
        "oid".to_string(),
        "origin/main".to_string(),
        "ada".to_string(),
        "ada@example.com".to_string(),
        100,
        "ada".to_string(),
        "ada@example.com".to_string(),
        100,
        "first".to_string(),
        5,
    );
    let c = c.with_parents(vec!["p1".to_string(), "p2".to_string()]);
    assert_eq!(c.parent_oids.as_deref(), Some("p1,p2"));
    let solo = Commit::new_at(
        1,
        "o2".to_string(),
        "origin/main".to_string(),
        "ada".to_string(),
        "a@e".to_string(),
        1,
        "ada".to_string(),
        "a@e".to_string(),
        1,
        "s".to_string(),
        5,
    )
    .with_parents(vec![]);
    assert_eq!(solo.parent_oids.as_deref(), Some(""));
}

#[test]
fn repository_row_lifecycle() {
    let mut repo = Repository::new_at("name".to_string(), "/p".to_string(), 50);
    assert_eq!(repo.default_branch, "main");
    assert_eq!(repo.created_at, 50);
    assert_eq!(repo.updated_at, 50);
    assert!(repo.last_synced_at.is_none());
    repo.update_sync_time_at(99);
    assert_eq!(repo.last_synced_at, Some(99));
    assert_eq!(repo.updated_at, 99);
    assert_eq!(repo.created_at, 50);
    let described = Repository::new_at("n".to_string(), "/q".to_string(), 1).with_description(
        "about".to_string(),
    );
    assert_eq!(described.description.as_deref(), Some("about"));
}

#[test]
fn error_status_classes() {
    assert_eq!(GitxError::RepositoryNotFound("x".to_string()).status_code(), 404);
    assert_eq!(GitxError::CommitNotFound("x".to_string()).status_code(), 404);
    assert_eq!(GitxError::ReferenceNotFound("x".to_string()).status_code(), 404);
    assert_eq!(GitxError::InvalidPath("x".to_string()).status_code(), 400);
    assert_eq!(GitxError::InvalidOid("x".to_string()).status_code(), 400);
    assert_eq!(GitxError::Internal("x".to_string()).status_code(), 500);
    assert_eq!(GitxError::Git("x".to_string()).status_code(), 500);
}

#[test]
fn error_from_string_is_config() {
    let e: GitxError = GitxError::from("bad option".to_string());
    assert_eq!(e, GitxError::Config("bad option".to_string()));
}

#[test]
fn config_defaults() {
    let db = DatabaseConfig::default();
    assert_eq!(db.sqlite_path, "gitx.db");
    assert_eq!(db.max_connections, 10);
    let git = GitConfig::default();
    assert!(git.ssh_key_path.is_none());
    assert_eq!(git.fetch_timeout_secs, 300);
    let idx = IndexerConfig::default();
    assert!(idx.enabled);
    assert_eq!(idx.interval_secs, 300);
    assert_eq!(idx.max_commits_per_branch, 2000);
    assert_eq!(idx.worker_threads, 4);
    let cache = CacheConfig::default();
    assert_eq!(cache.max_capacity, 10000);
    assert_eq!(cache.ttl_secs, 3600);
}
