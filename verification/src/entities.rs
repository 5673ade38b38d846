//! Domain entities persisted by the indexing core. All instants are whole
//! seconds since the Unix epoch, as the store records them.

use vstd::prelude::*;
use crate::clock::now_timestamp;
use crate::text::{join_comma, spec_join_comma};

verus! {

/// A repository row. `path` is its unique identity in the store; `id` is
/// assigned by the store on first insertion.
#[derive(Debug, PartialEq)]
pub struct Repository {
    pub id: i64,
    pub name: String,
    pub path: String,
    pub description: Option<String>,
    pub default_branch: String,
    pub last_synced_at: Option<i64>,
    pub created_at: i64,
    pub updated_at: i64,
}

impl Repository {
    /// A fresh row as it is first recorded, before the store assigns an id.
    pub fn new_at(name: String, path: String, now: i64) -> (r: Self)
        ensures
            r.id == 0,
            r.name == name,
            r.path == path,
            r.description is None,
            r.default_branch@ == "main"@,
            r.last_synced_at is None,
            r.created_at == now,
            r.updated_at == now,
    {
        Repository {
            id: 0,
            name,
            path,
            description: Option::None,
            default_branch: String::from_str("main"),
            last_synced_at: Option::None,
            created_at: now,
            updated_at: now,
        }
    }

    /// As `new_at`, stamped with the current wall time.
    pub fn new(name: String, path: String) -> (r: Self)
        ensures
            r.id == 0,
            r.name == name,
            r.path == path,
            r.description is None,
            r.default_branch@ == "main"@,
            r.last_synced_at is None,
            r.created_at == r.updated_at,
    {
        let now = now_timestamp();
        Repository::new_at(name, path, now)
    }

    pub fn with_description(self, description: String) -> (r: Self)
        ensures
            r == (Repository { description: Option::Some(description), ..self }),
    {
        Repository { description: Option::Some(description), ..self }
    }

    /// Marks the row as synced at the given instant.
    pub fn update_sync_time_at(&mut self, now: i64)
        ensures
            *final(self) == (Repository {
                last_synced_at: Option::Some(now),
                updated_at: now,
                ..*old(self)
            }),
    {
        self.last_synced_at = Option::Some(now);
        self.updated_at = now;
    }

    /// As `update_sync_time_at`, stamped with the current wall time.
    pub fn update_sync_time(&mut self)
        ensures
            final(self).last_synced_at is Some,
            final(self).last_synced_at->0 == final(self).updated_at,
            *final(self) == (Repository {
                last_synced_at: final(self).last_synced_at,
                updated_at: final(self).updated_at,
                ..*old(self)
            }),
    {
        let now = now_timestamp();
        self.update_sync_time_at(now);
    }
}

/// A commit row. The triple (`repository_id`, `oid`, `branch`) is its
/// unique identity in the store: the same object may be recorded once per
/// branch it was reachable from at index time.
#[derive(Debug, PartialEq)]
pub struct Commit {
    pub id: i64,
    pub repository_id: i64,
    pub oid: String,
    pub branch: String,
    pub author_name: String,
    pub author_email: String,
    pub author_time: i64,
    pub committer_name: String,
    pub committer_email: String,
    pub committer_time: i64,
    pub summary: String,
    pub message: Option<String>,
    pub parent_oids: Option<String>,
    pub created_at: i64,
}

impl Commit {
    /// A fresh row, not yet carrying a message or parent list.
    pub fn new_at(
        repository_id: i64,
        oid: String,
        branch: String,
        author_name: String,
        author_email: String,
        author_time: i64,
        committer_name: String,
        committer_email: String,
        committer_time: i64,
        summary: String,
        now: i64,
    ) -> (r: Self)
        ensures
            r == (Commit {
                id: 0,
                repository_id,
                oid,
                branch,
                author_name,
                author_email,
                author_time,
                committer_name,
                committer_email,
                committer_time,
                summary,
                message: None::<String>,
                parent_oids: None::<String>,
                created_at: now,
            }),
    {
        Commit {
            id: 0,
            repository_id,
            oid,
            branch,
            author_name,
            author_email,
            author_time,
            committer_name,
            committer_email,
            committer_time,
            summary,
            message: Option::None,
            parent_oids: Option::None,
            created_at: now,
        }
    }

    /// As `new_at`, stamped with the current wall time.
    pub fn new(
        repository_id: i64,
        oid: String,
        branch: String,
        author_name: String,
        author_email: String,
        author_time: i64,
        committer_name: String,
        committer_email: String,
        committer_time: i64,
        summary: String,
    ) -> (r: Self)
        ensures
            r == (Commit {
                id: 0,
                repository_id,
                oid,
                branch,
                author_name,
                author_email,
                author_time,
                committer_name,
                committer_email,
                committer_time,
                summary,
                message: None::<String>,
                parent_oids: None::<String>,
                created_at: r.created_at,
            }),
    {
        let now = now_timestamp();
        Commit::new_at(
            repository_id,
            oid,
            branch,
            author_name,
            author_email,
            author_time,
            committer_name,
            committer_email,
            committer_time,
            summary,
            now,
        )
    }

    pub fn with_message(self, message: String) -> (r: Self)
        ensures
            r == (Commit { message: Option::Some(message), ..self }),
    {
        Commit { message: Option::Some(message), ..self }
    }

    /// Records the parent identifiers as one comma-separated field.
    pub fn with_parents(self, parents: Vec<String>) -> (r: Self)
        ensures
            r.parent_oids is Some,
            r.parent_oids->0@ == spec_join_comma(parents.deep_view()),
            r == (Commit { parent_oids: r.parent_oids, ..self }),
    {
        let joined = join_comma(&parents);
        Commit { parent_oids: Option::Some(joined), ..self }
    }
}

/// The mathematical content of a repository row.
#[verifier::ext_equal]
pub struct RepoRowView {
    pub id: i64,
    pub name: Seq<char>,
    pub path: Seq<char>,
    pub description: Option<Seq<char>>,
    pub default_branch: Seq<char>,
    pub last_synced_at: Option<i64>,
    pub created_at: i64,
    pub updated_at: i64,
}

impl View for Repository {
    type V = RepoRowView;

    open spec fn view(&self) -> RepoRowView {
        RepoRowView {
            id: self.id,
            name: self.name@,
            path: self.path@,
            description: match self.description {
                Option::Some(d) => Option::Some(d@),
                Option::None => Option::None,
            },
            default_branch: self.default_branch@,
            last_synced_at: self.last_synced_at,
            created_at: self.created_at,
            updated_at: self.updated_at,
        }
    }
}

/// The views of a table's repository rows, in table order.
pub open spec fn repo_row_views(rows: Seq<Repository>) -> Seq<RepoRowView> {
    Seq::new(rows.len(), |i: int| rows[i]@)
}

/// The mathematical content of a commit row.
#[verifier::ext_equal]
pub struct CommitRowView {
    pub id: i64,
    pub repository_id: i64,
    pub oid: Seq<char>,
    pub branch: Seq<char>,
    pub author_name: Seq<char>,
    pub author_email: Seq<char>,
    pub author_time: i64,
    pub committer_name: Seq<char>,
    pub committer_email: Seq<char>,
    pub committer_time: i64,
    pub summary: Seq<char>,
    pub message: Option<Seq<char>>,
    pub parent_oids: Option<Seq<char>>,
    pub created_at: i64,
}

impl View for Commit {
    type V = CommitRowView;

    open spec fn view(&self) -> CommitRowView {
        CommitRowView {
            id: self.id,
            repository_id: self.repository_id,
            oid: self.oid@,
            branch: self.branch@,
            author_name: self.author_name@,
            author_email: self.author_email@,
            author_time: self.author_time,
            committer_name: self.committer_name@,
            committer_email: self.committer_email@,
            committer_time: self.committer_time,
            summary: self.summary@,
            message: match self.message {
                Option::Some(m) => Option::Some(m@),
                Option::None => Option::None,
            },
            parent_oids: match self.parent_oids {
                Option::Some(p) => Option::Some(p@),
                Option::None => Option::None,
            },
            created_at: self.created_at,
        }
    }
}

/// The views of a table's commit rows, in table order.
pub open spec fn commit_row_views(rows: Seq<Commit>) -> Seq<CommitRowView> {
    Seq::new(rows.len(), |i: int| rows[i]@)
}

impl Clone for Repository {
    fn clone(&self) -> (r: Self)
        ensures
            r == *self,
    {
        Repository {
            id: self.id,
            name: self.name.clone(),
            path: self.path.clone(),
            description: clone_opt_string(&self.description),
            default_branch: self.default_branch.clone(),
            last_synced_at: self.last_synced_at,
            created_at: self.created_at,
            updated_at: self.updated_at,
        }
    }
}

impl Clone for Commit {
    fn clone(&self) -> (r: Self)
        ensures
            r == *self,
    {
        Commit {
            id: self.id,
            repository_id: self.repository_id,
            oid: self.oid.clone(),
            branch: self.branch.clone(),
            author_name: self.author_name.clone(),
            author_email: self.author_email.clone(),
            author_time: self.author_time,
            committer_name: self.committer_name.clone(),
            committer_email: self.committer_email.clone(),
            committer_time: self.committer_time,
            summary: self.summary.clone(),
            message: clone_opt_string(&self.message),
            parent_oids: clone_opt_string(&self.parent_oids),
            created_at: self.created_at,
        }
    }
}

impl Clone for Branch {
    fn clone(&self) -> (r: Self)
        ensures
            r == *self,
    {
        Branch {
            id: self.id,
            repository_id: self.repository_id,
            name: self.name.clone(),
            target_oid: self.target_oid.clone(),
            is_default: self.is_default,
            updated_at: self.updated_at,
        }
    }
}

/// Clones an optional string, keeping the value.
pub fn clone_opt_string(v: &Option<String>) -> (r: Option<String>)
    ensures
        r == *v,
{
    match v {
        Option::Some(s) => Option::Some(s.clone()),
        Option::None => Option::None,
    }
}

/// A tag row, with annotated-tag metadata when the tag carries any.
#[derive(Debug, Clone, PartialEq)]
pub struct Tag {
    pub id: i64,
    pub repository_id: i64,
    pub name: String,
    pub target_oid: String,
    pub tagger_name: Option<String>,
    pub tagger_email: Option<String>,
    pub tagger_time: Option<i64>,
    pub message: Option<String>,
    pub created_at: i64,
}

/// A branch row. The pair (`repository_id`, `name`) is its unique identity
/// in the store; re-saving replaces target and timestamp.
#[derive(Debug, PartialEq)]
pub struct Branch {
    pub id: i64,
    pub repository_id: i64,
    pub name: String,
    pub target_oid: String,
    pub is_default: bool,
    pub updated_at: i64,
}

} // verus!
