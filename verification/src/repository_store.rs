//! The repository table: one row per unique `path`. A row is created on
//! first discovery and updated in place on every later one; ids are
//! assigned once and never reused.

use vstd::prelude::*;
use crate::clock::now_timestamp;
use crate::entities::{clone_opt_string, Repository};
use crate::table::{lemma_find_first_none, lemma_find_first_of, spec_find_first};
use crate::branch_store::{lemma_filter_is_subseq, lemma_filter_len, lemma_filter_push};
use crate::text::str_equal;

verus! {

/// No two rows share a path.
pub open spec fn spec_unique_paths(rows: Seq<Repository>) -> bool {
    forall|i: int, j: int| 0 <= i < j < rows.len() ==> rows[i].path@ != rows[j].path@
}

/// No two rows share an id.
pub open spec fn spec_unique_repo_ids(rows: Seq<Repository>) -> bool {
    forall|i: int, j: int| 0 <= i < j < rows.len() ==> rows[i].id != rows[j].id
}

/// The row an upsert leaves in a matched slot: everything is replaced
/// except the identity (id, path) and the creation time.
pub open spec fn spec_upserted_repo(old_row: Repository, r: Repository) -> Repository {
    Repository {
        name: r.name,
        description: r.description,
        default_branch: r.default_branch,
        last_synced_at: r.last_synced_at,
        updated_at: r.updated_at,
        ..old_row
    }
}

/// What one upsert leaves behind, and the id it reports: the matched row's
/// id, or the next free id for a fresh row.
pub open spec fn spec_upsert_repo(rows: Seq<Repository>, r: Repository, next_id: int) -> (
    Seq<Repository>,
    int,
    int,
) {
    match spec_find_first(rows, |row: Repository| row.path@ == r.path@) {
        Option::Some(i) => (rows.update(i, spec_upserted_repo(rows[i], r)), next_id, rows[i].id as int),
        Option::None => (rows.push(Repository { id: next_id as i64, ..r }), next_id + 1, next_id),
    }
}

/// The repository table, keyed by `path`.
#[derive(Debug)]
pub struct RepositoryStore {
    rows: Vec<Repository>,
    next_id: i64,
}

impl RepositoryStore {
    /// The rows currently stored, in insertion order.
    pub closed spec fn rows(&self) -> Seq<Repository> {
        self.rows@
    }

    /// The id the next fresh row will receive.
    pub closed spec fn next_id(&self) -> i64 {
        self.next_id
    }

    /// The store's invariant: paths unique, ids unique and below the next
    /// free id.
    pub open spec fn wf(&self) -> bool {
        spec_unique_paths(self.rows()) && spec_unique_repo_ids(self.rows()) && 1 <= self.next_id()
            && (forall|i: int|
            0 <= i < self.rows().len() ==> 1 <= #[trigger] self.rows()[i].id < self.next_id())
    }

    pub fn new() -> (r: Self)
        ensures
            r.wf(),
            r.rows() == Seq::<Repository>::empty(),
            r.next_id() == 1,
    {
        let r = RepositoryStore { rows: Vec::new(), next_id: 1 };
        proof {
            assert(r.rows() =~= Seq::<Repository>::empty());
        }
        r
    }


    /// The id the next fresh row will receive, for callers that must
    /// budget insertions.
    pub fn next_row_id(&self) -> (r: i64)
        ensures
            r == self.next_id(),
    {
        self.next_id
    }

    /// The row with the given id, if any.
    pub fn find_by_id(&self, id: i64) -> (r: Option<Repository>)
        ensures
            match r {
                Option::Some(repo) => {
                    &&& spec_find_first(self.rows(), |row: Repository| row.id == id)
                        matches Option::Some(i)
                    &&& 0 <= i < self.rows().len()
                    &&& repo == self.rows()[i]
                },
                Option::None => spec_find_first(self.rows(), |row: Repository| row.id == id)
                    is None,
            },
    {
        let ghost pred = |row: Repository| row.id == id;
        let n = self.rows.len();
        let mut i: usize = 0;
        while i < n
            invariant
                i <= n,
                n == self.rows().len(),
                forall|j: int| 0 <= j < i ==> !pred(#[trigger] self.rows()[j]),
                pred == (|row: Repository| row.id == id),
            decreases n - i,
        {
            if self.rows[i].id == id {
                proof {
                    lemma_find_first_of(self.rows(), pred, i as int);
                }
                return Option::Some(self.rows[i].clone());
            }
            i = i + 1;
        }
        proof {
            lemma_find_first_none(self.rows(), pred);
        }
        Option::None
    }

    /// The row with the given path, if any.
    pub fn find_by_path(&self, path: &str) -> (r: Option<Repository>)
        ensures
            match r {
                Option::Some(repo) => {
                    &&& spec_find_first(self.rows(), |row: Repository| row.path@ == path@)
                        matches Option::Some(i)
                    &&& 0 <= i < self.rows().len()
                    &&& repo == self.rows()[i]
                },
                Option::None => spec_find_first(self.rows(), |row: Repository| row.path@ == path@)
                    is None,
            },
    {
        let ghost pred = |row: Repository| row.path@ == path@;
        let n = self.rows.len();
        let mut i: usize = 0;
        while i < n
            invariant
                i <= n,
                n == self.rows().len(),
                forall|j: int| 0 <= j < i ==> !pred(#[trigger] self.rows()[j]),
                pred == (|row: Repository| row.path@ == path@),
            decreases n - i,
        {
            if str_equal(self.rows[i].path.as_str(), path) {
                proof {
                    lemma_find_first_of(self.rows(), pred, i as int);
                }
                return Option::Some(self.rows[i].clone());
            }
            i = i + 1;
        }
        proof {
            lemma_find_first_none(self.rows(), pred);
        }
        Option::None
    }

    /// The first row with the given name, if any.
    pub fn find_by_name(&self, name: &str) -> (r: Option<Repository>)
        ensures
            match r {
                Option::Some(repo) => {
                    &&& spec_find_first(self.rows(), |row: Repository| row.name@ == name@)
                        matches Option::Some(i)
                    &&& 0 <= i < self.rows().len()
                    &&& repo == self.rows()[i]
                },
                Option::None => spec_find_first(self.rows(), |row: Repository| row.name@ == name@)
                    is None,
            },
    {
        let ghost pred = |row: Repository| row.name@ == name@;
        let n = self.rows.len();
        let mut i: usize = 0;
        while i < n
            invariant
                i <= n,
                n == self.rows().len(),
                forall|j: int| 0 <= j < i ==> !pred(#[trigger] self.rows()[j]),
                pred == (|row: Repository| row.name@ == name@),
            decreases n - i,
        {
            if str_equal(self.rows[i].name.as_str(), name) {
                proof {
                    lemma_find_first_of(self.rows(), pred, i as int);
                }
                return Option::Some(self.rows[i].clone());
            }
            i = i + 1;
        }
        proof {
            lemma_find_first_none(self.rows(), pred);
        }
        Option::None
    }

    /// Every row, in insertion order.
    pub fn list_all(&self) -> (r: Vec<Repository>)
        ensures
            r@ == self.rows(),
    {
        let n = self.rows.len();
        let mut out: Vec<Repository> = Vec::new();
        let mut i: usize = 0;
        proof {
            assert(out@ =~= self.rows().take(0));
        }
        while i < n
            invariant
                i <= n,
                n == self.rows().len(),
                out@ == self.rows().take(i as int),
            decreases n - i,
        {
            out.push(self.rows[i].clone());
            proof {
                assert(out@ =~= self.rows().take(i + 1));
            }
            i = i + 1;
        }
        proof {
            assert(self.rows().take(n as int) =~= self.rows());
        }
        out
    }

    /// Whether some row carries the path.
    pub fn exists_by_path(&self, path: &str) -> (r: bool)
        ensures
            r == exists|i: int| 0 <= i < self.rows().len() && (#[trigger] self.rows()[i]).path@ == path@,
    {
        let n = self.rows.len();
        let mut i: usize = 0;
        while i < n
            invariant
                i <= n,
                n == self.rows().len(),
                forall|j: int| 0 <= j < i ==> (#[trigger] self.rows()[j]).path@ != path@,
            decreases n - i,
        {
            if str_equal(self.rows[i].path.as_str(), path) {
                return true;
            }
            i = i + 1;
        }
        false
    }

    /// Saves a row: the row with its path is updated in place keeping its
    /// id and creation time, or a fresh row is appended. Returns the row's
    /// id, as the store's insert-returning statement does.
    pub fn save(&mut self, repo: &Repository) -> (r: i64)
        requires
            old(self).wf(),
            old(self).next_id() < i64::MAX,
        ensures
            final(self).wf(),
            final(self).rows() == spec_upsert_repo(
                old(self).rows(),
                *repo,
                old(self).next_id() as int,
            ).0,
            final(self).next_id() as int == spec_upsert_repo(
                old(self).rows(),
                *repo,
                old(self).next_id() as int,
            ).1,
            r as int == spec_upsert_repo(old(self).rows(), *repo, old(self).next_id() as int).2,
    {
        let ghost pred = |row: Repository| row.path@ == repo.path@;
        let n = self.rows.len();
        let mut i: usize = 0;
        while i < n
            invariant
                i <= n,
                n == self.rows().len(),
                self.rows() == old(self).rows(),
                self.next_id() == old(self).next_id(),
                old(self).wf(),
                old(self).next_id() < i64::MAX,
                forall|j: int| 0 <= j < i ==> !pred(#[trigger] self.rows()[j]),
                pred == (|row: Repository| row.path@ == repo.path@),
            decreases n - i,
        {
            if str_equal(self.rows[i].path.as_str(), repo.path.as_str()) {
                proof {
                    lemma_find_first_of(self.rows(), pred, i as int);
                }
                let prev = self.rows.remove(i);
                let row_id = prev.id;
                let updated = Repository {
                    name: repo.name.clone(),
                    description: clone_opt_string(&repo.description),
                    default_branch: repo.default_branch.clone(),
                    last_synced_at: repo.last_synced_at,
                    updated_at: repo.updated_at,
                    ..prev
                };
                self.rows.insert(i, updated);
                proof {
                    let target = spec_upserted_repo(old(self).rows()[i as int], *repo);
                    assert(updated == target);
                    assert(self.rows() =~= old(self).rows().update(i as int, target));
                    assert forall|a: int, b: int|
                        0 <= a < b < self.rows().len() implies self.rows()[a].path@
                        != self.rows()[b].path@ && self.rows()[a].id != self.rows()[b].id by {
                        assert(self.rows()[a].path@ == old(self).rows()[a].path@
                            && self.rows()[a].id == old(self).rows()[a].id);
                        assert(self.rows()[b].path@ == old(self).rows()[b].path@
                            && self.rows()[b].id == old(self).rows()[b].id);
                    }
                }
                return row_id;
            }
            i = i + 1;
        }
        proof {
            lemma_find_first_none(self.rows(), pred);
        }
        let row_id = self.next_id;
        let fresh = Repository {
            id: row_id,
            name: repo.name.clone(),
            path: repo.path.clone(),
            description: clone_opt_string(&repo.description),
            default_branch: repo.default_branch.clone(),
            last_synced_at: repo.last_synced_at,
            created_at: repo.created_at,
            updated_at: repo.updated_at,
        };
        self.rows.push(fresh);
        self.next_id = self.next_id + 1;
        proof {
            let pushed = Repository { id: old(self).next_id(), ..*repo };
            assert(self.rows() =~= old(self).rows().push(pushed));
            assert forall|a: int, b: int|
                0 <= a < b < self.rows().len() implies self.rows()[a].path@
                != self.rows()[b].path@ && self.rows()[a].id != self.rows()[b].id by {
                if b == self.rows().len() - 1 {
                    assert(!pred(old(self).rows()[a]));
                }
            }
        }
        row_id
    }

    /// Removes the rows with the given id.
    pub fn delete(&mut self, id: i64)
        requires
            old(self).wf(),
        ensures
            final(self).wf(),
            final(self).rows() == old(self).rows().filter(|row: Repository| row.id != id),
            final(self).next_id() == old(self).next_id(),
    {
        let ghost pred = |row: Repository| row.id != id;
        let n = self.rows.len();
        let mut out: Vec<Repository> = Vec::new();
        let mut i: usize = 0;
        proof {
            assert(old(self).rows().take(0).filter(pred) =~= Seq::<Repository>::empty());
            assert(out@ =~= Seq::<Repository>::empty());
        }
        while i < n
            invariant
                i <= n,
                n == self.rows().len(),
                self.rows() == old(self).rows(),
                self.next_id() == old(self).next_id(),
                out@ == old(self).rows().take(i as int).filter(pred),
                pred == (|row: Repository| row.id != id),
            decreases n - i,
        {
            proof {
                let taken = old(self).rows().take(i as int);
                assert(old(self).rows().take(i + 1) =~= taken.push(old(self).rows()[i as int]));
                lemma_filter_push(taken, old(self).rows()[i as int], pred);
            }
            if self.rows[i].id != id {
                out.push(self.rows[i].clone());
            }
            i = i + 1;
        }
        proof {
            assert(old(self).rows().take(n as int) =~= old(self).rows());
        }
        self.rows = out;
        proof {
            lemma_filter_len(old(self).rows(), pred);
            assert forall|a: int, b: int|
                0 <= a < b < self.rows().len() implies self.rows()[a].path@
                != self.rows()[b].path@ && self.rows()[a].id != self.rows()[b].id by {
                lemma_filter_is_subseq(old(self).rows(), pred, a, b);
            }
            assert forall|a: int|
                0 <= a < self.rows().len() implies 1 <= (#[trigger] self.rows()[a]).id
                < self.next_id() by {
                lemma_filter_mem(old(self).rows(), pred, a);
            }
        }
    }

    /// Stamps the row with the given id as synced at the given instant;
    /// a missing id changes nothing, as the store's update statement does.
    pub fn update_sync_time_at(&mut self, id: i64, now: i64)
        requires
            old(self).wf(),
        ensures
            final(self).wf(),
            final(self).next_id() == old(self).next_id(),
            match spec_find_first(old(self).rows(), |row: Repository| row.id == id) {
                Option::Some(i) => final(self).rows() == old(self).rows().update(
                    i,
                    (Repository {
                        last_synced_at: Option::Some(now),
                        updated_at: now,
                        ..old(self).rows()[i]
                    }),
                ),
                Option::None => final(self).rows() == old(self).rows(),
            },
    {
        let ghost pred = |row: Repository| row.id == id;
        let n = self.rows.len();
        let mut i: usize = 0;
        while i < n
            invariant
                i <= n,
                n == self.rows().len(),
                self.rows() == old(self).rows(),
                self.next_id() == old(self).next_id(),
                old(self).wf(),
                forall|j: int| 0 <= j < i ==> !pred(#[trigger] self.rows()[j]),
                pred == (|row: Repository| row.id == id),
            decreases n - i,
        {
            if self.rows[i].id == id {
                proof {
                    lemma_find_first_of(self.rows(), pred, i as int);
                }
                let prev = self.rows.remove(i);
                let updated = Repository {
                    last_synced_at: Option::Some(now),
                    updated_at: now,
                    ..prev
                };
                self.rows.insert(i, updated);
                proof {
                    let target = Repository {
                        last_synced_at: Option::Some(now),
                        updated_at: now,
                        ..old(self).rows()[i as int]
                    };
                    assert(updated == target);
                    assert(self.rows() =~= old(self).rows().update(i as int, target));
                    assert forall|a: int, b: int|
                        0 <= a < b < self.rows().len() implies self.rows()[a].path@
                        != self.rows()[b].path@ && self.rows()[a].id != self.rows()[b].id by {
                        assert(self.rows()[a].path@ == old(self).rows()[a].path@
                            && self.rows()[a].id == old(self).rows()[a].id);
                        assert(self.rows()[b].path@ == old(self).rows()[b].path@
                            && self.rows()[b].id == old(self).rows()[b].id);
                    }
                }
                return ;
            }
            i = i + 1;
        }
        proof {
            lemma_find_first_none(self.rows(), pred);
        }
    }

    /// As `update_sync_time_at`, stamped with the current wall time.
    pub fn update_sync_time(&mut self, id: i64)
        requires
            old(self).wf(),
        ensures
            final(self).wf(),
            final(self).next_id() == old(self).next_id(),
            match spec_find_first(old(self).rows(), |row: Repository| row.id == id) {
                Option::Some(i) => {
                    &&& final(self).rows()[i].last_synced_at is Some
                    &&& final(self).rows()[i].last_synced_at->0 == final(self).rows()[i].updated_at
                    &&& final(self).rows() == old(self).rows().update(
                        i,
                        (Repository {
                            last_synced_at: final(self).rows()[i].last_synced_at,
                            updated_at: final(self).rows()[i].updated_at,
                            ..old(self).rows()[i]
                        }),
                    )
                },
                Option::None => final(self).rows() == old(self).rows(),
            },
    {
        let now = now_timestamp();
        self.update_sync_time_at(id, now);
        proof {
            match spec_find_first(old(self).rows(), |row: Repository| row.id == id) {
                Option::Some(i) => {
                    crate::table::lemma_find_first_props(
                        old(self).rows(),
                        |row: Repository| row.id == id,
                    );
                    assert(self.rows()[i] == (Repository {
                        last_synced_at: Option::Some(now),
                        updated_at: now,
                        ..old(self).rows()[i]
                    }));
                },
                Option::None => {},
            }
        }
    }
}

/// Every filtered element comes from the source, so a property of every
/// source element carries over.
pub proof fn lemma_filter_mem<T>(s: Seq<T>, pred: spec_fn(T) -> bool, i: int)
    requires
        0 <= i < s.filter(pred).len(),
    ensures
        exists|a: int| 0 <= a < s.len() && s[a] == s.filter(pred)[i],
{
    crate::branch_store::lemma_filter_mem_index(s, pred, i);
}

} // verus!
