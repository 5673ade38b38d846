//! The commit table: one row per (`repository_id`, `oid`, `branch`) triple.
//! Bulk insertion ignores rows whose identity is already present, so
//! re-indexing can never duplicate or lose rows; a single save refreshes
//! only the text fields. Queries page over time-ordered views of the rows.

use vstd::prelude::*;
use crate::entities::Commit;
use crate::table::{lemma_find_first_none, lemma_find_first_of, lemma_find_first_props,
    spec_find_first};
use crate::branch_store::{lemma_filter_is_subseq, lemma_filter_len, lemma_filter_push};
use crate::text::str_equal;

verus! {

/// Whether a row carries the given identity triple.
pub open spec fn spec_commit_key(row: Commit, rid: i64, oid: Seq<char>, branch: Seq<char>) -> bool {
    row.repository_id == rid && row.oid@ == oid && row.branch@ == branch
}

/// Whether some row carries the identity triple.
pub open spec fn spec_has_commit_key(
    rows: Seq<Commit>,
    rid: i64,
    oid: Seq<char>,
    branch: Seq<char>,
) -> bool {
    exists|i: int| 0 <= i < rows.len() && spec_commit_key(#[trigger] rows[i], rid, oid, branch)
}

/// No two rows share an identity triple.
pub open spec fn spec_unique_commit_keys(rows: Seq<Commit>) -> bool {
    forall|i: int, j: int|
        0 <= i < j < rows.len() ==> !(rows[i].repository_id == rows[j].repository_id
            && rows[i].oid@ == rows[j].oid@ && rows[i].branch@ == rows[j].branch@)
}

/// What inserting a batch with insert-or-ignore semantics leaves behind:
/// each row in batch order is appended with the next free id unless its
/// identity is already present.
pub open spec fn spec_bulk_insert(rows: Seq<Commit>, cs: Seq<Commit>, next_id: int) -> (
    Seq<Commit>,
    int,
)
    decreases cs.len(),
{
    if cs.len() == 0 {
        (rows, next_id)
    } else {
        let c = cs[0];
        if spec_has_commit_key(rows, c.repository_id, c.oid@, c.branch@) {
            spec_bulk_insert(rows, cs.skip(1), next_id)
        } else {
            spec_bulk_insert(rows.push(Commit { id: next_id as i64, ..c }), cs.skip(1), next_id + 1)
        }
    }
}

/// The index of the first row of (`rid`, `branch`) holding the greatest
/// author time: the store's cursor for that branch.
pub open spec fn spec_latest_idx(rows: Seq<Commit>, rid: i64, branch: Seq<char>) -> Option<int>
    decreases rows.len(),
{
    if rows.len() == 0 {
        Option::None
    } else {
        let k = rows.len() - 1;
        let prev = spec_latest_idx(rows.drop_last(), rid, branch);
        if rows[k].repository_id == rid && rows[k].branch@ == branch {
            match prev {
                Option::None => Option::Some(k),
                Option::Some(i) => if rows[k].author_time > rows[i].author_time {
                    Option::Some(k)
                } else {
                    prev
                },
            }
        } else {
            prev
        }
    }
}

/// The cursor is a matching row holding the greatest author time, and the
/// first such row; absent exactly when no row matches.
pub proof fn lemma_latest_props(rows: Seq<Commit>, rid: i64, branch: Seq<char>)
    ensures
        match spec_latest_idx(rows, rid, branch) {
            Option::Some(i) => 0 <= i < rows.len() && rows[i].repository_id == rid
                && rows[i].branch@ == branch && (forall|j: int|
                0 <= j < rows.len() && #[trigger] rows[j].repository_id == rid && rows[j].branch@
                    == branch ==> rows[j].author_time <= rows[i].author_time) && (forall|j: int|
                0 <= j < i && #[trigger] rows[j].repository_id == rid && rows[j].branch@ == branch
                    ==> rows[j].author_time < rows[i].author_time),
            Option::None => forall|j: int|
                0 <= j < rows.len() ==> !(#[trigger] rows[j].repository_id == rid && rows[j].branch@
                    == branch),
        },
    decreases rows.len(),
{
    if rows.len() > 0 {
        lemma_latest_props(rows.drop_last(), rid, branch);
        assert(forall|j: int| 0 <= j < rows.len() - 1 ==> rows.drop_last()[j] == rows[j]);
    }
}

/// The rows of one repository, optionally narrowed to one branch.
pub open spec fn spec_matching(rows: Seq<Commit>, rid: i64, branch: Option<Seq<char>>) -> Seq<
    Commit,
> {
    rows.filter(
        |c: Commit|
            c.repository_id == rid && match branch {
                Option::Some(b) => c.branch@ == b,
                Option::None => true,
            },
    )
}

/// Whether some row of (`rid`, `branch`) shares the author name and
/// summary: the heuristic equivalence used across branches.
pub open spec fn spec_has_equivalent(
    rows: Seq<Commit>,
    rid: i64,
    branch: Seq<char>,
    author_name: Seq<char>,
    summary: Seq<char>,
) -> bool {
    exists|i: int|
        0 <= i < rows.len() && (#[trigger] rows[i]).repository_id == rid && rows[i].branch@
            == branch && rows[i].author_name@ == author_name && rows[i].summary@ == summary
}

/// The rows of the old branch with no equivalent on the new branch: the
/// anti-join on (author name, summary).
pub open spec fn spec_diff_selection(
    rows: Seq<Commit>,
    rid: i64,
    old_branch: Seq<char>,
    new_branch: Seq<char>,
) -> Seq<Commit> {
    rows.filter(
        |c: Commit|
            c.repository_id == rid && c.branch@ == old_branch && !spec_has_equivalent(
                rows,
                rid,
                new_branch,
                c.author_name@,
                c.summary@,
            ),
    )
}

/// The time key a listing orders by.
pub open spec fn spec_time_key(c: Commit, by_committer: bool) -> int {
    if by_committer {
        c.committer_time as int
    } else {
        c.author_time as int
    }
}

/// Insertion into a descending-ordered sequence, after any equal keys.
pub open spec fn spec_insert_desc(s: Seq<Commit>, c: Commit, by_committer: bool) -> Seq<Commit>
    decreases s.len(),
{
    if s.len() == 0 {
        seq![c]
    } else if spec_time_key(c, by_committer) > spec_time_key(s[0], by_committer) {
        seq![c] + s
    } else {
        seq![s[0]] + spec_insert_desc(s.skip(1), c, by_committer)
    }
}

/// Stable descending sort by the chosen time key.
pub open spec fn spec_sort_desc(s: Seq<Commit>, by_committer: bool) -> Seq<Commit>
    decreases s.len(),
{
    if s.len() == 0 {
        Seq::empty()
    } else {
        spec_insert_desc(spec_sort_desc(s.drop_last(), by_committer), s.last(), by_committer)
    }
}

/// One page of a listing, with the store's conventions: a negative offset
/// reads from the start, a negative limit means no bound.
pub open spec fn spec_page(s: Seq<Commit>, offset: int, limit: int) -> Seq<Commit> {
    let off = if offset < 0 {
        0
    } else {
        offset
    };
    let rest = if off >= s.len() {
        Seq::<Commit>::empty()
    } else {
        s.skip(off)
    };
    if limit < 0 || limit >= rest.len() {
        rest
    } else {
        rest.take(limit)
    }
}

/// The commit table, keyed by (`repository_id`, `oid`, `branch`).
#[derive(Debug)]
pub struct CommitStore {
    rows: Vec<Commit>,
    next_id: i64,
}

impl CommitStore {
    /// The rows currently stored, in insertion order.
    pub closed spec fn rows(&self) -> Seq<Commit> {
        self.rows@
    }

    /// The id the next fresh row will receive.
    pub closed spec fn next_id(&self) -> i64 {
        self.next_id
    }

    /// The store's invariant: identity triples unique, fewer rows than the
    /// next free id.
    pub open spec fn wf(&self) -> bool {
        spec_unique_commit_keys(self.rows()) && 1 <= self.next_id() && self.rows().len()
            < self.next_id()
    }

    pub fn new() -> (r: Self)
        ensures
            r.wf(),
            r.rows() == Seq::<Commit>::empty(),
            r.next_id() == 1,
    {
        let r = CommitStore { rows: Vec::new(), next_id: 1 };
        proof {
            assert(r.rows() =~= Seq::<Commit>::empty());
        }
        r
    }


    /// The id the next fresh row will receive, for callers that must
    /// budget insertions.
    pub fn next_row_id(&self) -> (r: i64)
        ensures
            r == self.next_id(),
    {
        self.next_id
    }

    /// Whether some row carries the identity triple.
    fn has_key(&self, rid: i64, oid: &str, branch: &str) -> (r: bool)
        ensures
            r == spec_has_commit_key(self.rows(), rid, oid@, branch@),
    {
        let n = self.rows.len();
        let mut i: usize = 0;
        while i < n
            invariant
                i <= n,
                n == self.rows().len(),
                forall|j: int|
                    0 <= j < i ==> !spec_commit_key(#[trigger] self.rows()[j], rid, oid@, branch@),
            decreases n - i,
        {
            if self.rows[i].repository_id == rid && str_equal(self.rows[i].oid.as_str(), oid)
                && str_equal(self.rows[i].branch.as_str(), branch) {
                return true;
            }
            i = i + 1;
        }
        false
    }

    /// Inserts a batch with insert-or-ignore semantics and reports how many
    /// rows were offered, as the store's transaction does.
    pub fn bulk_insert(&mut self, commits: &Vec<Commit>) -> (r: usize)
        requires
            old(self).wf(),
            old(self).next_id() as int + commits@.len() <= i64::MAX,
        ensures
            r == commits@.len(),
            final(self).wf(),
            final(self).rows() == spec_bulk_insert(
                old(self).rows(),
                commits@,
                old(self).next_id() as int,
            ).0,
            final(self).next_id() as int == spec_bulk_insert(
                old(self).rows(),
                commits@,
                old(self).next_id() as int,
            ).1,
    {
        let ghost target = spec_bulk_insert(old(self).rows(), commits@, old(self).next_id() as int);
        let n = commits.len();
        let mut i: usize = 0;
        proof {
            assert(commits@.skip(0) =~= commits@);
        }
        while i < n
            invariant
                i <= n,
                n == commits@.len(),
                self.wf(),
                self.next_id() as int + (n - i) <= i64::MAX,
                target == spec_bulk_insert(
                    old(self).rows(),
                    commits@,
                    old(self).next_id() as int,
                ),
                target == spec_bulk_insert(
                    self.rows(),
                    commits@.skip(i as int),
                    self.next_id() as int,
                ),
            decreases n - i,
        {
            proof {
                assert(commits@.skip(i as int)[0] == commits@[i as int]);
                assert(commits@.skip(i as int).skip(1) =~= commits@.skip(i + 1));
            }
            let c = &commits[i];
            if !self.has_key(c.repository_id, c.oid.as_str(), c.branch.as_str()) {
                let mut fresh = c.clone();
                fresh.id = self.next_id;
                let ghost pushed = Commit { id: self.next_id, ..commits@[i as int] };
                proof {
                    assert(fresh == pushed);
                }
                self.rows.push(fresh);
                self.next_id = self.next_id + 1;
                proof {
                    let prev_rows = self.rows@.drop_last();
                    assert(prev_rows.push(pushed) =~= self.rows());
                    assert forall|a: int, b: int|
                        0 <= a < b < self.rows().len() implies !(self.rows()[a].repository_id
                        == self.rows()[b].repository_id && self.rows()[a].oid@
                        == self.rows()[b].oid@ && self.rows()[a].branch@
                        == self.rows()[b].branch@) by {
                        if b == self.rows().len() - 1 {
                            assert(!spec_commit_key(
                                prev_rows[a],
                                pushed.repository_id,
                                pushed.oid@,
                                pushed.branch@,
                            ));
                        }
                    }
                }
            }
            i = i + 1;
        }
        proof {
            assert(commits@.skip(n as int) =~= Seq::<Commit>::empty());
        }
        n
    }

    /// The branch cursor: the first stored row of (`rid`, `branch`) with
    /// the greatest author time.
    pub fn get_latest_commit(&self, repository_id: i64, branch: &str) -> (r: Option<Commit>)
        ensures
            match r {
                Option::Some(c) => {
                    &&& spec_latest_idx(self.rows(), repository_id, branch@) matches Option::Some(i)
                    &&& 0 <= i < self.rows().len()
                    &&& c == self.rows()[i]
                },
                Option::None => spec_latest_idx(self.rows(), repository_id, branch@) is None,
            },
    {
        let n = self.rows.len();
        let mut best: Option<usize> = Option::None;
        let mut i: usize = 0;
        proof {
            assert(self.rows().take(0) =~= Seq::<Commit>::empty());
        }
        while i < n
            invariant
                i <= n,
                n == self.rows().len(),
                match best {
                    Option::Some(b) => b < i && spec_latest_idx(
                        self.rows().take(i as int),
                        repository_id,
                        branch@,
                    ) == Option::Some(b as int),
                    Option::None => spec_latest_idx(
                        self.rows().take(i as int),
                        repository_id,
                        branch@,
                    ) is None,
                },
            decreases n - i,
        {
            proof {
                assert(self.rows().take(i + 1).drop_last() =~= self.rows().take(i as int));
                assert(self.rows().take(i + 1)[i as int] == self.rows()[i as int]);
                assert(forall|j: int|
                    0 <= j < i ==> self.rows().take(i + 1)[j] == self.rows()[j]);
            }
            if self.rows[i].repository_id == repository_id && str_equal(
                self.rows[i].branch.as_str(),
                branch,
            ) {
                best = match best {
                    Option::None => Option::Some(i),
                    Option::Some(b) => {
                        if self.rows[i].author_time > self.rows[b].author_time {
                            Option::Some(i)
                        } else {
                            Option::Some(b)
                        }
                    },
                };
            }
            i = i + 1;
        }
        proof {
            assert(self.rows().take(n as int) =~= self.rows());
        }
        match best {
            Option::Some(b) => Option::Some(self.rows[b].clone()),
            Option::None => Option::None,
        }
    }

    /// The first stored row of the repository carrying the object id, on
    /// whichever branch it was recorded first.
    pub fn find_by_oid(&self, repository_id: i64, oid: &str) -> (r: Option<Commit>)
        ensures
            match r {
                Option::Some(c) => {
                    &&& spec_find_first(
                        self.rows(),
                        |c: Commit| c.repository_id == repository_id && c.oid@ == oid@,
                    ) matches Option::Some(i)
                    &&& 0 <= i < self.rows().len()
                    &&& c == self.rows()[i]
                },
                Option::None => spec_find_first(
                    self.rows(),
                    |c: Commit| c.repository_id == repository_id && c.oid@ == oid@,
                ) is None,
            },
    {
        let ghost pred = |c: Commit| c.repository_id == repository_id && c.oid@ == oid@;
        let n = self.rows.len();
        let mut i: usize = 0;
        while i < n
            invariant
                i <= n,
                n == self.rows().len(),
                forall|j: int| 0 <= j < i ==> !pred(#[trigger] self.rows()[j]),
                pred == (|c: Commit| c.repository_id == repository_id && c.oid@ == oid@),
            decreases n - i,
        {
            if self.rows[i].repository_id == repository_id && str_equal(
                self.rows[i].oid.as_str(),
                oid,
            ) {
                proof {
                    lemma_find_first_of(self.rows(), pred, i as int);
                }
                return Option::Some(self.rows[i].clone());
            }
            i = i + 1;
        }
        proof {
            lemma_find_first_none(self.rows(), pred);
        }
        Option::None
    }

    /// One page of a repository's rows, newest author time first.
    pub fn list_by_repository(
        &self,
        repository_id: i64,
        branch: Option<&str>,
        limit: i64,
        offset: i64,
    ) -> (r: Vec<Commit>)
        ensures
            r@ == spec_page(
                spec_sort_desc(
                    spec_matching(self.rows(), repository_id, spec_branch_opt(branch)),
                    false,
                ),
                offset as int,
                limit as int,
            ),
    {
        let matching = self.filter_matching(repository_id, branch);
        let sorted = sort_commits_desc(matching, false);
        page_commits(sorted, offset, limit)
    }

    /// The rows of the old branch that have no row on the new branch with
    /// the same author name and summary, newest committer time first,
    /// bounded by `limit`.
    pub fn find_diff_commits(
        &self,
        repository_id: i64,
        old_branch: &str,
        new_branch: &str,
        limit: i64,
    ) -> (r: Vec<Commit>)
        ensures
            r@ == spec_page(
                spec_sort_desc(
                    spec_diff_selection(self.rows(), repository_id, old_branch@, new_branch@),
                    true,
                ),
                0,
                limit as int,
            ),
    {
        let ghost pred = |c: Commit|
            c.repository_id == repository_id && c.branch@ == old_branch@ && !spec_has_equivalent(
                self.rows(),
                repository_id,
                new_branch@,
                c.author_name@,
                c.summary@,
            );
        let n = self.rows.len();
        let mut picked: Vec<Commit> = Vec::new();
        let mut i: usize = 0;
        proof {
            assert(self.rows().take(0).filter(pred) =~= Seq::<Commit>::empty());
            assert(picked@ =~= Seq::<Commit>::empty());
        }
        while i < n
            invariant
                i <= n,
                n == self.rows().len(),
                picked@ == self.rows().take(i as int).filter(pred),
                pred == (|c: Commit|
                    c.repository_id == repository_id && c.branch@ == old_branch@
                        && !spec_has_equivalent(
                        self.rows(),
                        repository_id,
                        new_branch@,
                        c.author_name@,
                        c.summary@,
                    )),
            decreases n - i,
        {
            proof {
                let taken = self.rows().take(i as int);
                assert(self.rows().take(i + 1) =~= taken.push(self.rows()[i as int]));
                lemma_filter_push(taken, self.rows()[i as int], pred);
            }
            if self.rows[i].repository_id == repository_id && str_equal(
                self.rows[i].branch.as_str(),
                old_branch,
            ) {
                let equivalent = self.has_equivalent(
                    repository_id,
                    new_branch,
                    &self.rows[i].author_name,
                    &self.rows[i].summary,
                );
                if !equivalent {
                    picked.push(self.rows[i].clone());
                }
            }
            i = i + 1;
        }
        proof {
            assert(self.rows().take(n as int) =~= self.rows());
        }
        let sorted = sort_commits_desc(picked, true);
        page_commits(sorted, 0, limit)
    }

    /// Whether some row of (`rid`, `branch`) shares the author name and
    /// summary.
    fn has_equivalent(&self, rid: i64, branch: &str, author_name: &String, summary: &String) -> (r:
        bool)
        ensures
            r == spec_has_equivalent(self.rows(), rid, branch@, author_name@, summary@),
    {
        let n = self.rows.len();
        let mut i: usize = 0;
        while i < n
            invariant
                i <= n,
                n == self.rows().len(),
                forall|j: int|
                    0 <= j < i ==> !((#[trigger] self.rows()[j]).repository_id == rid
                        && self.rows()[j].branch@ == branch@ && self.rows()[j].author_name@
                        == author_name@ && self.rows()[j].summary@ == summary@),
            decreases n - i,
        {
            if self.rows[i].repository_id == rid && str_equal(self.rows[i].branch.as_str(), branch)
                && str_equal(self.rows[i].author_name.as_str(), author_name.as_str()) && str_equal(
                self.rows[i].summary.as_str(),
                summary.as_str(),
            ) {
                return true;
            }
            i = i + 1;
        }
        false
    }

    /// The repository's rows, optionally narrowed to one branch, in
    /// insertion order.
    fn filter_matching(&self, repository_id: i64, branch: Option<&str>) -> (r: Vec<Commit>)
        ensures
            r@ == spec_matching(self.rows(), repository_id, spec_branch_opt(branch)),
    {
        let ghost bopt = spec_branch_opt(branch);
        let ghost pred = |c: Commit|
            c.repository_id == repository_id && match bopt {
                Option::Some(b) => c.branch@ == b,
                Option::None => true,
            };
        let n = self.rows.len();
        let mut out: Vec<Commit> = Vec::new();
        let mut i: usize = 0;
        proof {
            assert(self.rows().take(0).filter(pred) =~= Seq::<Commit>::empty());
            assert(out@ =~= Seq::<Commit>::empty());
        }
        while i < n
            invariant
                i <= n,
                n == self.rows().len(),
                bopt == spec_branch_opt(branch),
                out@ == self.rows().take(i as int).filter(pred),
                pred == (|c: Commit|
                    c.repository_id == repository_id && match bopt {
                        Option::Some(b) => c.branch@ == b,
                        Option::None => true,
                    }),
            decreases n - i,
        {
            proof {
                let taken = self.rows().take(i as int);
                assert(self.rows().take(i + 1) =~= taken.push(self.rows()[i as int]));
                lemma_filter_push(taken, self.rows()[i as int], pred);
            }
            let row_matches = self.rows[i].repository_id == repository_id && (match branch {
                Option::Some(b) => str_equal(self.rows[i].branch.as_str(), b),
                Option::None => true,
            });
            if row_matches {
                out.push(self.rows[i].clone());
            }
            i = i + 1;
        }
        proof {
            assert(self.rows().take(n as int) =~= self.rows());
        }
        out
    }

    /// How many rows the repository, or one of its branches, holds.
    pub fn count_by_repository(&self, repository_id: i64, branch: Option<&str>) -> (r: i64)
        requires
            self.wf(),
        ensures
            r == spec_matching(self.rows(), repository_id, spec_branch_opt(branch)).len(),
    {
        let matching = self.filter_matching(repository_id, branch);
        proof {
            lemma_filter_len(
                self.rows(),
                |c: Commit|
                    c.repository_id == repository_id && match spec_branch_opt(branch) {
                        Option::Some(b) => c.branch@ == b,
                        Option::None => true,
                    },
            );
        }
        matching.len() as i64
    }

    /// Saves one row: a new identity is appended with the next free id; an
    /// existing identity keeps its row, with only summary and message
    /// refreshed. Returns the row's id.
    pub fn save(&mut self, commit: &Commit) -> (r: i64)
        requires
            old(self).wf(),
            old(self).next_id() < i64::MAX,
        ensures
            final(self).wf(),
            ({
                let found = spec_find_first(
                    old(self).rows(),
                    |c: Commit|
                        spec_commit_key(c, commit.repository_id, commit.oid@, commit.branch@),
                );
                match found {
                    Option::Some(i) => {
                        &&& final(self).rows() == old(self).rows().update(
                            i,
                            (Commit {
                                summary: commit.summary,
                                message: commit.message,
                                ..old(self).rows()[i]
                            }),
                        )
                        &&& r == old(self).rows()[i].id
                        &&& final(self).next_id() == old(self).next_id()
                    },
                    Option::None => {
                        &&& final(self).rows() == old(self).rows().push(
                            (Commit { id: old(self).next_id(), ..*commit }),
                        )
                        &&& r == old(self).next_id()
                        &&& final(self).next_id() == old(self).next_id() + 1
                    },
                }
            }),
    {
        let ghost pred = |c: Commit|
            spec_commit_key(c, commit.repository_id, commit.oid@, commit.branch@);
        let n = self.rows.len();
        let mut i: usize = 0;
        while i < n
            invariant
                i <= n,
                n == self.rows().len(),
                self.rows() == old(self).rows(),
                self.next_id() == old(self).next_id(),
                old(self).wf(),
                old(self).next_id() < i64::MAX,
                forall|j: int| 0 <= j < i ==> !pred(#[trigger] self.rows()[j]),
                pred == (|c: Commit|
                    spec_commit_key(c, commit.repository_id, commit.oid@, commit.branch@)),
            decreases n - i,
        {
            if self.rows[i].repository_id == commit.repository_id && str_equal(
                self.rows[i].oid.as_str(),
                commit.oid.as_str(),
            ) && str_equal(self.rows[i].branch.as_str(), commit.branch.as_str()) {
                proof {
                    lemma_find_first_of(self.rows(), pred, i as int);
                }
                let prev = self.rows.remove(i);
                let row_id = prev.id;
                let updated = Commit {
                    summary: commit.summary.clone(),
                    message: crate::entities::clone_opt_string(&commit.message),
                    ..prev
                };
                self.rows.insert(i, updated);
                proof {
                    let target = Commit {
                        summary: commit.summary,
                        message: commit.message,
                        ..old(self).rows()[i as int]
                    };
                    assert(updated == target);
                    assert(self.rows() =~= old(self).rows().update(i as int, target));
                    assert forall|a: int, b: int|
                        0 <= a < b < self.rows().len() implies !(self.rows()[a].repository_id
                        == self.rows()[b].repository_id && self.rows()[a].oid@
                        == self.rows()[b].oid@ && self.rows()[a].branch@
                        == self.rows()[b].branch@) by {
                        assert(self.rows()[a].repository_id == old(self).rows()[a].repository_id
                            && self.rows()[a].oid@ == old(self).rows()[a].oid@
                            && self.rows()[a].branch@ == old(self).rows()[a].branch@);
                        assert(self.rows()[b].repository_id == old(self).rows()[b].repository_id
                            && self.rows()[b].oid@ == old(self).rows()[b].oid@
                            && self.rows()[b].branch@ == old(self).rows()[b].branch@);
                    }
                }
                return row_id;
            }
            i = i + 1;
        }
        proof {
            lemma_find_first_none(self.rows(), pred);
        }
        let mut fresh = commit.clone();
        fresh.id = self.next_id;
        let row_id = self.next_id;
        proof {
            assert(fresh == (Commit { id: old(self).next_id(), ..*commit }));
        }
        self.rows.push(fresh);
        self.next_id = self.next_id + 1;
        proof {
            let pushed = Commit { id: old(self).next_id(), ..*commit };
            assert(self.rows() =~= old(self).rows().push(pushed));
            assert forall|a: int, b: int|
                0 <= a < b < self.rows().len() implies !(self.rows()[a].repository_id
                == self.rows()[b].repository_id && self.rows()[a].oid@ == self.rows()[b].oid@
                && self.rows()[a].branch@ == self.rows()[b].branch@) by {
                if b == self.rows().len() - 1 {
                    assert(!pred(old(self).rows()[a]));
                }
            }
        }
        row_id
    }

    /// Removes every row of one repository.
    pub fn delete_by_repository(&mut self, repository_id: i64)
        requires
            old(self).wf(),
        ensures
            final(self).wf(),
            final(self).rows() == old(self).rows().filter(
                |c: Commit| c.repository_id != repository_id,
            ),
            final(self).next_id() == old(self).next_id(),
    {
        let ghost pred = |c: Commit| c.repository_id != repository_id;
        let n = self.rows.len();
        let mut out: Vec<Commit> = Vec::new();
        let mut i: usize = 0;
        proof {
            assert(old(self).rows().take(0).filter(pred) =~= Seq::<Commit>::empty());
            assert(out@ =~= Seq::<Commit>::empty());
        }
        while i < n
            invariant
                i <= n,
                n == self.rows().len(),
                self.rows() == old(self).rows(),
                self.next_id() == old(self).next_id(),
                out@ == old(self).rows().take(i as int).filter(pred),
                pred == (|c: Commit| c.repository_id != repository_id),
            decreases n - i,
        {
            proof {
                let taken = old(self).rows().take(i as int);
                assert(old(self).rows().take(i + 1) =~= taken.push(old(self).rows()[i as int]));
                lemma_filter_push(taken, old(self).rows()[i as int], pred);
            }
            if self.rows[i].repository_id != repository_id {
                out.push(self.rows[i].clone());
            }
            i = i + 1;
        }
        proof {
            assert(old(self).rows().take(n as int) =~= old(self).rows());
        }
        self.rows = out;
        proof {
            lemma_filter_len(old(self).rows(), pred);
            assert forall|a: int, b: int|
                0 <= a < b < self.rows().len() implies !(self.rows()[a].repository_id
                == self.rows()[b].repository_id && self.rows()[a].oid@ == self.rows()[b].oid@
                && self.rows()[a].branch@ == self.rows()[b].branch@) by {
                lemma_filter_is_subseq(old(self).rows(), pred, a, b);
            }
        }
    }
}

/// The view of an optional branch-name argument.
pub open spec fn spec_branch_opt(branch: Option<&str>) -> Option<Seq<char>> {
    match branch {
        Option::Some(b) => Option::Some(b@),
        Option::None => Option::None,
    }
}

/// Inserting at the scanned position realises `spec_insert_desc`.
proof fn lemma_insert_desc_at(s: Seq<Commit>, c: Commit, by_committer: bool, p: int)
    requires
        0 <= p <= s.len(),
        forall|j: int|
            0 <= j < p ==> !(spec_time_key(c, by_committer) > spec_time_key(
                #[trigger] s[j],
                by_committer,
            )),
        p < s.len() ==> spec_time_key(c, by_committer) > spec_time_key(s[p], by_committer),
    ensures
        spec_insert_desc(s, c, by_committer) == s.take(p) + seq![c] + s.skip(p),
    decreases p,
{
    if s.len() == 0 {
        assert(spec_insert_desc(s, c, by_committer) =~= s.take(p) + seq![c] + s.skip(p));
    } else if p == 0 {
        assert(s.take(0) + seq![c] + s.skip(0) =~= seq![c] + s);
    } else {
        assert(forall|j: int| 0 <= j < p - 1 ==> s.skip(1)[j] == s[j + 1]);
        lemma_insert_desc_at(s.skip(1), c, by_committer, p - 1);
        assert(seq![s[0]] + (s.skip(1).take(p - 1) + seq![c] + s.skip(1).skip(p - 1)) =~= s.take(p)
            + seq![c] + s.skip(p));
    }
}

/// The slot a row belongs in within a descending-ordered listing: after
/// every row whose key is at least as great.
fn insert_position(out: &Vec<Commit>, c: &Commit, by_committer: bool) -> (p: usize)
    ensures
        p <= out@.len(),
        forall|j: int|
            0 <= j < p ==> !(spec_time_key(*c, by_committer) > spec_time_key(
                #[trigger] out@[j],
                by_committer,
            )),
        p < out@.len() ==> spec_time_key(*c, by_committer) > spec_time_key(
            out@[p as int],
            by_committer,
        ),
{
    let key = if by_committer {
        c.committer_time
    } else {
        c.author_time
    };
    let m = out.len();
    let mut p: usize = 0;
    while p < m
        invariant
            p <= m,
            m == out@.len(),
            key == spec_time_key(*c, by_committer),
            forall|j: int|
                0 <= j < p ==> !(spec_time_key(*c, by_committer) > spec_time_key(
                    #[trigger] out@[j],
                    by_committer,
                )),
        decreases m - p,
    {
        let out_key = if by_committer {
            out[p].committer_time
        } else {
            out[p].author_time
        };
        if key > out_key {
            return p;
        }
        p = p + 1;
    }
    p
}

/// Sorts rows by the chosen time key, newest first; rows with equal keys
/// keep their relative order.
pub fn sort_commits_desc(v: Vec<Commit>, by_committer: bool) -> (r: Vec<Commit>)
    ensures
        r@ == spec_sort_desc(v@, by_committer),
{
    let n = v.len();
    let mut out: Vec<Commit> = Vec::new();
    let mut i: usize = 0;
    proof {
        assert(v@.take(0) =~= Seq::<Commit>::empty());
        assert(out@ =~= spec_sort_desc(v@.take(0), by_committer));
    }
    while i < n
        invariant
            i <= n,
            n == v@.len(),
            out@ == spec_sort_desc(v@.take(i as int), by_committer),
            out@.len() == i,
        decreases n - i,
    {
        let c = &v[i];
        let p = insert_position(&out, c, by_committer);
        let ghost out_prev = out@;
        let cc = c.clone();
        out.insert(p, cc);
        proof {
            lemma_insert_desc_at(out_prev, v@[i as int], by_committer, p as int);
            assert(out@ =~= out_prev.take(p as int) + seq![v@[i as int]] + out_prev.skip(p as int));
            assert(v@.take(i + 1).drop_last() =~= v@.take(i as int));
            assert(v@.take(i + 1).last() == v@[i as int]);
        }
        i = i + 1;
    }
    proof {
        assert(v@.take(n as int) =~= v@);
    }
    out
}

/// Copies one page out of a listing, with the store's offset and limit
/// conventions.
pub fn page_commits(v: Vec<Commit>, offset: i64, limit: i64) -> (r: Vec<Commit>)
    ensures
        r@ == spec_page(v@, offset as int, limit as int),
{
    let n = v.len();
    let mut out: Vec<Commit> = Vec::new();
    let start: usize = if offset < 0 {
        0
    } else if offset as u64 > n as u64 {
        n
    } else {
        offset as usize
    };
    let ghost rest = spec_page(v@, offset as int, -1);
    proof {
        if start < n {
            assert(rest =~= v@.skip(start as int));
        } else {
            assert(rest =~= Seq::<Commit>::empty());
        }
    }
    let mut i: usize = start;
    proof {
        assert(out@ =~= Seq::<Commit>::empty());
    }
    while i < n && (limit < 0 || ((i - start) as u64) < (limit as u64))
        invariant
            start <= i <= n,
            n == v@.len(),
            start <= n,
            limit >= 0 ==> i - start <= limit,
            rest == spec_page(v@, offset as int, -1),
            start < n ==> rest == v@.skip(start as int),
            start >= n ==> rest == Seq::<Commit>::empty(),
            out@ == rest.take(i - start),
        decreases n - i,
    {
        let ghost prev = out@;
        out.push(v[i].clone());
        proof {
            assert(rest[i - start] == v@[i as int]);
            assert(out@ =~= rest.take(i + 1 - start));
        }
        i = i + 1;
    }
    proof {
        let limit_i = limit as int;
        if limit_i < 0 || limit_i >= rest.len() {
            assert(out@ =~= rest);
            assert(out@ =~= spec_page(v@, offset as int, limit as int));
        } else {
            assert(out@ =~= rest.take(limit_i));
            assert(out@ =~= spec_page(v@, offset as int, limit as int));
        }
    }
    out
}

} // verus!
