//! Plain records extracted from a version-control backend, and the
//! selection rule the indexer applies to a branch's history walk: walk at
//! most `limit` positions in reverse-chronological order, stop on the
//! cursor commit, and keep only non-merge commits.

use vstd::prelude::*;
use crate::entities::clone_opt_string;
use crate::text::{spec_trim, str_equal, trim_blanks};

verus! {

/// One commit as the backend reports it on a history walk.
#[derive(Debug, PartialEq)]
pub struct GitCommit {
    pub oid: String,
    pub author_name: String,
    pub author_email: String,
    pub author_time: i64,
    pub committer_name: String,
    pub committer_email: String,
    pub committer_time: i64,
    pub summary: String,
    pub message: Option<String>,
    pub parent_oids: Vec<String>,
}

/// The mathematical content of one walked commit.
#[verifier::ext_equal]
pub struct CommitView {
    pub oid: Seq<char>,
    pub author_name: Seq<char>,
    pub author_email: Seq<char>,
    pub author_time: i64,
    pub committer_name: Seq<char>,
    pub committer_email: Seq<char>,
    pub committer_time: i64,
    pub summary: Seq<char>,
    pub message: Option<Seq<char>>,
    pub parents: Seq<Seq<char>>,
}

impl View for GitCommit {
    type V = CommitView;

    open spec fn view(&self) -> CommitView {
        CommitView {
            oid: self.oid@,
            author_name: self.author_name@,
            author_email: self.author_email@,
            author_time: self.author_time,
            committer_name: self.committer_name@,
            committer_email: self.committer_email@,
            committer_time: self.committer_time,
            summary: self.summary@,
            message: match self.message {
                Option::Some(m) => Option::Some(m@),
                Option::None => Option::None,
            },
            parents: self.parent_oids.deep_view(),
        }
    }
}

impl Clone for GitCommit {
    fn clone(&self) -> (r: Self)
        ensures
            r@ == self@,
    {
        let parents = self.parent_oids.clone();
        proof {
            assert(parents@ =~= self.parent_oids@);
            assert(parents.deep_view() =~= self.parent_oids.deep_view());
        }
        let r = GitCommit {
            oid: self.oid.clone(),
            author_name: self.author_name.clone(),
            author_email: self.author_email.clone(),
            author_time: self.author_time,
            committer_name: self.committer_name.clone(),
            committer_email: self.committer_email.clone(),
            committer_time: self.committer_time,
            summary: self.summary.clone(),
            message: clone_opt_string(&self.message),
            parent_oids: parents,
        };
        proof {
            assert(r@ =~~= self@);
        }
        r
    }
}

/// The views of the commits of a walk, in walk order.
pub open spec fn commit_views(s: Seq<GitCommit>) -> Seq<CommitView> {
    Seq::new(s.len(), |i: int| s[i]@)
}

/// One remote-tracking branch as the backend reports it.
#[derive(Debug, PartialEq)]
pub struct GitBranch {
    pub name: String,
    pub target_oid: String,
    pub is_head: bool,
}

impl Clone for GitBranch {
    fn clone(&self) -> (r: Self)
        ensures
            r == *self,
    {
        GitBranch {
            name: self.name.clone(),
            target_oid: self.target_oid.clone(),
            is_head: self.is_head,
        }
    }
}

/// One tag as the backend reports it, with annotated metadata when present.
#[derive(Debug, Clone, PartialEq)]
pub struct GitTag {
    pub name: String,
    pub target_oid: String,
    pub tagger_name: Option<String>,
    pub tagger_email: Option<String>,
    pub tagger_time: Option<i64>,
    pub message: Option<String>,
}

/// What a fetch reported: which remote branch names were touched.
#[derive(Debug, Clone, PartialEq)]
pub struct FetchResult {
    pub commits_fetched: usize,
    pub branches_updated: Vec<String>,
}

/// One commit together with its rendered diff against its first parent.
#[derive(Debug)]
pub struct GitCommitDetail {
    pub commit: GitCommit,
    pub diff_stats: String,
    pub diff_html: String,
    pub diff_plain: Vec<u8>,
}

/// A tree-to-tree diff: summary statistics plus per-file patches.
#[derive(Debug)]
pub struct GitDiff {
    pub stats: String,
    pub patches: Vec<GitDiffPatch>,
}

/// One per-file entry of a diff.
#[derive(Debug, Clone, PartialEq)]
pub struct GitDiffPatch {
    pub old_path: Option<String>,
    pub new_path: Option<String>,
    pub status: String,
    pub hunks: Vec<String>,
}

/// The history walk of one ref, tips first.
#[derive(Debug)]
pub struct RefLog {
    pub ref_name: String,
    pub commits: Vec<GitCommit>,
}

/// Everything the indexer reads of one repository in one pass: the branch
/// listing and, per ref, the bounded history walk the backend yields.
#[derive(Debug)]
pub struct RepoSnapshot {
    pub branches: Vec<GitBranch>,
    pub logs: Vec<RefLog>,
}

/// The walk recorded for a ref name: the first entry that carries it.
pub open spec fn spec_find_log(logs: Seq<RefLog>, name: Seq<char>) -> Option<Seq<CommitView>>
    decreases logs.len(),
{
    if logs.len() == 0 {
        Option::None
    } else if logs[0].ref_name@ == name {
        Option::Some(commit_views(logs[0].commits@))
    } else {
        spec_find_log(logs.skip(1), name)
    }
}

impl RepoSnapshot {
    /// Looks a ref's walk up; `None` models a ref that does not resolve.
    pub fn find_log(&self, ref_name: &str) -> (r: Option<&Vec<GitCommit>>)
        ensures
            match r {
                Option::Some(log) => spec_find_log(self.logs@, ref_name@) == Option::Some(
                    commit_views(log@),
                ),
                Option::None => spec_find_log(self.logs@, ref_name@) is None,
            },
    {
        let n = self.logs.len();
        let mut i: usize = 0;
        proof {
            assert(self.logs@.skip(0) =~= self.logs@);
        }
        while i < n
            invariant
                i <= n,
                n == self.logs@.len(),
                spec_find_log(self.logs@, ref_name@) == spec_find_log(
                    self.logs@.skip(i as int),
                    ref_name@,
                ),
            decreases n - i,
        {
            proof {
                assert(self.logs@.skip(i as int)[0] == self.logs@[i as int]);
                assert(self.logs@.skip(i as int).skip(1) =~= self.logs@.skip(i + 1));
            }
            if str_equal(self.logs[i].ref_name.as_str(), ref_name) {
                return Option::Some(&self.logs[i].commits);
            }
            i = i + 1;
        }
        proof {
            assert(self.logs@.skip(n as int) =~= Seq::<RefLog>::empty());
        }
        Option::None
    }
}

/// One branch entry as the backend yields it, before the malformed ones
/// are dropped: either field can be missing or unreadable.
#[derive(Debug, PartialEq)]
pub struct BranchEntry {
    pub name: Option<String>,
    pub target_oid: Option<String>,
}

/// Whether an entry's name is the currently checked-out head.
pub open spec fn spec_head_match(head: Option<Seq<char>>, name: Seq<char>) -> bool {
    match head {
        Option::Some(h) => h == name,
        Option::None => false,
    }
}

/// The branch listing a set of raw entries yields: entries without a name
/// or without a target are skipped, the rest keep their order, and each is
/// marked when it is the checked-out head.
pub open spec fn spec_normalize_branches(entries: Seq<BranchEntry>, head: Option<Seq<char>>) -> Seq<
    GitBranch,
>
    decreases entries.len(),
{
    if entries.len() == 0 {
        Seq::empty()
    } else {
        let rest = spec_normalize_branches(entries.skip(1), head);
        match (entries[0].name, entries[0].target_oid) {
            (Option::Some(n), Option::Some(t)) => seq![
                GitBranch { name: n, target_oid: t, is_head: spec_head_match(head, n@) },
            ] + rest,
            _ => rest,
        }
    }
}

proof fn lemma_normalize_snoc(entries: Seq<BranchEntry>, e: BranchEntry, head: Option<Seq<char>>)
    ensures
        spec_normalize_branches(entries.push(e), head) == spec_normalize_branches(entries, head)
            + spec_normalize_branches(seq![e], head),
    decreases entries.len(),
{
    if entries.len() == 0 {
        assert(entries.push(e).skip(1) =~= Seq::<BranchEntry>::empty());
        assert(entries.push(e)[0] == e);
        assert(seq![e].skip(1) =~= Seq::<BranchEntry>::empty());
        assert(spec_normalize_branches(entries.push(e), head) =~= spec_normalize_branches(
            entries,
            head,
        ) + spec_normalize_branches(seq![e], head));
    } else {
        lemma_normalize_snoc(entries.skip(1), e, head);
        assert(entries.push(e).skip(1) =~= entries.skip(1).push(e));
        assert(entries.push(e)[0] == entries[0]);
        assert(spec_normalize_branches(entries.push(e), head) =~= spec_normalize_branches(
            entries,
            head,
        ) + spec_normalize_branches(seq![e], head));
    }
}

/// The view of an optional head-name argument.
pub open spec fn spec_head_opt(head_name: Option<&str>) -> Option<Seq<char>> {
    match head_name {
        Option::Some(h) => Option::Some(h@),
        Option::None => Option::None,
    }
}

/// Normalizes the backend's raw branch entries: malformed ones are
/// skipped rather than failing the whole listing.
pub fn normalize_branches(entries: &Vec<BranchEntry>, head_name: Option<&str>) -> (r: Vec<
    GitBranch,
>)
    ensures
        r@ == spec_normalize_branches(entries@, spec_head_opt(head_name)),
{
    let ghost head = spec_head_opt(head_name);
    let n = entries.len();
    let mut out: Vec<GitBranch> = Vec::new();
    let mut i: usize = 0;
    proof {
        assert(entries@.take(0) =~= Seq::<BranchEntry>::empty());
        assert(out@ =~= spec_normalize_branches(entries@.take(0), head));
    }
    while i < n
        invariant
            i <= n,
            n == entries@.len(),
            head == spec_head_opt(head_name),
            out@ == spec_normalize_branches(entries@.take(i as int), head),
        decreases n - i,
    {
        proof {
            assert(entries@.take(i + 1) =~= entries@.take(i as int).push(entries@[i as int]));
            lemma_normalize_snoc(entries@.take(i as int), entries@[i as int], head);
            assert(seq![entries@[i as int]][0] == entries@[i as int]);
            assert(seq![entries@[i as int]].skip(1) =~= Seq::<BranchEntry>::empty());
        }
        match (&entries[i].name, &entries[i].target_oid) {
            (Option::Some(name), Option::Some(target)) => {
                let is_head = match head_name {
                    Option::Some(h) => str_equal(h, name.as_str()),
                    Option::None => false,
                };
                let fresh = GitBranch {
                    name: name.clone(),
                    target_oid: target.clone(),
                    is_head,
                };
                proof {
                    assert(fresh == (GitBranch {
                        name: entries@[i as int].name->0,
                        target_oid: entries@[i as int].target_oid->0,
                        is_head: spec_head_match(head, entries@[i as int].name->0@),
                    }));
                }
                out.push(fresh);
                proof {
                    assert(spec_normalize_branches(Seq::<BranchEntry>::empty(), head)
                        == Seq::<GitBranch>::empty());
                    assert(spec_normalize_branches(seq![entries@[i as int]], head) =~= seq![fresh]);
                    assert(out@ =~= spec_normalize_branches(entries@.take(i + 1), head));
                }
            },
            _ => {
                proof {
                    assert(spec_normalize_branches(Seq::<BranchEntry>::empty(), head)
                        == Seq::<GitBranch>::empty());
                    assert(spec_normalize_branches(seq![entries@[i as int]], head)
                        =~= Seq::<GitBranch>::empty());
                    assert(out@ + spec_normalize_branches(seq![entries@[i as int]], head) =~= out@);
                }
            },
        }
        i = i + 1;
    }
    proof {
        assert(entries@.take(n as int) =~= entries@);
    }
    out
}

/// The object ids a line-per-id listing carries: each line trimmed of
/// blanks, empty lines dropped, order kept.
pub open spec fn spec_scan_oid_lines(s: Seq<char>, cur: Seq<char>, acc: Seq<Seq<char>>) -> Seq<
    Seq<char>,
>
    decreases s.len(),
{
    if s.len() == 0 {
        spec_finish_oid_line(cur, acc)
    } else if s[0] == '\n' {
        spec_scan_oid_lines(s.skip(1), Seq::empty(), spec_finish_oid_line(cur, acc))
    } else {
        spec_scan_oid_lines(s.skip(1), cur.push(s[0]), acc)
    }
}

/// One finished line: kept trimmed when anything is left of it.
pub open spec fn spec_finish_oid_line(cur: Seq<char>, acc: Seq<Seq<char>>) -> Seq<Seq<char>> {
    let t = spec_trim(cur);
    if t.len() == 0 {
        acc
    } else {
        acc.push(t)
    }
}

/// What `parse_oid_lines` yields for a whole listing.
pub open spec fn spec_oid_lines(s: Seq<char>) -> Seq<Seq<char>> {
    spec_scan_oid_lines(s, Seq::empty(), Seq::empty())
}

/// Parses a line-per-id listing, as a range log prints it: one trimmed id
/// per non-empty line.
pub fn parse_oid_lines(text: &str) -> (r: Vec<String>)
    ensures
        r.deep_view() == spec_oid_lines(text@),
{
    let n = text.unicode_len();
    let mut cur = String::new();
    let mut out: Vec<String> = Vec::new();
    let mut i: usize = 0;
    proof {
        assert(text@.skip(0) =~= text@);
        assert(out.deep_view() =~= Seq::<Seq<char>>::empty());
    }
    while i < n
        invariant
            i <= n,
            n == text@.len(),
            spec_oid_lines(text@) == spec_scan_oid_lines(
                text@.skip(i as int),
                cur@,
                out.deep_view(),
            ),
        decreases n - i,
    {
        let c = text.get_char(i);
        proof {
            assert(text@.skip(i as int)[0] == text@[i as int]);
            assert(text@.skip(i as int).skip(1) =~= text@.skip(i + 1));
        }
        if c == '\n' {
            let finished = cur;
            cur = String::new();
            let trimmed = trim_blanks(finished.as_str());
            if trimmed.as_str().unicode_len() > 0 {
                let ghost prev = out.deep_view();
                out.push(trimmed);
                proof {
                    assert(out.deep_view() =~= prev.push(spec_trim(finished@)));
                }
            }
        } else {
            cur.push(c);
        }
        i = i + 1;
    }
    proof {
        assert(text@.skip(n as int) =~= Seq::<char>::empty());
    }
    let trimmed = trim_blanks(cur.as_str());
    if trimmed.as_str().unicode_len() > 0 {
        let ghost prev = out.deep_view();
        out.push(trimmed);
        proof {
            assert(out.deep_view() =~= prev.push(spec_trim(cur@)));
        }
    }
    out
}

/// Whether a walked commit is a merge: it has more than one parent.
pub open spec fn spec_is_merge(c: CommitView) -> bool {
    c.parents.len() > 1
}

/// Whether a walked commit is the cursor the walk must stop on.
pub open spec fn spec_cursor_hit(c: CommitView, since: Option<Seq<char>>) -> bool {
    match since {
        Option::Some(oid) => c.oid == oid,
        Option::None => false,
    }
}

/// The commits the indexer takes from a walk: positions are consumed up to
/// `limit`, the walk stops before the cursor commit, merges are dropped.
pub open spec fn spec_select(log: Seq<CommitView>, limit: nat, since: Option<Seq<char>>) -> Seq<
    CommitView,
>
    decreases log.len(),
{
    if log.len() == 0 || limit == 0 {
        Seq::empty()
    } else if spec_cursor_hit(log[0], since) {
        Seq::empty()
    } else {
        let rest = spec_select(log.skip(1), (limit - 1) as nat, since);
        if spec_is_merge(log[0]) {
            rest
        } else {
            seq![log[0]] + rest
        }
    }
}

/// The view of an optional cursor argument.
pub open spec fn spec_since(since_oid: Option<&str>) -> Option<Seq<char>> {
    match since_oid {
        Option::Some(s) => Option::Some(s@),
        Option::None => Option::None,
    }
}

/// Walks a ref's history and keeps what the indexer stores, as
/// `spec_select` describes: newest first, bounded, cursor-exclusive,
/// merges skipped.
pub fn select_commits(log: &Vec<GitCommit>, limit: usize, since_oid: Option<&str>) -> (r: Vec<
    GitCommit,
>)
    ensures
        commit_views(r@) == spec_select(commit_views(log@), limit as nat, spec_since(since_oid)),
{
    let ghost since = spec_since(since_oid);
    let ghost lv = commit_views(log@);
    let n = log.len();
    let mut out: Vec<GitCommit> = Vec::new();
    let mut i: usize = 0;
    proof {
        assert(lv.skip(0) =~= lv);
        assert(commit_views(out@) =~= Seq::<CommitView>::empty());
        assert(commit_views(out@) + spec_select(lv, limit as nat, since) =~= spec_select(
            lv,
            limit as nat,
            since,
        ));
    }
    while i < n && i < limit
        invariant
            i <= n,
            n == log@.len(),
            lv == commit_views(log@),
            since == spec_since(since_oid),
            lv.len() == n,
            i <= limit,
            spec_select(lv, limit as nat, since) == commit_views(out@) + spec_select(
                lv.skip(i as int),
                (limit - i) as nat,
                since,
            ),
        decreases n - i,
    {
        proof {
            assert(lv.skip(i as int)[0] == lv[i as int]);
            assert(lv[i as int] == log@[i as int]@);
            assert(lv.skip(i as int).skip(1) =~= lv.skip(i + 1));
        }
        let hit_cursor = match since_oid {
            Option::Some(s) => str_equal(log[i].oid.as_str(), s),
            Option::None => false,
        };
        proof {
            assert(hit_cursor == spec_cursor_hit(lv[i as int], since));
        }
        if hit_cursor {
            proof {
                assert(spec_select(lv.skip(i as int), (limit - i) as nat, since)
                    =~= Seq::<CommitView>::empty());
                assert(commit_views(out@) + Seq::<CommitView>::empty() =~= commit_views(out@));
            }
            return out;
        }
        if !(log[i].parent_oids.len() > 1) {
            proof {
                assert(log@[i as int]@.parents.len() == log@[i as int].parent_oids@.len());
                assert(!spec_is_merge(lv[i as int]));
            }
            let c = log[i].clone();
            let ghost prev = out@;
            out.push(c);
            proof {
                assert(commit_views(out@) =~= commit_views(prev).push(lv[i as int]));
                assert(commit_views(prev).push(lv[i as int]) + spec_select(
                    lv.skip(i + 1),
                    (limit - i - 1) as nat,
                    since,
                ) =~= commit_views(prev) + (seq![lv[i as int]] + spec_select(
                    lv.skip(i + 1),
                    (limit - i - 1) as nat,
                    since,
                )));
            }
        } else {
            proof {
                assert(spec_is_merge(lv[i as int]));
            }
        }
        i = i + 1;
    }
    proof {
        if i == n {
            assert(lv.skip(n as int) =~= Seq::<CommitView>::empty());
        }
        assert(spec_select(lv.skip(i as int), (limit - i) as nat, since)
            =~= Seq::<CommitView>::empty());
        assert(commit_views(out@) + Seq::<CommitView>::empty() =~= commit_views(out@));
    }
    out
}

} // verus!
