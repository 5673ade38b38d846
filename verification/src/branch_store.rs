//! The branch table: one row per (`repository_id`, `name`) pair, replaced
//! on every save, exactly as the relational store's unique constraint and
//! upsert statement behave.

use vstd::prelude::*;
use crate::entities::Branch;
use crate::table::{lemma_find_first_none, lemma_find_first_of, spec_find_first};
use crate::text::str_equal;

verus! {

/// Whether a row carries the given identity.
pub open spec fn spec_branch_key(row: Branch, rid: i64, name: Seq<char>) -> bool {
    row.repository_id == rid && row.name@ == name
}

/// The index of the first row carrying the identity, if any.
pub open spec fn spec_find_branch(rows: Seq<Branch>, rid: i64, name: Seq<char>) -> Option<int>
    decreases rows.len(),
{
    if rows.len() == 0 {
        Option::None
    } else if spec_branch_key(rows[0], rid, name) {
        Option::Some(0)
    } else {
        match spec_find_branch(rows.skip(1), rid, name) {
            Option::Some(i) => Option::Some(i + 1),
            Option::None => Option::None,
        }
    }
}

/// No two rows share an identity.
pub open spec fn spec_unique_branch_keys(rows: Seq<Branch>) -> bool {
    forall|i: int, j: int|
        0 <= i < j < rows.len() ==> !(rows[i].repository_id == rows[j].repository_id
            && rows[i].name@ == rows[j].name@)
}

/// The row an upsert of `b` leaves in a matched slot: target, default flag
/// and timestamp are replaced; identity and id are kept.
pub open spec fn spec_upserted_row(old_row: Branch, b: Branch) -> Branch {
    Branch {
        target_oid: b.target_oid,
        is_default: b.is_default,
        updated_at: b.updated_at,
        ..old_row
    }
}

/// What one upsert leaves behind: the matched row replaced, or a fresh row
/// with the next id appended.
pub open spec fn spec_upsert_branch(rows: Seq<Branch>, b: Branch, next_id: int) -> (Seq<Branch>, int) {
    match spec_find_branch(rows, b.repository_id, b.name@) {
        Option::Some(i) => (rows.update(i, spec_upserted_row(rows[i], b)), next_id),
        Option::None => (rows.push(Branch { id: next_id as i64, ..b }), next_id + 1),
    }
}

/// What a batch upsert leaves behind, row by row in batch order.
pub open spec fn spec_upsert_branches(rows: Seq<Branch>, bs: Seq<Branch>, next_id: int) -> (
    Seq<Branch>,
    int,
)
    decreases bs.len(),
{
    if bs.len() == 0 {
        (rows, next_id)
    } else {
        let stepped = spec_upsert_branch(rows, bs[0], next_id);
        spec_upsert_branches(stepped.0, bs.skip(1), stepped.1)
    }
}

/// A batch upsert advances the id counter by at most the batch's length.
pub proof fn lemma_upsert_branches_next_bound(rows: Seq<Branch>, bs: Seq<Branch>, nid: int)
    ensures
        nid <= spec_upsert_branches(rows, bs, nid).1 <= nid + bs.len(),
    decreases bs.len(),
{
    if bs.len() > 0 {
        let stepped = spec_upsert_branch(rows, bs[0], nid);
        lemma_upsert_branches_next_bound(stepped.0, bs.skip(1), stepped.1);
    }
}

/// The branch table, keyed by (`repository_id`, `name`).
#[derive(Debug)]
pub struct BranchStore {
    rows: Vec<Branch>,
    next_id: i64,
}

impl BranchStore {
    /// The rows currently stored, in insertion order.
    pub closed spec fn rows(&self) -> Seq<Branch> {
        self.rows@
    }

    /// The id the next fresh row will receive.
    pub closed spec fn next_id(&self) -> i64 {
        self.next_id
    }

    /// The store's invariant: identities unique, fewer rows than the next
    /// free id.
    pub open spec fn wf(&self) -> bool {
        spec_unique_branch_keys(self.rows()) && 1 <= self.next_id() && self.rows().len()
            < self.next_id()
    }

    pub fn new() -> (r: Self)
        ensures
            r.wf(),
            r.rows() == Seq::<Branch>::empty(),
            r.next_id() == 1,
    {
        let r = BranchStore { rows: Vec::new(), next_id: 1 };
        proof {
            assert(r.rows() =~= Seq::<Branch>::empty());
        }
        r
    }


    /// The id the next fresh row will receive, for callers that must
    /// budget insertions.
    pub fn next_row_id(&self) -> (r: i64)
        ensures
            r == self.next_id(),
    {
        self.next_id
    }

    /// Looks the slot for an identity up.
    fn find_slot(&self, rid: i64, name: &str) -> (r: Option<usize>)
        ensures
            match r {
                Option::Some(i) => spec_find_branch(self.rows(), rid, name@) == Option::Some(
                    i as int,
                ) && i < self.rows().len() && spec_branch_key(self.rows()[i as int], rid, name@),
                Option::None => spec_find_branch(self.rows(), rid, name@) is None,
            },
    {
        let n = self.rows.len();
        let mut i: usize = 0;
        while i < n
            invariant
                i <= n,
                n == self.rows().len(),
                forall|j: int| 0 <= j < i ==> !spec_branch_key(#[trigger] self.rows()[j], rid, name@),
            decreases n - i,
        {
            if self.rows[i].repository_id == rid && str_equal(self.rows[i].name.as_str(), name) {
                proof {
                    lemma_find_branch_first(self.rows(), rid, name@, i as int);
                }
                return Option::Some(i);
            }
            i = i + 1;
        }
        proof {
            lemma_find_branch_none(self.rows(), rid, name@);
        }
        Option::None
    }

    /// Saves one branch: replaces the row with its identity or appends a
    /// fresh one, as the store's upsert does.
    pub fn save(&mut self, branch: &Branch)
        requires
            old(self).wf(),
            old(self).next_id() < i64::MAX,
        ensures
            final(self).wf(),
            final(self).rows() == spec_upsert_branch(
                old(self).rows(),
                *branch,
                old(self).next_id() as int,
            ).0,
            final(self).next_id() as int == spec_upsert_branch(
                old(self).rows(),
                *branch,
                old(self).next_id() as int,
            ).1,
    {
        let slot = self.find_slot(branch.repository_id, branch.name.as_str());
        match slot {
            Option::Some(i) => {
                let prev = self.rows.remove(i);
                let updated = Branch {
                    id: prev.id,
                    repository_id: prev.repository_id,
                    name: prev.name,
                    target_oid: branch.target_oid.clone(),
                    is_default: branch.is_default,
                    updated_at: branch.updated_at,
                };
                self.rows.insert(i, updated);
                proof {
                    let target = spec_upserted_row(old(self).rows()[i as int], *branch);
                    assert(updated == target);
                    assert(self.rows() =~= old(self).rows().update(i as int, target));
                    lemma_unique_after_update(old(self).rows(), i as int, target);
                }
            },
            Option::None => {
                let fresh = Branch {
                    id: self.next_id,
                    repository_id: branch.repository_id,
                    name: branch.name.clone(),
                    target_oid: branch.target_oid.clone(),
                    is_default: branch.is_default,
                    updated_at: branch.updated_at,
                };
                self.rows.push(fresh);
                self.next_id = self.next_id + 1;
                proof {
                    lemma_find_branch_covers(old(self).rows(), branch.repository_id, branch.name@);
                    assert(fresh == (Branch { id: old(self).next_id(), ..*branch }));
                    assert(self.rows() =~= old(self).rows().push(
                        Branch { id: old(self).next_id(), ..*branch },
                    ));
                    assert forall|a: int, b: int|
                        0 <= a < b < self.rows().len() implies !(self.rows()[a].repository_id
                        == self.rows()[b].repository_id && self.rows()[a].name@
                        == self.rows()[b].name@) by {
                        if b == self.rows().len() - 1 {
                            assert(!spec_branch_key(
                                old(self).rows()[a],
                                branch.repository_id,
                                branch.name@,
                            ));
                        }
                    }
                }
            },
        }
    }

    /// Saves a whole batch, row by row in batch order.
    pub fn save_many(&mut self, branches: &Vec<Branch>)
        requires
            old(self).wf(),
            old(self).next_id() as int + branches@.len() <= i64::MAX,
        ensures
            final(self).wf(),
            final(self).rows() == spec_upsert_branches(
                old(self).rows(),
                branches@,
                old(self).next_id() as int,
            ).0,
            final(self).next_id() as int == spec_upsert_branches(
                old(self).rows(),
                branches@,
                old(self).next_id() as int,
            ).1,
    {
        let ghost target = spec_upsert_branches(
            old(self).rows(),
            branches@,
            old(self).next_id() as int,
        );
        let n = branches.len();
        let mut i: usize = 0;
        proof {
            assert(branches@.skip(0) =~= branches@);
        }
        while i < n
            invariant
                i <= n,
                n == branches@.len(),
                self.wf(),
                self.next_id() as int + (n - i) <= i64::MAX,
                target == spec_upsert_branches(
                    old(self).rows(),
                    branches@,
                    old(self).next_id() as int,
                ),
                target == spec_upsert_branches(
                    self.rows(),
                    branches@.skip(i as int),
                    self.next_id() as int,
                ),
            decreases n - i,
        {
            proof {
                assert(branches@.skip(i as int)[0] == branches@[i as int]);
                assert(branches@.skip(i as int).skip(1) =~= branches@.skip(i + 1));
            }
            self.save(&branches[i]);
            i = i + 1;
        }
        proof {
            assert(branches@.skip(n as int) =~= Seq::<Branch>::empty());
        }
    }

    /// All rows of one repository, in insertion order.
    pub fn find_by_repository(&self, repository_id: i64) -> (r: Vec<Branch>)
        ensures
            r@ == self.rows().filter(|b: Branch| b.repository_id == repository_id),
    {
        let n = self.rows.len();
        let mut out: Vec<Branch> = Vec::new();
        let mut i: usize = 0;
        proof {
            assert(self.rows().take(0).filter(|b: Branch| b.repository_id == repository_id)
                =~= Seq::<Branch>::empty());
            assert(out@ =~= Seq::<Branch>::empty());
        }
        while i < n
            invariant
                i <= n,
                n == self.rows().len(),
                out@ == self.rows().take(i as int).filter(
                    |b: Branch| b.repository_id == repository_id,
                ),
            decreases n - i,
        {
            proof {
                let pred = |b: Branch| b.repository_id == repository_id;
                let taken = self.rows().take(i as int);
                assert(self.rows().take(i + 1) =~= taken.push(self.rows()[i as int]));
                lemma_filter_push(taken, self.rows()[i as int], pred);
            }
            if self.rows[i].repository_id == repository_id {
                out.push(self.rows[i].clone());
            }
            i = i + 1;
        }
        proof {
            assert(self.rows().take(n as int) =~= self.rows());
        }
        out
    }

    /// Removes every row of one repository.
    pub fn delete_by_repository(&mut self, repository_id: i64)
        requires
            old(self).wf(),
        ensures
            final(self).wf(),
            final(self).rows() == old(self).rows().filter(
                |b: Branch| b.repository_id != repository_id,
            ),
            final(self).next_id() == old(self).next_id(),
    {
        let n = self.rows.len();
        let mut out: Vec<Branch> = Vec::new();
        let mut i: usize = 0;
        proof {
            assert(old(self).rows().take(0).filter(|b: Branch| b.repository_id != repository_id)
                =~= Seq::<Branch>::empty());
            assert(out@ =~= Seq::<Branch>::empty());
        }
        while i < n
            invariant
                i <= n,
                n == self.rows().len(),
                self.rows() == old(self).rows(),
                self.next_id() == old(self).next_id(),
                out@ == old(self).rows().take(i as int).filter(
                    |b: Branch| b.repository_id != repository_id,
                ),
            decreases n - i,
        {
            proof {
                let pred = |b: Branch| b.repository_id != repository_id;
                let taken = old(self).rows().take(i as int);
                assert(old(self).rows().take(i + 1) =~= taken.push(old(self).rows()[i as int]));
                lemma_filter_push(taken, old(self).rows()[i as int], pred);
            }
            if self.rows[i].repository_id != repository_id {
                out.push(self.rows[i].clone());
            }
            i = i + 1;
        }
        proof {
            assert(old(self).rows().take(n as int) =~= old(self).rows());
        }
        self.rows = out;
        proof {
            let pred = |b: Branch| b.repository_id != repository_id;
            lemma_filter_len(old(self).rows(), pred);
            assert forall|a: int, b: int|
                0 <= a < b < self.rows().len() implies !(self.rows()[a].repository_id
                == self.rows()[b].repository_id && self.rows()[a].name@
                == self.rows()[b].name@) by {
                lemma_filter_is_subseq(old(self).rows(), pred, a, b);
            }
        }
    }
}

/// The branch a listing defaults to: the row marked as the checked-out
/// default when one exists, else the first row.
pub fn pick_default(rows: &Vec<Branch>) -> (r: Option<&Branch>)
    ensures
        match r {
            Option::Some(b) => rows@.len() > 0 && (match spec_find_first(
                rows@,
                |x: Branch| x.is_default,
            ) {
                Option::Some(i) => 0 <= i < rows@.len() && *b == rows@[i],
                Option::None => *b == rows@[0],
            }),
            Option::None => rows@.len() == 0,
        },
{
    let ghost pred = |x: Branch| x.is_default;
    let n = rows.len();
    let mut i: usize = 0;
    while i < n
        invariant
            i <= n,
            n == rows@.len(),
            forall|j: int| 0 <= j < i ==> !pred(#[trigger] rows@[j]),
            pred == (|x: Branch| x.is_default),
        decreases n - i,
    {
        if rows[i].is_default {
            proof {
                lemma_find_first_of(rows@, pred, i as int);
            }
            return Option::Some(&rows[i]);
        }
        i = i + 1;
    }
    proof {
        lemma_find_first_none(rows@, pred);
    }
    if n > 0 {
        Option::Some(&rows[0])
    } else {
        Option::None
    }
}

/// A filtered sequence is no longer than its source.
pub proof fn lemma_filter_len<T>(s: Seq<T>, pred: spec_fn(T) -> bool)
    ensures
        s.filter(pred).len() <= s.len(),
    decreases s.len(),
{
    s.filter_lemma(pred);
}

/// Filtering after appending one element appends it when it matches.
pub proof fn lemma_filter_push<T>(s: Seq<T>, x: T, pred: spec_fn(T) -> bool)
    ensures
        s.push(x).filter(pred) == if pred(x) {
            s.filter(pred).push(x)
        } else {
            s.filter(pred)
        },
{
    reveal(Seq::filter);
    assert(s.push(x).drop_last() =~= s);
    assert(s.push(x).last() == x);
    if pred(x) {
        assert(s.push(x).filter(pred) =~= s.filter(pred).push(x));
    }
}

/// Two positions of a filtered sequence come from two ordered positions of
/// the source, so any pairwise property of the source carries over.
pub proof fn lemma_filter_is_subseq<T>(s: Seq<T>, pred: spec_fn(T) -> bool, i: int, j: int)
    requires
        0 <= i < j < s.filter(pred).len(),
    ensures
        exists|a: int, b: int|
            0 <= a < b < s.len() && s[a] == s.filter(pred)[i] && s[b] == s.filter(pred)[j],
    decreases s.len(),
{
    reveal(Seq::filter);
    let fr = s.filter(pred);
    lemma_filter_len(s, pred);
    let last = s.last();
    assert(s.drop_last().push(last) =~= s);
    lemma_filter_push(s.drop_last(), last, pred);
    if pred(last) && j == fr.len() - 1 {
        lemma_filter_mem_index(s.drop_last(), pred, i);
        let a = choose|a: int|
            0 <= a < s.drop_last().len() && s.drop_last()[a] == s.drop_last().filter(pred)[i];
        assert(s[a] == fr[i]);
        assert(s[s.len() - 1] == fr[j]);
    } else {
        lemma_filter_is_subseq(s.drop_last(), pred, i, j);
        let (a, b) = choose|a: int, b: int|
            0 <= a < b < s.drop_last().len() && s.drop_last()[a] == s.drop_last().filter(pred)[i]
                && s.drop_last()[b] == s.drop_last().filter(pred)[j];
        assert(s[a] == fr[i] && s[b] == fr[j]);
    }
}

/// Every filtered position has a source position holding the same element.
pub proof fn lemma_filter_mem_index<T>(s: Seq<T>, pred: spec_fn(T) -> bool, i: int)
    requires
        0 <= i < s.filter(pred).len(),
    ensures
        exists|a: int| 0 <= a < s.len() && s[a] == s.filter(pred)[i],
    decreases s.len(),
{
    reveal(Seq::filter);
    let fr = s.filter(pred);
    lemma_filter_len(s, pred);
    let last = s.last();
    assert(s.drop_last().push(last) =~= s);
    lemma_filter_push(s.drop_last(), last, pred);
    if pred(last) && i == fr.len() - 1 {
        assert(s[s.len() - 1] == fr[i]);
    } else {
        lemma_filter_mem_index(s.drop_last(), pred, i);
        let a = choose|a: int|
            0 <= a < s.drop_last().len() && s.drop_last()[a] == s.drop_last().filter(pred)[i];
        assert(s[a] == fr[i]);
    }
}

/// When everything before `i` misses the key and `i` hits it, `i` is the
/// first match.
pub proof fn lemma_find_branch_first(rows: Seq<Branch>, rid: i64, name: Seq<char>, i: int)
    requires
        0 <= i < rows.len(),
        spec_branch_key(rows[i], rid, name),
        forall|j: int| 0 <= j < i ==> !spec_branch_key(#[trigger] rows[j], rid, name),
    ensures
        spec_find_branch(rows, rid, name) == Option::Some(i),
    decreases i,
{
    if i > 0 {
        assert(rows.skip(1)[i - 1] == rows[i]);
        assert forall|j: int| 0 <= j < i - 1 implies !spec_branch_key(
            #[trigger] rows.skip(1)[j],
            rid,
            name,
        ) by {
            assert(rows.skip(1)[j] == rows[j + 1]);
        }
        lemma_find_branch_first(rows.skip(1), rid, name, i - 1);
    }
}

/// When no row hits the key, the search yields nothing.
pub proof fn lemma_find_branch_none(rows: Seq<Branch>, rid: i64, name: Seq<char>)
    requires
        forall|j: int| 0 <= j < rows.len() ==> !spec_branch_key(#[trigger] rows[j], rid, name),
    ensures
        spec_find_branch(rows, rid, name) is None,
    decreases rows.len(),
{
    if rows.len() > 0 {
        assert forall|j: int| 0 <= j < rows.skip(1).len() implies !spec_branch_key(
            #[trigger] rows.skip(1)[j],
            rid,
            name,
        ) by {
            assert(rows.skip(1)[j] == rows[j + 1]);
        }
        lemma_find_branch_none(rows.skip(1), rid, name);
    }
}

/// A missing key means no row carries it.
pub proof fn lemma_find_branch_covers(rows: Seq<Branch>, rid: i64, name: Seq<char>)
    requires
        spec_find_branch(rows, rid, name) is None,
    ensures
        forall|j: int| 0 <= j < rows.len() ==> !spec_branch_key(#[trigger] rows[j], rid, name),
    decreases rows.len(),
{
    if rows.len() > 0 {
        assert(!spec_branch_key(rows[0], rid, name));
        assert(spec_find_branch(rows.skip(1), rid, name) is None);
        lemma_find_branch_covers(rows.skip(1), rid, name);
        assert forall|j: int| 0 <= j < rows.len() implies !spec_branch_key(
            #[trigger] rows[j],
            rid,
            name,
        ) by {
            if j > 0 {
                assert(rows.skip(1)[j - 1] == rows[j]);
            }
        }
    }
}

/// Updating a row without changing its identity keeps identities unique.
pub proof fn lemma_unique_after_update(rows: Seq<Branch>, i: int, row: Branch)
    requires
        spec_unique_branch_keys(rows),
        0 <= i < rows.len(),
        row.repository_id == rows[i].repository_id,
        row.name@ == rows[i].name@,
    ensures
        spec_unique_branch_keys(rows.update(i, row)),
{
    let updated = rows.update(i, row);
    assert forall|a: int, b: int|
        0 <= a < b < updated.len() implies !(updated[a].repository_id == updated[b].repository_id
        && updated[a].name@ == updated[b].name@) by {
        assert(updated[a].repository_id == rows[a].repository_id && updated[a].name@
            == rows[a].name@);
        assert(updated[b].repository_id == rows[b].repository_id && updated[b].name@
            == rows[b].name@);
    }
}

} // verus!
