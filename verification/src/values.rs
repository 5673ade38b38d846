//! Identity value objects: repository ids, commit identifiers, branch names.

use vstd::prelude::*;
use crate::text::{spec_decimal, str_starts_with, usize_to_string};

verus! {

/// Numeric identity of a repository row in the store.
#[derive(Debug, Clone, Copy, PartialEq, Eq, Hash)]
pub struct RepositoryId(pub i64);

impl RepositoryId {
    pub fn new(id: i64) -> (r: Self)
        ensures
            r.0 == id,
    {
        RepositoryId(id)
    }

    pub fn as_i64(&self) -> (r: i64)
        ensures
            r == self.0,
    {
        self.0
    }
}

/// Whether a character is an ASCII hexadecimal digit.
pub open spec fn spec_is_hex_char(c: char) -> bool {
    ('0' <= c && c <= '9') || ('a' <= c && c <= 'f') || ('A' <= c && c <= 'F')
}

/// Whether a string of characters is a well-formed commit identifier:
/// exactly forty hexadecimal digits.
pub open spec fn spec_valid_sha(s: Seq<char>) -> bool {
    s.len() == 40 && forall|i: int| 0 <= i < s.len() ==> spec_is_hex_char(#[trigger] s[i])
}

/// A validated commit object identifier.
#[derive(Debug, Clone, PartialEq, Eq, Hash)]
pub struct CommitSha(String);

impl View for CommitSha {
    type V = Seq<char>;

    closed spec fn view(&self) -> Seq<char> {
        self.0@
    }
}

impl CommitSha {
    /// Accepts exactly the forty-digit hexadecimal identifiers; everything
    /// else is rejected with a message saying which rule failed.
    pub fn new(sha: String) -> (r: Result<Self, String>)
        ensures
            match r {
                Ok(cs) => spec_valid_sha(sha@) && cs@ == sha@,
                Err(msg) => !spec_valid_sha(sha@) && (if sha@.len() != 40 {
                    msg@ == "Invalid commit SHA length: "@ + spec_decimal(sha@.len())
                } else {
                    msg@ == "Invalid commit SHA: contains non-hex characters"@
                }),
            },
    {
        let n = sha.as_str().unicode_len();
        if n != 40 {
            let msg = String::from_str("Invalid commit SHA length: ").concat(
                usize_to_string(n).as_str(),
            );
            return Err(msg);
        }
        let mut i: usize = 0;
        while i < n
            invariant
                i <= n,
                n == sha@.len(),
                n == 40,
                forall|j: int| 0 <= j < i ==> spec_is_hex_char(#[trigger] sha@[j]),
            decreases n - i,
        {
            let c = sha.as_str().get_char(i);
            if !(('0' <= c && c <= '9') || ('a' <= c && c <= 'f') || ('A' <= c && c <= 'F')) {
                return Err(String::from_str("Invalid commit SHA: contains non-hex characters"));
            }
            i = i + 1;
        }
        Ok(CommitSha(sha))
    }

    pub fn as_str(&self) -> (r: &str)
        ensures
            r@ == self@,
    {
        self.0.as_str()
    }
}

/// A branch name, possibly carrying a full ref prefix.
#[derive(Debug, Clone, PartialEq, Eq, Hash)]
pub struct BranchName(String);

impl View for BranchName {
    type V = Seq<char>;

    closed spec fn view(&self) -> Seq<char> {
        self.0@
    }
}

impl BranchName {
    pub fn new(name: String) -> (r: Self)
        ensures
            r@ == name@,
    {
        BranchName(name)
    }

    pub fn as_str(&self) -> (r: &str)
        ensures
            r@ == self@,
    {
        self.0.as_str()
    }

    /// The name with a remote-tracking or local-heads ref prefix removed.
    pub fn short_name(&self) -> (r: &str)
        ensures
            r@ == spec_short_name(self@),
    {
        let s = self.0.as_str();
        let remote_prefix = "refs/remotes/origin/";
        let heads_prefix = "refs/heads/";
        if str_starts_with(s, remote_prefix) {
            let from = remote_prefix.unicode_len();
            let r = s.substring_char(from, s.unicode_len());
            proof {
                assert(r@ =~= self@.skip("refs/remotes/origin/"@.len() as int));
            }
            r
        } else if str_starts_with(s, heads_prefix) {
            let from = heads_prefix.unicode_len();
            let r = s.substring_char(from, s.unicode_len());
            proof {
                assert(r@ =~= self@.skip("refs/heads/"@.len() as int));
            }
            r
        } else {
            s
        }
    }
}

/// What `short_name` yields: the suffix after the first recognised ref
/// prefix, or the whole name when none applies.
pub open spec fn spec_short_name(s: Seq<char>) -> Seq<char> {
    if "refs/remotes/origin/"@.is_prefix_of(s) {
        s.skip("refs/remotes/origin/"@.len() as int)
    } else if "refs/heads/"@.is_prefix_of(s) {
        s.skip("refs/heads/"@.len() as int)
    } else {
        s
    }
}

} // verus!
