//! The displayable parts of a diff that are pure computation: the summary
//! statistics line and the HTML-safe rendering of each patch line.

use vstd::prelude::*;
use crate::text::{escape_html, spec_decimal, spec_escape, usize_to_string};

verus! {

/// The one-line summary a diff is displayed with.
pub open spec fn spec_diff_stats(files: nat, insertions: nat, deletions: nat) -> Seq<char> {
    spec_decimal(files) + " files changed, "@ + spec_decimal(insertions) + " insertions(+), "@
        + spec_decimal(deletions) + " deletions(-)"@
}

/// Renders "N files changed, M insertions(+), K deletions(-)".
pub fn format_diff_stats(files: usize, insertions: usize, deletions: usize) -> (r: String)
    ensures
        r@ == spec_diff_stats(files as nat, insertions as nat, deletions as nat),
{
    let r = usize_to_string(files).concat(" files changed, ").concat(
        usize_to_string(insertions).as_str(),
    ).concat(" insertions(+), ").concat(usize_to_string(deletions).as_str()).concat(
        " deletions(-)",
    );
    proof {
        assert(r@ =~= spec_diff_stats(files as nat, insertions as nat, deletions as nat));
    }
    r
}

/// How one patch line is rendered for display: escaped, and wrapped in a
/// marker for an addition, a removal or context; other lines (headers,
/// hunk marks) stay bare.
pub open spec fn spec_render_diff_line(origin: char, content: Seq<char>) -> Seq<char> {
    let escaped = spec_escape(content);
    if origin == '+' {
        "<span class=\"diff-add-line\">"@ + escaped + "</span>"@
    } else if origin == '-' {
        "<span class=\"diff-remove-line\">"@ + escaped + "</span>"@
    } else if origin == ' ' {
        "<span class=\"diff-context\"> "@ + escaped + "</span>"@
    } else {
        escaped
    }
}

/// Renders one patch line, as `spec_render_diff_line` says.
pub fn render_diff_line(origin: char, content: &str) -> (r: String)
    ensures
        r@ == spec_render_diff_line(origin, content@),
{
    let escaped = escape_html(content);
    if origin == '+' {
        let r = String::from_str("<span class=\"diff-add-line\">").concat(escaped.as_str()).concat(
            "</span>",
        );
        proof {
            assert(r@ =~= spec_render_diff_line(origin, content@));
        }
        r
    } else if origin == '-' {
        let r = String::from_str("<span class=\"diff-remove-line\">").concat(
            escaped.as_str(),
        ).concat("</span>");
        proof {
            assert(r@ =~= spec_render_diff_line(origin, content@));
        }
        r
    } else if origin == ' ' {
        let r = String::from_str("<span class=\"diff-context\"> ").concat(escaped.as_str()).concat(
            "</span>",
        );
        proof {
            assert(r@ =~= spec_render_diff_line(origin, content@));
        }
        r
    } else {
        escaped
    }
}

} // verus!
