//! Text helpers the core logic needs: decimal rendering, prefix tests,
//! comma joining, HTML escaping and path-segment extraction. Each exec
//! function is pinned to a spec-level description of its result.

use vstd::prelude::*;

verus! {

/// Relies on alloc's String::push: appends exactly the given character.
pub assume_specification[ String::push ](s: &mut String, ch: char)
    ensures
        final(s)@ == old(s)@.push(ch),
;

/// The character for a single decimal digit.
pub open spec fn spec_digit_char(d: int) -> char {
    if d == 0 { '0' }
    else if d == 1 { '1' }
    else if d == 2 { '2' }
    else if d == 3 { '3' }
    else if d == 4 { '4' }
    else if d == 5 { '5' }
    else if d == 6 { '6' }
    else if d == 7 { '7' }
    else if d == 8 { '8' }
    else { '9' }
}

/// Decimal representation of a natural number, most significant digit first.
pub open spec fn spec_decimal(n: nat) -> Seq<char>
    decreases n,
{
    if n < 10 {
        seq![spec_digit_char(n as int)]
    } else {
        spec_decimal(n / 10).push(spec_digit_char((n % 10) as int))
    }
}

fn digit_char(d: usize) -> (c: char)
    requires
        d < 10,
    ensures
        c == spec_digit_char(d as int),
{
    if d == 0 { '0' }
    else if d == 1 { '1' }
    else if d == 2 { '2' }
    else if d == 3 { '3' }
    else if d == 4 { '4' }
    else if d == 5 { '5' }
    else if d == 6 { '6' }
    else if d == 7 { '7' }
    else if d == 8 { '8' }
    else { '9' }
}

/// Renders a number in decimal.
pub fn usize_to_string(n: usize) -> (s: String)
    ensures
        s@ == spec_decimal(n as nat),
    decreases n,
{
    if n < 10 {
        let mut s = String::new();
        s.push(digit_char(n));
        s
    } else {
        let mut s = usize_to_string(n / 10);
        s.push(digit_char(n % 10));
        s
    }
}

/// Renders a number in decimal.
pub fn u64_to_string(n: u64) -> (s: String)
    ensures
        s@ == spec_decimal(n as nat),
    decreases n,
{
    if n < 10 {
        let mut s = String::new();
        s.push(digit_char((n % 10) as usize));
        s
    } else {
        let mut s = u64_to_string(n / 10);
        s.push(digit_char((n % 10) as usize));
        s
    }
}

/// Decimal representation of an integer, with a leading minus sign when
/// negative.
pub open spec fn spec_signed_decimal(n: int) -> Seq<char> {
    if n < 0 {
        seq!['-'] + spec_decimal((-n) as nat)
    } else {
        spec_decimal(n as nat)
    }
}

/// Renders a signed number in decimal.
pub fn i64_to_string(n: i64) -> (s: String)
    ensures
        s@ == spec_signed_decimal(n as int),
{
    if n >= 0 {
        u64_to_string(n as u64)
    } else {
        let m: u64 = ((-(n + 1)) as u64) + 1;
        proof {
            assert(m as int == -(n as int));
        }
        let mut s = String::from_str("-");
        s.append(u64_to_string(m).as_str());
        proof {
            reveal_strlit("-");
            assert(s@ =~= seq!['-'] + spec_decimal((-(n as int)) as nat));
        }
        s
    }
}

/// Whether `prefix@` is a prefix of `s@`.
pub fn str_starts_with(s: &str, prefix: &str) -> (r: bool)
    ensures
        r == prefix@.is_prefix_of(s@),
{
    let n = prefix.unicode_len();
    let m = s.unicode_len();
    if n > m {
        assert(!prefix@.is_prefix_of(s@));
        return false;
    }
    let mut i: usize = 0;
    while i < n
        invariant
            i <= n,
            n == prefix@.len(),
            n <= m,
            m == s@.len(),
            forall|j: int| 0 <= j < i ==> s@[j] == prefix@[j],
        decreases n - i,
    {
        if s.get_char(i) != prefix.get_char(i) {
            assert(!prefix@.is_prefix_of(s@));
            return false;
        }
        i = i + 1;
    }
    assert(prefix@.is_prefix_of(s@)) by {
        assert(prefix@ =~= s@.subrange(0, prefix@.len() as int));
    }
    true
}

/// Whether two strings hold the same characters.
pub fn str_equal(a: &str, b: &str) -> (r: bool)
    ensures
        r == (a@ == b@),
{
    if a.unicode_len() != b.unicode_len() {
        return false;
    }
    let r = str_starts_with(a, b);
    proof {
        if r {
            assert(b@ =~= a@);
        }
    }
    r
}

/// The comma-separated join of a sequence of strings, at the level of
/// their character sequences.
pub open spec fn spec_join_comma(parts: Seq<Seq<char>>) -> Seq<char>
    decreases parts.len(),
{
    if parts.len() == 0 {
        Seq::empty()
    } else if parts.len() == 1 {
        parts[0]
    } else {
        parts[0] + seq![','] + spec_join_comma(parts.skip(1))
    }
}

proof fn lemma_join_comma_snoc(parts: Seq<Seq<char>>, last: Seq<char>)
    requires
        parts.len() >= 1,
    ensures
        spec_join_comma(parts.push(last)) == spec_join_comma(parts) + seq![','] + last,
    decreases parts.len(),
{
    if parts.len() == 1 {
        assert(parts.push(last).skip(1) =~= seq![last]);
        assert(parts.push(last)[0] == parts[0]);
        assert(spec_join_comma(seq![last]) == last);
        assert(spec_join_comma(parts.push(last)) =~= parts[0] + seq![','] + last);
    } else {
        lemma_join_comma_snoc(parts.skip(1), last);
        assert(parts.push(last).skip(1) =~= parts.skip(1).push(last));
        assert(spec_join_comma(parts.push(last)) =~= spec_join_comma(parts) + seq![','] + last);
    }
}

/// Joins strings with a comma between each pair of neighbours.
pub fn join_comma(parts: &Vec<String>) -> (s: String)
    ensures
        s@ == spec_join_comma(parts.deep_view()),
{
    let mut s = String::new();
    let mut i: usize = 0;
    while i < parts.len()
        invariant
            i <= parts@.len(),
            s@ == spec_join_comma(parts.deep_view().take(i as int)),
        decreases parts@.len() - i,
    {
        if i > 0 {
            s.push(',');
        }
        s.append(parts[i].as_str());
        proof {
            let dv = parts.deep_view();
            let taken = dv.take(i as int);
            assert(dv[i as int] == parts@[i as int]@);
            assert(dv.take(i + 1) =~= taken.push(parts@[i as int]@));
            if i == 0 {
                assert(spec_join_comma(seq![parts@[0]@]) == parts@[0]@);
            } else {
                lemma_join_comma_snoc(taken, parts@[i as int]@);
            }
        }
        i = i + 1;
    }
    proof {
        assert(parts.deep_view().take(parts@.len() as int) =~= parts.deep_view());
    }
    s
}

/// The HTML escape of one character: `&`, `<` and `>` become entities.
pub open spec fn spec_escape_char(c: char) -> Seq<char> {
    if c == '&' {
        seq!['&', 'a', 'm', 'p', ';']
    } else if c == '<' {
        seq!['&', 'l', 't', ';']
    } else if c == '>' {
        seq!['&', 'g', 't', ';']
    } else {
        seq![c]
    }
}

/// The HTML escape of a whole string.
pub open spec fn spec_escape(s: Seq<char>) -> Seq<char>
    decreases s.len(),
{
    if s.len() == 0 {
        Seq::empty()
    } else {
        spec_escape_char(s[0]) + spec_escape(s.skip(1))
    }
}

proof fn lemma_escape_snoc(s: Seq<char>, c: char)
    ensures
        spec_escape(s.push(c)) == spec_escape(s) + spec_escape_char(c),
    decreases s.len(),
{
    if s.len() == 0 {
        assert(s.push(c).skip(1) =~= Seq::<char>::empty());
        assert(s.push(c)[0] == c);
        assert(spec_escape(Seq::<char>::empty()) == Seq::<char>::empty());
        assert(spec_escape_char(c) + Seq::<char>::empty() =~= spec_escape_char(c));
        assert(spec_escape(s.push(c)) =~= spec_escape_char(c));
        assert(spec_escape(s) + spec_escape_char(c) =~= spec_escape_char(c));
    } else {
        lemma_escape_snoc(s.skip(1), c);
        assert(s.push(c).skip(1) =~= s.skip(1).push(c));
        assert(spec_escape(s.push(c)) =~= spec_escape(s) + spec_escape_char(c));
    }
}

/// Escapes `&`, `<` and `>` for safe embedding in HTML.
pub fn escape_html(s: &str) -> (r: String)
    ensures
        r@ == spec_escape(s@),
{
    let n = s.unicode_len();
    let mut out = String::new();
    let mut i: usize = 0;
    while i < n
        invariant
            i <= n,
            n == s@.len(),
            out@ == spec_escape(s@.take(i as int)),
        decreases n - i,
    {
        let c = s.get_char(i);
        if c == '&' {
            out.append("&amp;");
            proof { reveal_strlit("&amp;"); }
        } else if c == '<' {
            out.append("&lt;");
            proof { reveal_strlit("&lt;"); }
        } else if c == '>' {
            out.append("&gt;");
            proof { reveal_strlit("&gt;"); }
        } else {
            out.push(c);
        }
        proof {
            lemma_escape_snoc(s@.take(i as int), s@[i as int]);
            assert(s@.take(i + 1) =~= s@.take(i as int).push(s@[i as int]));
            assert(out@ =~= spec_escape(s@.take(i + 1)));
        }
        i = i + 1;
    }
    proof {
        assert(s@.take(n as int) =~= s@);
    }
    out
}

/// Whether a character is blank for the purpose of trimming.
pub open spec fn spec_is_blank(c: char) -> bool {
    c == ' ' || c == '\t' || c == '\r' || c == '\n'
}

/// A string with leading and trailing blanks removed.
pub open spec fn spec_trim(s: Seq<char>) -> Seq<char>
    decreases s.len(),
{
    if s.len() > 0 && spec_is_blank(s[0]) {
        spec_trim(s.skip(1))
    } else if s.len() > 0 && spec_is_blank(s[s.len() - 1]) {
        spec_trim(s.drop_last())
    } else {
        s
    }
}

fn is_blank(c: char) -> (r: bool)
    ensures
        r == spec_is_blank(c),
{
    c == ' ' || c == '\t' || c == '\r' || c == '\n'
}

/// Removes leading and trailing blanks.
pub fn trim_blanks(s: &str) -> (r: String)
    ensures
        r@ == spec_trim(s@),
    decreases s@.len(),
{
    let n = s.unicode_len();
    if n > 0 && is_blank(s.get_char(0)) {
        let rest = s.substring_char(1, n);
        proof {
            assert(rest@ =~= s@.skip(1));
        }
        trim_blanks(rest)
    } else if n > 0 && is_blank(s.get_char(n - 1)) {
        let rest = s.substring_char(0, n - 1);
        proof {
            assert(rest@ =~= s@.drop_last());
        }
        trim_blanks(rest)
    } else {
        String::from_str(s)
    }
}

/// Joining a base path with a relative one, as filesystem paths compose:
/// an absolute or empty part short-circuits, one separator stands between
/// the two otherwise.
pub open spec fn spec_join_path(base: Seq<char>, rel: Seq<char>) -> Seq<char> {
    if rel.len() > 0 && rel[0] == '/' {
        rel
    } else if rel.len() == 0 {
        base
    } else if base.len() == 0 {
        rel
    } else if base[base.len() - 1] == '/' {
        base + rel
    } else {
        base + seq!['/'] + rel
    }
}

/// Joins a base path and a relative path with a single separator.
pub fn join_path(base: &str, rel: &str) -> (r: String)
    ensures
        r@ == spec_join_path(base@, rel@),
{
    let rel_len = rel.unicode_len();
    if rel_len > 0 && rel.get_char(0) == '/' {
        return String::from_str(rel);
    }
    if rel_len == 0 {
        return String::from_str(base);
    }
    let base_len = base.unicode_len();
    if base_len == 0 {
        return String::from_str(rel);
    }
    if base.get_char(base_len - 1) == '/' {
        let r = String::from_str(base).concat(rel);
        proof {
            assert(r@ =~= base@ + rel@);
        }
        r
    } else {
        let mut r = String::from_str(base);
        r.push('/');
        let r = r.concat(rel);
        proof {
            assert(r@ =~= base@ + seq!['/'] + rel@);
        }
        r
    }
}

/// One step of path-segment scanning: a finished segment replaces the last
/// remembered one unless it is empty or a lone dot.
pub open spec fn spec_keep_segment(cur: Seq<char>, last: Option<Seq<char>>) -> Option<Seq<char>> {
    if cur.len() == 0 || cur == seq!['.'] {
        last
    } else {
        Some(cur)
    }
}

/// Scans a path left to right and returns its last component, with empty
/// segments and lone dots dropped, as filesystem path normalisation does.
pub open spec fn spec_scan_segments(s: Seq<char>, cur: Seq<char>, last: Option<Seq<char>>) -> Option<
    Seq<char>,
>
    decreases s.len(),
{
    if s.len() == 0 {
        spec_keep_segment(cur, last)
    } else if s[0] == '/' {
        spec_scan_segments(s.skip(1), Seq::empty(), spec_keep_segment(cur, last))
    } else {
        spec_scan_segments(s.skip(1), cur.push(s[0]), last)
    }
}

/// The final component of a slash-separated path, if it has one that is
/// neither empty, a lone dot, nor a parent reference.
pub open spec fn spec_file_name(s: Seq<char>) -> Option<Seq<char>> {
    match spec_scan_segments(s, Seq::empty(), None::<Seq<char>>) {
        Option::None => Option::None,
        Option::Some(seg) => if seg == seq!['.', '.'] {
            Option::None
        } else {
            Option::Some(seg)
        },
    }
}

/// Returns the last path segment, as `spec_file_name` describes it.
pub fn file_name_of_path(path: &str) -> (r: Option<String>)
    ensures
        match r {
            Option::Some(name) => spec_file_name(path@) == Option::Some(name@),
            Option::None => spec_file_name(path@) is None,
        },
{
    let n = path.unicode_len();
    let mut cur = String::new();
    let mut last: Option<String> = Option::None;
    let mut i: usize = 0;
    proof {
        assert(path@.skip(0) =~= path@);
    }
    while i < n
        invariant
            i <= n,
            n == path@.len(),
            spec_scan_segments(path@, Seq::empty(), None::<Seq<char>>) == spec_scan_segments(
                path@.skip(i as int),
                cur@,
                match last {
                    Option::Some(l) => Option::Some(l@),
                    Option::None => None::<Seq<char>>,
                },
            ),
        decreases n - i,
    {
        let c = path.get_char(i);
        let ghost prev_cur = cur@;
        let ghost prev_last = match &last {
            Option::Some(l) => Option::Some(l@),
            Option::None => None::<Seq<char>>,
        };
        proof {
            assert(path@.skip(i as int)[0] == path@[i as int]);
            assert(path@.skip(i as int).skip(1) =~= path@.skip(i + 1));
        }
        if c == '/' {
            let finished = cur;
            cur = String::new();
            let keep = {
                let fs = finished.as_str();
                !(fs.unicode_len() == 0 || str_eq_lit_dot(fs))
            };
            if keep {
                last = Option::Some(finished);
            }
            proof {
                assert(match last {
                    Option::Some(l) => Option::Some(l@),
                    Option::None => None::<Seq<char>>,
                } == spec_keep_segment(prev_cur, prev_last));
            }
        } else {
            cur.push(c);
        }
        i = i + 1;
    }
    proof {
        assert(path@.skip(n as int) =~= Seq::<char>::empty());
    }
    let keep_tail = {
        let cs = cur.as_str();
        !(cs.unicode_len() == 0 || str_eq_lit_dot(cs))
    };
    let last_val = if keep_tail {
        Option::Some(cur)
    } else {
        last
    };
    match last_val {
        Option::None => Option::None,
        Option::Some(seg) => {
            if str_eq_lit_dotdot(seg.as_str()) {
                Option::None
            } else {
                Option::Some(seg)
            }
        },
    }
}

/// Whether a string is exactly ".".
fn str_eq_lit_dot(s: &str) -> (r: bool)
    ensures
        r == (s@ == seq!['.']),
{
    if s.unicode_len() == 1 {
        let c = s.get_char(0);
        proof {
            if c == '.' {
                assert(s@ =~= seq!['.']);
            }
        }
        c == '.'
    } else {
        false
    }
}

/// Whether a string is exactly "..".
fn str_eq_lit_dotdot(s: &str) -> (r: bool)
    ensures
        r == (s@ == seq!['.', '.']),
{
    if s.unicode_len() == 2 {
        let c0 = s.get_char(0);
        let c1 = s.get_char(1);
        proof {
            if c0 == '.' && c1 == '.' {
                assert(s@ =~= seq!['.', '.']);
            }
        }
        c0 == '.' && c1 == '.'
    } else {
        false
    }
}

} // verus!
