//! Replacing characters that cannot appear in file names.
//!
//! Titles and file names coming from remote pages may hold characters that
//! some platform refuses in a path component. Every such character is
//! replaced by an underscore before the name is used on disk or inside an
//! archive.

use vstd::prelude::*;
use vstd::string::StrSliceExecFns;

verus! {

/// A character that may not appear in a file or archive member name on any
/// platform the downloads are meant for.
pub open spec fn blocked_char(c: char) -> bool {
    c == '#' || c == '%' || c == '&' || c == '{' || c == '}' || c == '\\' || c == '$' || c == '!'
        || c == '\'' || c == '"' || c == ':' || c == '@' || c == '<' || c == '>' || c == '*'
        || c == '?' || c == '/' || c == '+' || c == '`' || c == '|' || c == '='
}

/// What one character of a name becomes after sanitization.
pub open spec fn sanitize_char(c: char) -> char {
    if blocked_char(c) {
        '_'
    } else {
        c
    }
}

/// What a whole name becomes after sanitization.
pub open spec fn sanitize_seq(s: Seq<char>) -> Seq<char> {
    s.map_values(|c: char| sanitize_char(c))
}

/// A sanitized name is as long as the name it came from and holds no blocked
/// character.
pub proof fn lemma_sanitize_seq_clean(s: Seq<char>)
    ensures
        sanitize_seq(s).len() == s.len(),
        forall|j: int| 0 <= j < sanitize_seq(s).len() ==> !blocked_char(#[trigger] sanitize_seq(s)[j]),
{
    assert forall|j: int| 0 <= j < sanitize_seq(s).len() implies !blocked_char(
        #[trigger] sanitize_seq(s)[j],
    ) by {
        assert(sanitize_seq(s)[j] == sanitize_char(s[j]));
    }
}

fn is_blocked(c: char) -> (r: bool)
    ensures
        r == blocked_char(c),
{
    c == '#' || c == '%' || c == '&' || c == '{' || c == '}' || c == '\\' || c == '$' || c == '!'
        || c == '\'' || c == '"' || c == ':' || c == '@' || c == '<' || c == '>' || c == '*'
        || c == '?' || c == '/' || c == '+' || c == '`' || c == '|' || c == '='
}

/// Replaces every blocked character of `title` by an underscore; all other
/// characters are kept, in order.
pub fn sanitize_title(title: &str) -> (res: String)
    ensures
        res@ == sanitize_seq(title@),
{
    let n = title.unicode_len();
    let mut res = String::new();
    let mut i: usize = 0;
    while i < n
        invariant
            i <= n,
            n == title@.len(),
            res@.len() == i,
            forall|j: int| 0 <= j < i ==> res@[j] == sanitize_char(#[trigger] title@[j]),
        decreases n - i,
    {
        let c = title.get_char(i);
        let d = if is_blocked(c) {
            '_'
        } else {
            c
        };
        res.push(d);
        i += 1;
    }
    proof {
        assert(res@ =~= sanitize_seq(title@));
    }
    res
}

} // verus!
