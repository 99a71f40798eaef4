//! Parsing the plain values the remote pages hand back: decimal counts
//! and the pagination arithmetic built on them.

use vstd::prelude::*;
use vstd::string::StrSliceExecFns;
use vstd::string::StringExecFns;

verus! {

/// What went wrong while reading or parsing scraped text.
#[derive(Debug)]
pub enum ParseError {
    /// An input could not be read.
    IoError(String),
    /// A chunk could not be handed across a channel.
    ChannelError(String),
    /// A pattern could not be compiled.
    RegexParseError(String),
    /// Bytes that were not valid text.
    StringEncodeError(String),
    /// The text held nothing where a value was expected.
    NoCapture,
    /// A number field did not parse as one.
    IntParseError(String),
}

/// The mathematical value of a parse error.
pub enum ParseErrorV {
    IoError(Seq<char>),
    ChannelError(Seq<char>),
    RegexParseError(Seq<char>),
    StringEncodeError(Seq<char>),
    NoCapture,
    IntParseError(Seq<char>),
}

impl View for ParseError {
    type V = ParseErrorV;

    open spec fn view(&self) -> ParseErrorV {
        match *self {
            ParseError::IoError(ref m) => ParseErrorV::IoError(m@),
            ParseError::ChannelError(ref m) => ParseErrorV::ChannelError(m@),
            ParseError::RegexParseError(ref m) => ParseErrorV::RegexParseError(m@),
            ParseError::StringEncodeError(ref m) => ParseErrorV::StringEncodeError(m@),
            ParseError::NoCapture => ParseErrorV::NoCapture,
            ParseError::IntParseError(ref m) => ParseErrorV::IntParseError(m@),
        }
    }
}

impl ParseError {
    /// One line saying what failed, for the diagnostic surface.
    pub fn describe(&self) -> (r: String)
        ensures
            match self@ {
                ParseErrorV::IoError(m) => r@ == "i/o error: "@ + m,
                ParseErrorV::ChannelError(m) => r@ == "channel error: "@ + m,
                ParseErrorV::RegexParseError(m) => r@ == "regex error: "@ + m,
                ParseErrorV::StringEncodeError(m) => r@ == "error while decoding string: "@ + m,
                ParseErrorV::NoCapture => r@ == "expected to parse something, got nothing"@,
                ParseErrorV::IntParseError(m) => r@ == "error while parsing int: "@ + m,
            },
    {
        match self {
            ParseError::IoError(m) => String::from_str("i/o error: ").concat(m.as_str()),
            ParseError::ChannelError(m) => String::from_str("channel error: ").concat(m.as_str()),
            ParseError::RegexParseError(m) => String::from_str("regex error: ").concat(m.as_str()),
            ParseError::StringEncodeError(m) => String::from_str(
                "error while decoding string: ",
            ).concat(m.as_str()),
            ParseError::NoCapture => String::from_str("expected to parse something, got nothing"),
            ParseError::IntParseError(m) => String::from_str(
                "error while parsing int: ",
            ).concat(m.as_str()),
        }
    }
}

/// A decimal digit.
pub open spec fn is_digit(c: char) -> bool {
    '0' <= c <= '9'
}

/// Whether every character of the text is a decimal digit.
pub open spec fn all_digits(s: Seq<char>) -> bool {
    forall|j: int| 0 <= j < s.len() ==> is_digit(#[trigger] s[j])
}

/// The number a digit string denotes.
pub open spec fn digits_val(s: Seq<char>) -> int
    decreases s.len(),
{
    if s.len() == 0 {
        0
    } else {
        digits_val(s.drop_last()) * 10 + (s.last() as u32 - 48)
    }
}

/// A digit string's value is never negative.
proof fn lemma_digits_val_nonneg(s: Seq<char>, i: int)
    requires
        0 <= i <= s.len(),
        all_digits(s),
    ensures
        digits_val(s.take(i)) >= 0,
    decreases i,
{
    if i == 0 {
        assert(s.take(0) =~= Seq::<char>::empty());
    } else {
        lemma_digits_val_nonneg(s, i - 1);
        let t = s.take(i);
        assert(t.drop_last() =~= s.take(i - 1));
        assert(is_digit(s[i - 1]));
        assert(t.last() == s[i - 1]);
    }
}

/// A digit string's value never shrinks as digits are appended.
proof fn lemma_digits_val_grows(s: Seq<char>, i: int, j: int)
    requires
        0 <= i <= j <= s.len(),
        all_digits(s),
    ensures
        digits_val(s.take(i)) <= digits_val(s.take(j)),
        digits_val(s.take(i)) >= 0,
    decreases j - i,
{
    lemma_digits_val_nonneg(s, i);
    if j > i {
        lemma_digits_val_grows(s, i, j - 1);
        let t = s.take(j);
        assert(t.drop_last() =~= s.take(j - 1));
        assert(is_digit(s[j - 1]));
        assert(t.last() == s[j - 1]);
        assert(digits_val(s.take(j)) == digits_val(s.take(j - 1)) * 10 + (s[j - 1] as u32 - 48));
    }
}

/// Parses a non-empty, all-digit decimal string into a machine word; any
/// other input, or a value too large for the word, is refused.
pub fn parse_u64(s: &str) -> (r: Result<u64, ParseError>)
    ensures
        match r {
            Ok(v) => s@.len() > 0 && all_digits(s@) && digits_val(s@) <= u64::MAX && v
                == digits_val(s@),
            Err(e) => (s@.len() == 0 || !all_digits(s@) || digits_val(s@) > u64::MAX) && match e {
                ParseError::IntParseError(m) => m@ == s@,
                _ => false,
            },
        },
{
    let n = s.unicode_len();
    if n == 0 {
        return Err(ParseError::IntParseError(s.to_owned()));
    }
    let mut val: u64 = 0;
    let mut i: usize = 0;
    proof {
        assert(s@.take(0) =~= Seq::<char>::empty());
    }
    while i < n
        invariant
            i <= n,
            n == s@.len(),
            all_digits(s@.take(i as int)),
            val == digits_val(s@.take(i as int)),
        decreases n - i,
    {
        let c = s.get_char(i);
        if !('0' <= c && c <= '9') {
            proof {
                assert(!is_digit(s@[i as int]));
            }
            return Err(ParseError::IntParseError(s.to_owned()));
        }
        let d: u64 = (c as u32 - 48) as u64;
        if val > (u64::MAX - d) / 10 {
            proof {
                assert(s@.take(i + 1).drop_last() =~= s@.take(i as int));
                assert(s@.take(i + 1).last() == s@[i as int]);
                assert(digits_val(s@.take(i + 1)) == val * 10 + d);
                assert(val * 10 + d > u64::MAX) by {
                    assert(val >= (u64::MAX - d) / 10 + 1);
                    assert(val * 10 >= ((u64::MAX - d) / 10 + 1) * 10) by (nonlinear_arith)
                        requires
                            val >= (u64::MAX - d) / 10 + 1,
                    ;
                    assert(((u64::MAX - d) / 10) * 10 + 10 > u64::MAX - d);
                }
                assert(all_digits(s@.take(i + 1))) by {
                    assert forall|j: int| 0 <= j < i + 1 implies is_digit(
                        #[trigger] s@.take(i + 1)[j],
                    ) by {
                        if j < i {
                            assert(s@.take(i + 1)[j] == s@.take(i as int)[j]);
                        }
                    }
                }
                if all_digits(s@) {
                    assert(s@.take(i + 1) =~= s@.take(i + 1));
                    lemma_digits_val_grows(s@, i + 1, n as int);
                    assert(s@.take(n as int) =~= s@);
                }
            }
            return Err(ParseError::IntParseError(s.to_owned()));
        }
        proof {
            assert(s@.take(i + 1).drop_last() =~= s@.take(i as int));
            assert(s@.take(i + 1).last() == s@[i as int]);
            assert forall|j: int| 0 <= j < i + 1 implies is_digit(
                #[trigger] s@.take(i + 1)[j],
            ) by {
                if j < i {
                    assert(s@.take(i + 1)[j] == s@.take(i as int)[j]);
                }
            }
        }
        val = val * 10 + d;
        i += 1;
    }
    proof {
        assert(s@.take(n as int) =~= s@);
    }
    Ok(val)
}

/// A lower-case letter or decimal digit, as a gallery token holds.
pub open spec fn is_lower_alnum(c: char) -> bool {
    ('a' <= c <= 'z') || is_digit(c)
}

/// The fixed site prefix every gallery link starts with.
pub open spec fn link_prefix() -> Seq<char> {
    "https://e-hentai.org/g/"@
}

/// Whether a gallery link stands at position `i` of the text: the site
/// prefix, a seven-digit gallery number, a separator, and a ten-character
/// lower-case token — 41 characters in all.
pub open spec fn gallery_link_at(s: Seq<char>, i: int) -> bool {
    &&& 0 <= i
    &&& i + 41 <= s.len()
    &&& s.subrange(i, i + 23) == link_prefix()
    &&& forall|j: int| i + 23 <= j < i + 30 ==> is_digit(#[trigger] s[j])
    &&& s[i + 30] == '/'
    &&& forall|j: int| i + 31 <= j < i + 41 ==> is_lower_alnum(#[trigger] s[j])
}

/// Every gallery link at or after position `i`, leftmost first and
/// non-overlapping: scanning resumes right after each link found.
pub open spec fn gallery_links_from(s: Seq<char>, i: int) -> Seq<Seq<char>>
    decreases s.len() - i,
{
    if i < 0 || i + 41 > s.len() {
        Seq::empty()
    } else if gallery_link_at(s, i) {
        seq![s.subrange(i, i + 41)] + gallery_links_from(s, i + 41)
    } else {
        gallery_links_from(s, i + 1)
    }
}

/// Whether a gallery link stands at position `i`.
#[verifier::loop_isolation(false)]
fn link_at(s: &str, i: usize) -> (r: bool)
    requires
        i <= usize::MAX - 41,
        i + 41 <= s@.len(),
    ensures
        r == gallery_link_at(s@, i as int),
{
    proof {
        reveal_strlit("https://e-hentai.org/g/");
    }
    let prefix = "https://e-hentai.org/g/";
    let mut j: usize = 0;
    while j < 23
        invariant
            j <= 23,
            i + 41 <= s@.len(),
            prefix@ == link_prefix(),
            prefix@.len() == 23,
            forall|k: int| 0 <= k < j ==> s@[i + k] == link_prefix()[k],
        decreases 23 - j,
    {
        if s.get_char(i + j) != prefix.get_char(j) {
            proof {
                assert(s@.subrange(i as int, i + 23)[j as int] != link_prefix()[j as int]);
            }
            return false;
        }
        j += 1;
    }
    proof {
        assert(s@.subrange(i as int, i + 23) =~= link_prefix());
    }
    let mut j: usize = 23;
    while j < 30
        invariant
            23 <= j <= 30,
            i + 41 <= s@.len(),
            forall|k: int| 23 <= k < j ==> is_digit(#[trigger] s@[i + k]),
        decreases 30 - j,
    {
        let c = s.get_char(i + j);
        if !('0' <= c && c <= '9') {
            proof {
                assert(!is_digit(s@[i + j]));
            }
            return false;
        }
        j += 1;
    }
    if s.get_char(i + 30) != '/' {
        return false;
    }
    let mut j: usize = 31;
    while j < 41
        invariant
            31 <= j <= 41,
            i + 41 <= s@.len(),
            forall|k: int| 31 <= k < j ==> is_lower_alnum(#[trigger] s@[i + k]),
        decreases 41 - j,
    {
        let c = s.get_char(i + j);
        if !(('a' <= c && c <= 'z') || ('0' <= c && c <= '9')) {
            proof {
                assert(!is_lower_alnum(s@[i + j]));
            }
            return false;
        }
        j += 1;
    }
    proof {
        assert forall|k: int| i + 23 <= k < i + 30 implies is_digit(#[trigger] s@[k]) by {
            assert(is_digit(s@[i + (k - i)]));
        }
        assert forall|k: int| i + 31 <= k < i + 41 implies is_lower_alnum(#[trigger] s@[k]) by {
            assert(is_lower_alnum(s@[i + (k - i)]));
        }
    }
    true
}

/// Every gallery link the text holds, leftmost first and
/// non-overlapping, each as the full 41-character link.
#[verifier::loop_isolation(false)]
pub fn get_all_galleries(raw: &str) -> (r: Vec<String>)
    ensures
        r@.map_values(|s: String| s@) == gallery_links_from(raw@, 0),
{
    let n = raw.unicode_len();
    let mut out: Vec<String> = Vec::new();
    let mut i: usize = 0;
    proof {
        assert(out@.map_values(|s: String| s@) =~= Seq::<Seq<char>>::empty());
    }
    while i < n && n - i >= 41
        invariant
            i <= n,
            n == raw@.len(),
            gallery_links_from(raw@, 0) == out@.map_values(|s: String| s@) + gallery_links_from(
                raw@,
                i as int,
            ),
        decreases n - i,
    {
        if link_at(raw, i) {
            let mut link = String::new();
            let mut k: usize = 0;
            while k < 41
                invariant
                    k <= 41,
                    i + 41 <= raw@.len(),
                    link@ == raw@.subrange(i as int, i + k),
                decreases 41 - k,
            {
                link.push(raw.get_char(i + k));
                proof {
                    assert(link@ =~= raw@.subrange(i as int, i + k + 1));
                }
                k += 1;
            }
            let ghost map0 = out@.map_values(|s: String| s@);
            out.push(link);
            proof {
                assert(out@.map_values(|s: String| s@) =~= map0.push(
                    raw@.subrange(i as int, i + 41),
                ));
                assert(map0 + (seq![raw@.subrange(i as int, i + 41)] + gallery_links_from(
                    raw@,
                    i + 41,
                )) =~= out@.map_values(|s: String| s@) + gallery_links_from(raw@, i + 41));
            }
            i += 41;
        } else {
            i += 1;
        }
    }
    proof {
        assert(gallery_links_from(raw@, i as int) =~= Seq::<Seq<char>>::empty());
        assert(out@.map_values(|s: String| s@) =~= gallery_links_from(raw@, 0));
    }
    out
}

/// Where the run of digits starting at `a` ends: the first position at or
/// after `a` that is out of range or not a digit.
pub open spec fn digit_run_end(s: Seq<char>, a: int) -> int
    decreases s.len() - a,
{
    if a < 0 || a >= s.len() || !is_digit(s[a]) {
        a
    } else {
        digit_run_end(s, a + 1)
    }
}

/// Whether the listing header `Showing 1 - ` stands at position `i`.
pub open spec fn showing_prefix_at(s: Seq<char>, i: int) -> bool {
    &&& 0 <= i
    &&& i + 12 <= s.len()
    &&& s[i] == 'S'
    &&& s[i + 1] == 'h'
    &&& s[i + 2] == 'o'
    &&& s[i + 3] == 'w'
    &&& s[i + 4] == 'i'
    &&& s[i + 5] == 'n'
    &&& s[i + 6] == 'g'
    &&& s[i + 7] == ' '
    &&& s[i + 8] == '1'
    &&& s[i + 9] == ' '
    &&& s[i + 10] == '-'
    &&& s[i + 11] == ' '
}

/// Whether the separator ` of ` stands at position `e`.
pub open spec fn of_sep_at(s: Seq<char>, e: int) -> bool {
    &&& 0 <= e
    &&& e + 4 <= s.len()
    &&& s[e] == ' '
    &&& s[e + 1] == 'o'
    &&& s[e + 2] == 'f'
    &&& s[e + 3] == ' '
}

/// Whether the whole pagination line matches at position `i`: the header,
/// a non-empty digit run, the separator, and another non-empty digit run.
pub open spec fn pagination_at(s: Seq<char>, i: int) -> bool {
    let e1 = digit_run_end(s, i + 12);
    let e2 = digit_run_end(s, e1 + 4);
    &&& showing_prefix_at(s, i)
    &&& e1 > i + 12
    &&& of_sep_at(s, e1)
    &&& e2 > e1 + 4
}

/// The two numbers of the first pagination line at or after position `i`:
/// how many items the page shows, and how many there are in all.
pub open spec fn pagination_from(s: Seq<char>, i: int) -> Option<(Seq<char>, Seq<char>)>
    decreases s.len() - i,
{
    if i < 0 || i + 18 > s.len() {
        None
    } else if pagination_at(s, i) {
        let e1 = digit_run_end(s, i + 12);
        let e2 = digit_run_end(s, e1 + 4);
        Some((s.subrange(i + 12, e1), s.subrange(e1 + 4, e2)))
    } else {
        pagination_from(s, i + 1)
    }
}

/// Where the digit run starting at `a` ends, by scanning.
#[verifier::loop_isolation(false)]
fn digit_end(s: &str, a: usize, n: usize) -> (e: usize)
    requires
        a <= n,
        n == s@.len(),
        n <= usize::MAX,
    ensures
        e == digit_run_end(s@, a as int),
        a <= e <= n,
    decreases n - a,
{
    if a == n {
        return a;
    }
    let c = s.get_char(a);
    if '0' <= c && c <= '9' {
        digit_end(s, a + 1, n)
    } else {
        proof {
            assert(!is_digit(s@[a as int]));
        }
        a
    }
}

/// Whether the whole pagination line matches at position `i`.
#[verifier::loop_isolation(false)]
fn pagination_match_at(s: &str, i: usize, n: usize) -> (r: bool)
    requires
        i + 18 <= n,
        n == s@.len(),
    ensures
        r == pagination_at(s@, i as int),
{
    let prefix_ok = s.get_char(i) == 'S' && s.get_char(i + 1) == 'h' && s.get_char(i + 2) == 'o'
        && s.get_char(i + 3) == 'w' && s.get_char(i + 4) == 'i' && s.get_char(i + 5) == 'n'
        && s.get_char(i + 6) == 'g' && s.get_char(i + 7) == ' ' && s.get_char(i + 8) == '1'
        && s.get_char(i + 9) == ' ' && s.get_char(i + 10) == '-' && s.get_char(i + 11) == ' ';
    if !prefix_ok {
        return false;
    }
    let e1 = digit_end(s, i + 12, n);
    if e1 == i + 12 {
        return false;
    }
    if e1 > n - 4 {
        proof {
            assert(!of_sep_at(s@, e1 as int));
        }
        return false;
    }
    let sep_ok = s.get_char(e1) == ' ' && s.get_char(e1 + 1) == 'o' && s.get_char(e1 + 2) == 'f'
        && s.get_char(e1 + 3) == ' ';
    if !sep_ok {
        return false;
    }
    let e2 = digit_end(s, e1 + 4, n);
    e2 > e1 + 4
}

/// Builds the characters between two positions as a string.
#[verifier::loop_isolation(false)]
fn substring_of(s: &str, from: usize, to: usize) -> (r: String)
    requires
        from <= to <= s@.len(),
    ensures
        r@ == s@.subrange(from as int, to as int),
{
    let mut out = String::new();
    let mut k: usize = from;
    proof {
        assert(out@ =~= s@.subrange(from as int, from as int));
    }
    while k < to
        invariant
            from <= k <= to,
            out@ == s@.subrange(from as int, k as int),
        decreases to - k,
    {
        out.push(s.get_char(k));
        proof {
            assert(out@ =~= s@.subrange(from as int, k + 1));
        }
        k += 1;
    }
    out
}

/// Reads the first listing line `Showing 1 - R of T` out of scraped text:
/// `R` items shown on the page, `T` items in all. The text may hold the
/// line anywhere; without one the text yields nothing, and a number too
/// large for the counter is refused.
#[verifier::loop_isolation(false)]
pub fn get_pagination(raw: &str) -> (r: Result<(u64, u64), ParseError>)
    ensures
        pagination_from(raw@, 0) is None ==> r matches Err(ParseError::NoCapture),
        pagination_from(raw@, 0) matches Some(caps) ==> {
            &&& digits_val(caps.0) <= u64::MAX && digits_val(caps.1) <= u64::MAX ==> (r matches Ok(
                p,
            ) && p.0 == digits_val(caps.0) && p.1 == digits_val(caps.1))
            &&& (digits_val(caps.0) > u64::MAX || digits_val(caps.1) > u64::MAX) ==> (r matches Err(
                e,
            ) && e is IntParseError)
        },
{
    let n = raw.unicode_len();
    let mut i: usize = 0;
    while i < n && n - i >= 18
        invariant
            i <= n,
            n == raw@.len(),
            pagination_from(raw@, 0) == pagination_from(raw@, i as int),
        decreases n - i,
    {
        if pagination_match_at(raw, i, n) {
            let e1 = digit_end(raw, i + 12, n);
            let e2 = digit_end(raw, e1 + 4, n);
            let rendered_digits = substring_of(raw, i + 12, e1);
            let total_digits = substring_of(raw, e1 + 4, e2);
            proof {
                let ghost ii = i as int;
                let ghost ge1 = digit_run_end(raw@, ii + 12);
                assert(rendered_digits@ == raw@.subrange(ii + 12, ge1));
                lemma_digit_run_all_digits(raw@, ii + 12);
                lemma_digit_run_all_digits(raw@, ge1 + 4);
            }
            let rendered = match parse_u64(rendered_digits.as_str()) {
                Ok(v) => v,
                Err(e) => {
                    return Err(e);
                },
            };
            let total = match parse_u64(total_digits.as_str()) {
                Ok(v) => v,
                Err(e) => {
                    return Err(e);
                },
            };
            return Ok((rendered, total));
        }
        i += 1;
    }
    Err(ParseError::NoCapture)
}

/// Every character of a digit run is a digit.
proof fn lemma_digit_run_all_digits(s: Seq<char>, a: int)
    requires
        0 <= a,
    ensures
        forall|j: int| a <= j < digit_run_end(s, a) ==> is_digit(#[trigger] s[j]),
        a <= digit_run_end(s, a),
    decreases s.len() - a,
{
    if !(a >= s.len() || !is_digit(s[a])) {
        lemma_digit_run_all_digits(s, a + 1);
    }
}

/// How many pages it takes to show `total` items when each page shows
/// `rendered`: the quotient, rounded up.
pub fn pages_needed(total: u64, rendered: u64) -> (r: u64)
    requires
        rendered >= 1,
    ensures
        r == total / rendered + if total % rendered == 0 {
            0int
        } else {
            1int
        },
{
    if total % rendered == 0 {
        total / rendered
    } else {
        proof {
            assert(rendered >= 2) by {
                if rendered < 2 {
                    assert(total % rendered == 0);
                }
            }
            let q = (total / rendered) as int;
            vstd::arithmetic::div_mod::lemma_fundamental_div_mod(total as int, rendered as int);
            assert(rendered * q + total % rendered == total);
            assert(q * 2 <= q * rendered) by (nonlinear_arith)
                requires
                    q >= 0,
                    rendered >= 2,
            ;
            assert(q + 1 <= u64::MAX);
        }
        total / rendered + 1
    }
}

} // verus!
