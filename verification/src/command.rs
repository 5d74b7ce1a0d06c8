//! Parsing of one input line into a playback command.
//!
//! A line is trimmed of surrounding white space and then read as one of the
//! single-letter commands `q`, `p`, `n`, `b`, as an unsigned decimal track
//! number, or as invalid input.

use vstd::prelude::*;

verus! {

/// A playback command, one per input line.
#[derive(PartialEq, Eq, Structural, Clone, Copy, Debug)]
pub enum Command {
    /// `q`: end the session.
    Quit,
    /// `p`: toggle between playing and paused.
    TogglePause,
    /// `n`: advance to the next track, cyclically.
    Next,
    /// `b`: step back to the previous track, cyclically.
    Previous,
    /// A line that parses as an unsigned integer: a one-based track number.
    Select(usize),
    /// Anything else.
    Invalid,
}

/// The Unicode white-space characters, the ones that trimming removes.
pub open spec fn is_whitespace(c: char) -> bool {
    let u = c as u32;
    ||| u == 0x20
    ||| 0x09 <= u <= 0x0d
    ||| u == 0x85
    ||| u == 0xa0
    ||| u == 0x1680
    ||| 0x2000 <= u <= 0x200a
    ||| u == 0x2028
    ||| u == 0x2029
    ||| u == 0x202f
    ||| u == 0x205f
    ||| u == 0x3000
}

/// `s` with its leading white space removed.
pub open spec fn trim_start_spec(s: Seq<char>) -> Seq<char>
    decreases s.len(),
{
    if s.len() > 0 && is_whitespace(s[0]) {
        trim_start_spec(s.drop_first())
    } else {
        s
    }
}

/// `s` with its trailing white space removed.
pub open spec fn trim_end_spec(s: Seq<char>) -> Seq<char>
    decreases s.len(),
{
    if s.len() > 0 && is_whitespace(s.last()) {
        trim_end_spec(s.drop_last())
    } else {
        s
    }
}

/// `s` with surrounding white space removed.
pub open spec fn trim_spec(s: Seq<char>) -> Seq<char> {
    trim_end_spec(trim_start_spec(s))
}

/// An ASCII decimal digit.
pub open spec fn is_ascii_digit(c: char) -> bool {
    0x30 <= c as u32 <= 0x39
}

pub open spec fn digit_value(c: char) -> int {
    c as u32 - 0x30
}

pub open spec fn all_digits(s: Seq<char>) -> bool {
    forall|i: int| 0 <= i < s.len() ==> is_ascii_digit(#[trigger] s[i])
}

/// The value of a string of decimal digits, most significant first.
pub open spec fn digits_value(s: Seq<char>) -> int
    decreases s.len(),
{
    if s.len() == 0 {
        0
    } else {
        10 * digits_value(s.drop_last()) + digit_value(s.last())
    }
}

/// The digits of an unsigned decimal literal: everything after an optional
/// leading `+` sign.
pub open spec fn unsigned_body(s: Seq<char>) -> Seq<char> {
    if s.len() > 0 && s[0] == '+' {
        s.drop_first()
    } else {
        s
    }
}

/// `s` parses as a `usize`: after an optional leading `+` sign, one or more
/// decimal digits whose value fits.
pub open spec fn is_usize_literal(s: Seq<char>) -> bool {
    let b = unsigned_body(s);
    &&& b.len() > 0
    &&& all_digits(b)
    &&& digits_value(b) <= usize::MAX
}

pub open spec fn usize_literal_value(s: Seq<char>) -> int {
    digits_value(unsigned_body(s))
}

/// How one input line reads as a command: trim it, then match the
/// single-letter commands, then try it as a track number.
pub open spec fn parse_spec(line: Seq<char>) -> Command {
    let t = trim_spec(line);
    if t.len() == 1 && t[0] == 'q' {
        Command::Quit
    } else if t.len() == 1 && t[0] == 'p' {
        Command::TogglePause
    } else if t.len() == 1 && t[0] == 'n' {
        Command::Next
    } else if t.len() == 1 && t[0] == 'b' {
        Command::Previous
    } else if is_usize_literal(t) {
        Command::Select(usize_literal_value(t) as usize)
    } else {
        Command::Invalid
    }
}

/// Decides whether `c` is white space in the sense of trimming.
pub fn is_whitespace_char(c: char) -> (r: bool)
    ensures
        r == is_whitespace(c),
{
    let u = c as u32;
    u == 0x20 || (0x09 <= u && u <= 0x0d) || u == 0x85 || u == 0xa0 || u == 0x1680 || (0x2000 <= u
        && u <= 0x200a) || u == 0x2028 || u == 0x2029 || u == 0x202f || u == 0x205f || u == 0x3000
}

/// Trimming the start keeps the suffix that begins at the first character
/// that is not white space.
proof fn lemma_trim_start_at(s: Seq<char>, k: int)
    requires
        0 <= k <= s.len(),
        forall|j: int| 0 <= j < k ==> is_whitespace(#[trigger] s[j]),
        k == s.len() || !is_whitespace(s[k]),
    ensures
        trim_start_spec(s) == s.subrange(k, s.len() as int),
    decreases k,
{
    if k == 0 {
        assert(trim_start_spec(s) =~= s.subrange(0, s.len() as int));
    } else {
        lemma_trim_start_at(s.drop_first(), k - 1);
        assert(s.drop_first().subrange(k - 1, s.drop_first().len() as int) =~= s.subrange(
            k,
            s.len() as int,
        ));
    }
}

/// Trimming the end keeps the prefix that ends after the last character
/// that is not white space.
proof fn lemma_trim_end_at(s: Seq<char>, k: int)
    requires
        0 <= k <= s.len(),
        forall|j: int| k <= j < s.len() ==> is_whitespace(#[trigger] s[j]),
        k == 0 || !is_whitespace(s[k - 1]),
    ensures
        trim_end_spec(s) == s.subrange(0, k),
    decreases s.len(),
{
    if k == s.len() {
        assert(trim_end_spec(s) =~= s.subrange(0, k));
    } else {
        lemma_trim_end_at(s.drop_last(), k);
        assert(s.drop_last().subrange(0, k) =~= s.subrange(0, k));
    }
}

/// Removes the surrounding white space of a line.
pub fn trim_line(s: &str) -> (t: &str)
    ensures
        t@ == trim_spec(s@),
{
    let n = s.unicode_len();
    let mut start: usize = 0;
    while start < n && is_whitespace_char(s.get_char(start))
        invariant
            0 <= start <= n,
            n == s@.len(),
            forall|j: int| 0 <= j < start ==> is_whitespace(#[trigger] s@[j]),
        decreases n - start,
    {
        start += 1;
    }
    let mut end: usize = n;
    while end > start && is_whitespace_char(s.get_char(end - 1))
        invariant
            start <= end <= n,
            n == s@.len(),
            forall|j: int| end <= j < n ==> is_whitespace(#[trigger] s@[j]),
        decreases end,
    {
        end -= 1;
    }
    let t = s.substring_char(start, end);
    proof {
        lemma_trim_start_at(s@, start as int);
        let u = s@.subrange(start as int, n as int);
        lemma_trim_end_at(u, end - start);
        assert(u.subrange(0, end - start) =~= s@.subrange(start as int, end as int));
    }
    t
}

/// Reads a trimmed line as an unsigned decimal literal, exactly when it is
/// one whose value fits in `usize`.
fn parse_usize(t: &str) -> (r: Option<usize>)
    ensures
        is_usize_literal(t@) ==> r == Some(usize_literal_value(t@) as usize),
        !is_usize_literal(t@) ==> r is None,
{
    let n = t.unicode_len();
    let mut i: usize = 0;
    if n > 0 && t.get_char(0) == '+' {
        i = 1;
    }
    let start = i;
    if start >= n {
        return None;
    }
    let ghost b = unsigned_body(t@);
    proof {
        assert(b =~= t@.subrange(start as int, n as int));
    }
    let mut acc: usize = 0;
    while i < n
        invariant
            start <= i <= n,
            start < n,
            n == t@.len(),
            b == unsigned_body(t@),
            b == t@.subrange(start as int, n as int),
            forall|j: int| 0 <= j < i - start ==> is_ascii_digit(#[trigger] b[j]),
            acc == digits_value(b.take(i - start)),
        decreases n - i,
    {
        let c = t.get_char(i);
        let u = c as u32;
        proof {
            assert(b[i - start] == t@[i as int]);
        }
        if u < 0x30 || u > 0x39 {
            proof {
                assert(!is_ascii_digit(b[i - start]));
                assert(!all_digits(b));
            }
            return None;
        }
        let d = (u - 0x30) as usize;
        let ghost m = i - start;
        proof {
            assert(b.take(m + 1).drop_last() =~= b.take(m));
            assert(b.take(m + 1).last() == b[m]);
        }
        if acc > (usize::MAX - d) / 10 {
            proof {
                if all_digits(b) {
                    lemma_digits_value_prefix_le(b, m + 1);
                    assert(digits_value(b.take(m + 1)) == 10 * (acc as int) + d);
                    assert(digits_value(b) > usize::MAX);
                }
            }
            return None;
        }
        acc = acc * 10 + d;
        i += 1;
    }
    proof {
        assert(b.take(n - start) =~= b);
    }
    Some(acc)
}

/// A digit string has a non-negative value.
proof fn lemma_digits_value_nonneg(s: Seq<char>)
    requires
        all_digits(s),
    ensures
        digits_value(s) >= 0,
    decreases s.len(),
{
    if s.len() > 0 {
        assert(all_digits(s.drop_last())) by {
            assert(forall|i: int|
                0 <= i < s.len() - 1 ==> s.drop_last()[i] == #[trigger] s[i]);
        }
        lemma_digits_value_nonneg(s.drop_last());
    }
}

/// Extending a digit string to the right never lowers its value.
proof fn lemma_digits_value_prefix_le(s: Seq<char>, m: int)
    requires
        all_digits(s),
        0 <= m <= s.len(),
    ensures
        digits_value(s.take(m)) <= digits_value(s),
    decreases s.len() - m,
{
    if m < s.len() {
        assert(s.take(m + 1).drop_last() =~= s.take(m));
        assert(s.take(m + 1).last() == s[m]);
        assert(all_digits(s.take(m))) by {
            assert(forall|i: int| 0 <= i < m ==> s.take(m)[i] == #[trigger] s[i]);
        }
        lemma_digits_value_nonneg(s.take(m));
        lemma_digits_value_prefix_le(s, m + 1);
    } else {
        assert(s.take(m) =~= s);
    }
}

/// Parses one input line, after trimming, into its command.
pub fn parse_command(line: &str) -> (c: Command)
    ensures
        c == parse_spec(line@),
{
    let t = trim_line(line);
    let n = t.unicode_len();
    if n == 1 {
        let ch = t.get_char(0);
        if ch == 'q' {
            return Command::Quit;
        }
        if ch == 'p' {
            return Command::TogglePause;
        }
        if ch == 'n' {
            return Command::Next;
        }
        if ch == 'b' {
            return Command::Previous;
        }
    }
    match parse_usize(t) {
        Some(k) => Command::Select(k),
        None => Command::Invalid,
    }
}

} // verus!
