//! The mathematical model of tokenization.
//!
//! The input is a sequence of characters; positions are character indices.
//! `next_match` says which lexeme, if any, begins at a position, following
//! the priority order: junk, lower identifier or boolean, upper identifier,
//! number, string, fixed punctuation (with the two-character `->` and `=>`),
//! and the left-angle family last. `scan_from` drives it over the whole
//! input, producing either every lexeme (junk included) or the single first
//! failure.

use vstd::prelude::*;
use crate::text::is_whitespace_char;
use crate::text::is_digit_char;
use crate::text::is_lower_start;
use crate::text::is_lower_continue;
use crate::text::is_upper_start;
use crate::text::is_upper_continue;
use crate::text::is_line_terminator;

verus! {

/// A lexical item as the model sees it: payloads are character sequences,
/// and a number carries its lexeme.
pub enum ItemModel {
    Junk,
    LowerSymbol(Seq<char>),
    UpperSymbol(Seq<char>),
    Bool(bool),
    Number(Seq<char>),
    StringLit(Seq<char>),
    LParen,
    RParen,
    LCurl,
    RCurl,
    LSquare,
    RSquare,
    LAngle,
    RAngle,
    Comma,
    SemiColon,
    Colon,
    Dot,
    OrBar,
    SLArrow,
    SRArrow,
    DLArrow,
    DRArrow,
}

/// A lexeme of the model: an item spanning the inclusive character-index
/// range `[start, end]` of the input.
pub struct LexemeModel {
    pub item: ItemModel,
    pub start: int,
    pub end: int,
}

/// How a whole-input scan fails: at a character that no lexeme accepts, or
/// because the input ended while more was needed.
pub enum ScanFailure {
    AtChar(int),
    AtEnd,
}

/// The outcome of matching one lexeme at a position.
pub enum MatchResult {
    Matched { item: ItemModel, last: int },
    FailedAt(int),
    FailedAtEnd,
}

/// The length of the longest run of characters satisfying `f` starting at
/// position `p`.
pub open spec fn run_len(s: Seq<char>, p: int, f: spec_fn(char) -> bool) -> int
    decreases s.len() - p,
{
    if p < 0 || p >= s.len() || !f(s[p]) {
        0
    } else {
        1 + run_len(s, p + 1, f)
    }
}

/// A run satisfies its predicate throughout, stays within the input, and is
/// maximal: the character just past it, if any, fails the predicate.
pub proof fn lemma_run_len(s: Seq<char>, p: int, f: spec_fn(char) -> bool)
    requires
        0 <= p <= s.len(),
    ensures
        0 <= run_len(s, p, f),
        p + run_len(s, p, f) <= s.len(),
        forall|i: int| p <= i < p + run_len(s, p, f) ==> f(s[i]),
        p + run_len(s, p, f) < s.len() ==> !f(s[p + run_len(s, p, f)]),
    decreases s.len() - p,
{
    if p < s.len() && f(s[p]) {
        lemma_run_len(s, p + 1, f);
    }
}

/// A stretch of characters that all satisfy the predicate, delimited by the
/// end of the input or a character that fails it, is exactly the run.
pub proof fn lemma_run_len_exact(s: Seq<char>, p: int, q: int, f: spec_fn(char) -> bool)
    requires
        0 <= p <= q <= s.len(),
        forall|i: int| p <= i < q ==> f(s[i]),
        q < s.len() ==> !f(s[q]),
    ensures
        run_len(s, p, f) == q - p,
    decreases q - p,
{
    if p < q {
        lemma_run_len_exact(s, p + 1, q, f);
    }
}

/// What the character after a backslash decodes to, when it is one of the
/// six accepted escape codes.
pub open spec fn escape_value(c: char) -> Option<char> {
    if c == 'n' {
        Option::Some('\n')
    } else if c == 'r' {
        Option::Some('\r')
    } else if c == 't' {
        Option::Some('\t')
    } else if c == '\\' {
        Option::Some('\\')
    } else if c == '0' {
        Option::Some('\0')
    } else if c == '"' {
        Option::Some('"')
    } else {
        Option::None
    }
}

/// The outcome of scanning a string body: the decoded text and the index of
/// the closing quote, or the first failure.
pub enum StringScan {
    Closed { text: Seq<char>, close: int },
    FailedAt(int),
    FailedAtEnd,
}

/// Scans the body of a string literal from position `q` (just past the
/// opening quote): escapes decode, any other character but `"` stands for
/// itself, and the body ends at the closing quote. After a backslash, a
/// character that is no escape code is a positioned failure, and running out
/// of input anywhere is an end-of-input failure.
pub open spec fn scan_string_body(s: Seq<char>, q: int) -> StringScan
    decreases s.len() - q,
{
    if q < 0 || q >= s.len() {
        StringScan::FailedAtEnd
    } else if s[q] == '"' {
        StringScan::Closed { text: Seq::empty(), close: q }
    } else if s[q] == '\\' {
        if q + 1 >= s.len() {
            StringScan::FailedAtEnd
        } else {
            match escape_value(s[q + 1]) {
                Option::Some(d) => match scan_string_body(s, q + 2) {
                    StringScan::Closed { text, close } => StringScan::Closed {
                        text: seq![d] + text,
                        close,
                    },
                    StringScan::FailedAt(i) => StringScan::FailedAt(i),
                    StringScan::FailedAtEnd => StringScan::FailedAtEnd,
                },
                Option::None => StringScan::FailedAt(q + 1),
            }
        }
    } else {
        match scan_string_body(s, q + 1) {
            StringScan::Closed { text, close } => StringScan::Closed {
                text: seq![s[q]] + text,
                close,
            },
            StringScan::FailedAt(i) => StringScan::FailedAt(i),
            StringScan::FailedAtEnd => StringScan::FailedAtEnd,
        }
    }
}

/// The outcome of matching a number at a position: the index of its last
/// character, a failure inside a committed exponent, or no match at all
/// (the position is restored and lower-priority matchers may try).
pub enum NumberScan {
    NoMatch,
    Upto(int),
    FailedAt(int),
    FailedAtEnd,
}

/// Matches a numeric literal at position `p`: an optional sign, leading
/// digits, an optional point, fractional digits, and an optional exponent.
/// At least one digit must appear in the mantissa, else nothing is matched.
/// Once an exponent marker is consumed the match is committed: a missing
/// exponent digit is a failure.
pub open spec fn scan_number(s: Seq<char>, p: int) -> NumberScan {
    let q0 = if p < s.len() && (s[p] == '+' || s[p] == '-') {
        p + 1
    } else {
        p
    };
    let lead = run_len(s, q0, |c: char| is_digit_char(c));
    let has_dot = q0 + lead < s.len() && s[q0 + lead] == '.';
    let frac = if has_dot {
        run_len(s, q0 + lead + 1, |c: char| is_digit_char(c))
    } else {
        0
    };
    let m_end = if has_dot {
        q0 + lead + 1 + frac
    } else {
        q0 + lead
    };
    if lead + frac == 0 {
        NumberScan::NoMatch
    } else if m_end < s.len() && (s[m_end] == 'e' || s[m_end] == 'E') {
        let q4 = if m_end + 1 < s.len() && (s[m_end + 1] == '+' || s[m_end + 1] == '-') {
            m_end + 2
        } else {
            m_end + 1
        };
        if q4 >= s.len() {
            NumberScan::FailedAtEnd
        } else if !is_digit_char(s[q4]) {
            NumberScan::FailedAt(q4)
        } else {
            NumberScan::Upto(q4 + run_len(s, q4, |c: char| is_digit_char(c)) - 1)
        }
    } else {
        NumberScan::Upto(m_end - 1)
    }
}

/// The item of a single-character punctuation lexeme, if `c` is one.
pub open spec fn punct_item(c: char) -> Option<ItemModel> {
    if c == '(' {
        Option::Some(ItemModel::LParen)
    } else if c == ')' {
        Option::Some(ItemModel::RParen)
    } else if c == '{' {
        Option::Some(ItemModel::LCurl)
    } else if c == '}' {
        Option::Some(ItemModel::RCurl)
    } else if c == '[' {
        Option::Some(ItemModel::LSquare)
    } else if c == ']' {
        Option::Some(ItemModel::RSquare)
    } else if c == ',' {
        Option::Some(ItemModel::Comma)
    } else if c == ';' {
        Option::Some(ItemModel::SemiColon)
    } else if c == ':' {
        Option::Some(ItemModel::Colon)
    } else if c == '.' {
        Option::Some(ItemModel::Dot)
    } else if c == '|' {
        Option::Some(ItemModel::OrBar)
    } else if c == '>' {
        Option::Some(ItemModel::RAngle)
    } else {
        Option::None
    }
}

/// The keyword carve-out: a lower-identifier text equal to `true` or
/// `false` is a boolean literal; any other text is a lower identifier.
pub open spec fn keyword_or_symbol(text: Seq<char>) -> ItemModel {
    if text == seq!['t', 'r', 'u', 'e'] {
        ItemModel::Bool(true)
    } else if text == seq!['f', 'a', 'l', 's', 'e'] {
        ItemModel::Bool(false)
    } else {
        ItemModel::LowerSymbol(text)
    }
}

/// The unified matcher: which lexeme, if any, begins at position `p` of
/// `s`, with `0 <= p < s.len()`. Alternatives are tried in priority order;
/// within the left-angle family each longer continuation is tried before
/// the bare `<` fallback.
pub open spec fn next_match(s: Seq<char>, p: int) -> MatchResult {
    let c = s[p];
    if is_whitespace_char(c) {
        MatchResult::Matched {
            item: ItemModel::Junk,
            last: p + run_len(s, p, |x: char| is_whitespace_char(x)) - 1,
        }
    } else if c == '#' {
        MatchResult::Matched {
            item: ItemModel::Junk,
            last: p + run_len(s, p + 1, |x: char| !is_line_terminator(x)),
        }
    } else if is_lower_start(c) {
        let last = p + run_len(s, p + 1, |x: char| is_lower_continue(x));
        MatchResult::Matched { item: keyword_or_symbol(s.subrange(p, last + 1)), last }
    } else if is_upper_start(c) {
        let last = p + run_len(s, p + 1, |x: char| is_upper_continue(x));
        MatchResult::Matched { item: ItemModel::UpperSymbol(s.subrange(p, last + 1)), last }
    } else if is_digit_char(c) || c == '+' || c == '-' {
        match scan_number(s, p) {
            NumberScan::Upto(last) => MatchResult::Matched {
                item: ItemModel::Number(s.subrange(p, last + 1)),
                last,
            },
            NumberScan::FailedAt(i) => MatchResult::FailedAt(i),
            NumberScan::FailedAtEnd => MatchResult::FailedAtEnd,
            NumberScan::NoMatch => {
                if c == '-' {
                    if p + 1 >= s.len() {
                        MatchResult::FailedAtEnd
                    } else if s[p + 1] == '>' {
                        MatchResult::Matched { item: ItemModel::SLArrow, last: p + 1 }
                    } else {
                        MatchResult::FailedAt(p + 1)
                    }
                } else {
                    MatchResult::FailedAt(p)
                }
            },
        }
    } else if c == '"' {
        match scan_string_body(s, p + 1) {
            StringScan::Closed { text, close } => MatchResult::Matched {
                item: ItemModel::StringLit(text),
                last: close,
            },
            StringScan::FailedAt(i) => MatchResult::FailedAt(i),
            StringScan::FailedAtEnd => MatchResult::FailedAtEnd,
        }
    } else if punct_item(c) is Some {
        MatchResult::Matched { item: punct_item(c)->Some_0, last: p }
    } else if c == '=' {
        if p + 1 >= s.len() {
            MatchResult::FailedAtEnd
        } else if s[p + 1] == '>' {
            MatchResult::Matched { item: ItemModel::DLArrow, last: p + 1 }
        } else {
            MatchResult::FailedAt(p + 1)
        }
    } else if c == '<' {
        if p + 1 < s.len() && s[p + 1] == '-' {
            MatchResult::Matched { item: ItemModel::SRArrow, last: p + 1 }
        } else if p + 1 < s.len() && s[p + 1] == '=' {
            MatchResult::Matched { item: ItemModel::DRArrow, last: p + 1 }
        } else {
            MatchResult::Matched { item: ItemModel::LAngle, last: p }
        }
    } else {
        MatchResult::FailedAt(p)
    }
}

/// A committed string-body failure points past `q` and into the input, and
/// a closing quote lies between `q` and the end.
pub proof fn lemma_scan_string_body_bounds(s: Seq<char>, q: int)
    requires
        0 <= q <= s.len(),
    ensures
        match scan_string_body(s, q) {
            StringScan::Closed { text: _, close } => q <= close < s.len(),
            StringScan::FailedAt(i) => q < i < s.len(),
            StringScan::FailedAtEnd => true,
        },
    decreases s.len() - q,
{
    if q < s.len() && s[q] != '"' {
        if s[q] == '\\' {
            if q + 1 < s.len() && escape_value(s[q + 1]) is Some {
                lemma_scan_string_body_bounds(s, q + 2);
            }
        } else {
            lemma_scan_string_body_bounds(s, q + 1);
        }
    }
}

/// A matched number ends within the input at or after `p`, and a committed
/// exponent failure points past `p` and into the input.
pub proof fn lemma_scan_number_bounds(s: Seq<char>, p: int)
    requires
        0 <= p < s.len(),
    ensures
        match scan_number(s, p) {
            NumberScan::Upto(last) => p <= last < s.len(),
            NumberScan::FailedAt(i) => p < i < s.len(),
            NumberScan::NoMatch => true,
            NumberScan::FailedAtEnd => true,
        },
{
    let q0 = if s[p] == '+' || s[p] == '-' {
        p + 1
    } else {
        p
    };
    lemma_run_len(s, q0, |c: char| is_digit_char(c));
    let lead = run_len(s, q0, |c: char| is_digit_char(c));
    let has_dot = q0 + lead < s.len() && s[q0 + lead] == '.';
    if has_dot {
        lemma_run_len(s, q0 + lead + 1, |c: char| is_digit_char(c));
    }
    let frac = if has_dot {
        run_len(s, q0 + lead + 1, |c: char| is_digit_char(c))
    } else {
        0
    };
    let m_end = if has_dot {
        q0 + lead + 1 + frac
    } else {
        q0 + lead
    };
    if lead + frac != 0 && m_end < s.len() && (s[m_end] == 'e' || s[m_end] == 'E') {
        let q4 = if m_end + 1 < s.len() && (s[m_end + 1] == '+' || s[m_end + 1] == '-') {
            m_end + 2
        } else {
            m_end + 1
        };
        if q4 < s.len() && is_digit_char(s[q4]) {
            lemma_run_len(s, q4, |c: char| is_digit_char(c));
        }
    }
}

/// Every outcome of the unified matcher stays within the input: a match
/// ends at or after its start, and a positioned failure points at a real
/// character.
pub proof fn lemma_next_match_bounds(s: Seq<char>, p: int)
    requires
        0 <= p < s.len(),
    ensures
        match next_match(s, p) {
            MatchResult::Matched { item: _, last } => p <= last < s.len(),
            MatchResult::FailedAt(i) => 0 <= i < s.len(),
            MatchResult::FailedAtEnd => true,
        },
{
    let c = s[p];
    if is_whitespace_char(c) {
        lemma_run_len(s, p, |x: char| is_whitespace_char(x));
    } else if c == '#' {
        lemma_run_len(s, p + 1, |x: char| !is_line_terminator(x));
    } else if is_lower_start(c) {
        lemma_run_len(s, p + 1, |x: char| is_lower_continue(x));
    } else if is_upper_start(c) {
        lemma_run_len(s, p + 1, |x: char| is_upper_continue(x));
    } else if is_digit_char(c) || c == '+' || c == '-' {
        lemma_scan_number_bounds(s, p);
    } else if c == '"' {
        lemma_scan_string_body_bounds(s, p + 1);
    }
}

/// Scans the whole input from position `p`: the sequence of all lexemes
/// (junk included) in source order, or the single first failure.
pub open spec fn scan_from(s: Seq<char>, p: int) -> Result<Seq<LexemeModel>, ScanFailure>
    decreases s.len() - p,
{
    if p < 0 || p >= s.len() {
        Result::Ok(Seq::empty())
    } else {
        match next_match(s, p) {
            MatchResult::Matched { item, last } => {
                let advanced = if last + 1 > p + 1 {
                    last + 1
                } else {
                    p + 1
                };
                let np = if advanced > s.len() {
                    s.len() as int
                } else {
                    advanced
                };
                match scan_from(s, np) {
                    Result::Ok(rest) => Result::Ok(
                        seq![LexemeModel { item, start: p, end: last }] + rest,
                    ),
                    Result::Err(f) => Result::Err(f),
                }
            },
            MatchResult::FailedAt(i) => Result::Err(ScanFailure::AtChar(i)),
            MatchResult::FailedAtEnd => Result::Err(ScanFailure::AtEnd),
        }
    }
}

/// Every lexeme of the input, junk included, or the first failure.
pub open spec fn lexemes_of(s: Seq<char>) -> Result<Seq<LexemeModel>, ScanFailure> {
    scan_from(s, 0)
}

/// The lexemes with junk discarded, in order.
pub open spec fn real_lexemes(ms: Seq<LexemeModel>) -> Seq<LexemeModel>
    decreases ms.len(),
{
    if ms.len() == 0 {
        Seq::empty()
    } else {
        let rest = real_lexemes(ms.drop_last());
        if ms.last().item is Junk {
            rest
        } else {
            rest.push(ms.last())
        }
    }
}

/// Discarding junk treats each lexeme independently: extending the prefix
/// under consideration by one lexeme keeps it when it is no junk and drops
/// it when it is.
pub proof fn lemma_real_lexemes_step(ms: Seq<LexemeModel>, k: int)
    requires
        0 <= k < ms.len(),
    ensures
        !(ms[k].item is Junk) ==> real_lexemes(ms.take(k + 1)) == real_lexemes(ms.take(k)).push(
            ms[k],
        ),
        (ms[k].item is Junk) ==> real_lexemes(ms.take(k + 1)) == real_lexemes(ms.take(k)),
{
    assert(ms.take(k + 1).drop_last() =~= ms.take(k));
    assert(ms.take(k + 1).last() == ms[k]);
}

/// The token sequence of the input: its lexemes with junk discarded, or the
/// first failure.
pub open spec fn tokens_of(s: Seq<char>) -> Result<Seq<LexemeModel>, ScanFailure> {
    match lexemes_of(s) {
        Result::Ok(ms) => Result::Ok(real_lexemes(ms)),
        Result::Err(f) => Result::Err(f),
    }
}

} // verus!
