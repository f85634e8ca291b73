//! The executable tokenizer, verified against the model.

use vstd::prelude::*;
use crate::model::LexemeModel;
use crate::model::MatchResult;
use crate::model::NumberScan;
use crate::model::ScanFailure;
use crate::model::StringScan;
use crate::model::escape_value;
use crate::model::keyword_or_symbol;
use crate::model::lexemes_of;
use crate::model::lemma_real_lexemes_step;
use crate::model::real_lexemes;
use crate::model::next_match;
use crate::model::punct_item;
use crate::model::run_len;
use crate::model::scan_from;
use crate::model::scan_number;
use crate::model::scan_string_body;
use crate::model::tokens_of;
use crate::model::lemma_run_len;
use crate::model::lemma_run_len_exact;
use crate::model::lemma_next_match_bounds;
use crate::model::lemma_scan_number_bounds;
use crate::text::byte_offset_of;
use crate::text::chars_and_offsets;
use crate::text::digit_char;
use crate::text::is_digit_char;
use crate::text::is_line_terminator;
use crate::text::is_lower_continue;
use crate::text::is_upper_continue;
use crate::text::is_whitespace_char;
use crate::text::lower_continue_char;
use crate::text::lower_start_char;
use crate::text::string_from_chars;
use crate::text::upper_continue_char;
use crate::text::upper_start_char;
use crate::token::Lexeme;
use crate::token::LexError;
use crate::token::RawToken;
use crate::token::TMeta;
use crate::token::Token;
use crate::token::lexeme_reflects;
use crate::token::raw_item;
use crate::token::reflects_failure;
use crate::token::token_item;
use crate::token::token_meta;
use crate::token::token_reflects;

verus! {

/// One past the end of the whitespace run starting at `p`.
fn run_end_whitespace(chars: &Vec<char>, p: usize) -> (r: usize)
    requires
        p <= chars@.len(),
    ensures
        p <= r <= chars@.len(),
        r as int == p + run_len(chars@, p as int, |c: char| is_whitespace_char(c)),
{
    let mut q = p;
    while q < chars.len() && chars[q].is_whitespace()
        invariant
            p <= q <= chars@.len(),
            forall|i: int| p <= i < q ==> is_whitespace_char(chars@[i]),
        decreases chars@.len() - q,
    {
        q = q + 1;
    }
    proof {
        lemma_run_len_exact(chars@, p as int, q as int, |c: char| is_whitespace_char(c));
    }
    q
}

/// One past the end of the run of non-terminator characters starting at `p`:
/// the body of a line comment.
fn run_end_comment_body(chars: &Vec<char>, p: usize) -> (r: usize)
    requires
        p <= chars@.len(),
    ensures
        p <= r <= chars@.len(),
        r as int == p + run_len(chars@, p as int, |c: char| !is_line_terminator(c)),
{
    let mut q = p;
    while q < chars.len() && !(chars[q] == '\n' || chars[q] == '\r')
        invariant
            p <= q <= chars@.len(),
            forall|i: int| p <= i < q ==> !is_line_terminator(chars@[i]),
        decreases chars@.len() - q,
    {
        q = q + 1;
    }
    proof {
        lemma_run_len_exact(chars@, p as int, q as int, |c: char| !is_line_terminator(c));
    }
    q
}

/// One past the end of the run of lower-identifier continue characters
/// starting at `p`.
fn run_end_lower_continue(chars: &Vec<char>, p: usize) -> (r: usize)
    requires
        p <= chars@.len(),
    ensures
        p <= r <= chars@.len(),
        r as int == p + run_len(chars@, p as int, |c: char| is_lower_continue(c)),
{
    let mut q = p;
    while q < chars.len() && lower_continue_char(chars[q])
        invariant
            p <= q <= chars@.len(),
            forall|i: int| p <= i < q ==> is_lower_continue(chars@[i]),
        decreases chars@.len() - q,
    {
        q = q + 1;
    }
    proof {
        lemma_run_len_exact(chars@, p as int, q as int, |c: char| is_lower_continue(c));
    }
    q
}

/// One past the end of the run of upper-identifier continue characters
/// starting at `p`.
fn run_end_upper_continue(chars: &Vec<char>, p: usize) -> (r: usize)
    requires
        p <= chars@.len(),
    ensures
        p <= r <= chars@.len(),
        r as int == p + run_len(chars@, p as int, |c: char| is_upper_continue(c)),
{
    let mut q = p;
    while q < chars.len() && upper_continue_char(chars[q])
        invariant
            p <= q <= chars@.len(),
            forall|i: int| p <= i < q ==> is_upper_continue(chars@[i]),
        decreases chars@.len() - q,
    {
        q = q + 1;
    }
    proof {
        lemma_run_len_exact(chars@, p as int, q as int, |c: char| is_upper_continue(c));
    }
    q
}

/// One past the end of the run of decimal digits starting at `p`.
fn run_end_digits(chars: &Vec<char>, p: usize) -> (r: usize)
    requires
        p <= chars@.len(),
    ensures
        p <= r <= chars@.len(),
        r as int == p + run_len(chars@, p as int, |c: char| is_digit_char(c)),
{
    let mut q = p;
    while q < chars.len() && digit_char(chars[q])
        invariant
            p <= q <= chars@.len(),
            forall|i: int| p <= i < q ==> is_digit_char(chars@[i]),
        decreases chars@.len() - q,
    {
        q = q + 1;
    }
    proof {
        lemma_run_len_exact(chars@, p as int, q as int, |c: char| is_digit_char(c));
    }
    q
}

/// The characters of the half-open index range `[a, b)`, copied out.
fn copy_range(chars: &Vec<char>, a: usize, b: usize) -> (r: Vec<char>)
    requires
        a <= b <= chars@.len(),
    ensures
        r@ == chars@.subrange(a as int, b as int),
{
    let mut out: Vec<char> = Vec::new();
    let mut q = a;
    while q < b
        invariant
            a <= q <= b <= chars@.len(),
            out@ == chars@.subrange(a as int, q as int),
        decreases b - q,
    {
        out.push(chars[q]);
        q = q + 1;
        proof {
            assert(out@ =~= chars@.subrange(a as int, q as int));
        }
    }
    out
}

/// What the escape character after a backslash decodes to, if anything.
fn escape_char(c: char) -> (r: Option<char>)
    ensures
        r == escape_value(c),
{
    if c == 'n' {
        Option::Some('\n')
    } else if c == 'r' {
        Option::Some('\r')
    } else if c == 't' {
        Option::Some('\t')
    } else if c == '\\' {
        Option::Some('\\')
    } else if c == '0' {
        Option::Some('\0')
    } else if c == '"' {
        Option::Some('"')
    } else {
        Option::None
    }
}

/// The outcome of scanning a string body, as executable data.
enum StringOutcome {
    Closed { text: Vec<char>, close: usize },
    FailedAt(usize),
    FailedAtEnd,
}

/// The loop state of the executable string-body scan agrees with the model:
/// what the model scan from `q0` yields is what the scan from `q` yields,
/// with the already-decoded `acc` in front of any decoded text.
spec fn string_progress(s: Seq<char>, q0: int, q: int, acc: Seq<char>) -> bool {
    match scan_string_body(s, q) {
        StringScan::Closed { text, close } => scan_string_body(s, q0) == (StringScan::Closed {
            text: acc + text,
            close,
        }),
        StringScan::FailedAt(i) => scan_string_body(s, q0) == StringScan::FailedAt(i),
        StringScan::FailedAtEnd => scan_string_body(s, q0) == StringScan::FailedAtEnd,
    }
}

proof fn lemma_string_progress_init(s: Seq<char>, q0: int)
    ensures
        string_progress(s, q0, q0, Seq::empty()),
{
    match scan_string_body(s, q0) {
        StringScan::Closed { text, close } => {
            assert(Seq::<char>::empty() + text =~= text);
        },
        StringScan::FailedAt(_) => {},
        StringScan::FailedAtEnd => {},
    }
}

proof fn lemma_string_progress_plain(s: Seq<char>, q0: int, q: int, acc: Seq<char>)
    requires
        string_progress(s, q0, q, acc),
        0 <= q < s.len(),
        s[q] != '"',
        s[q] != '\\',
    ensures
        string_progress(s, q0, q + 1, acc.push(s[q])),
{
    match scan_string_body(s, q + 1) {
        StringScan::Closed { text, close } => {
            assert(acc + (seq![s[q]] + text) =~= acc.push(s[q]) + text);
        },
        StringScan::FailedAt(_) => {},
        StringScan::FailedAtEnd => {},
    }
}

proof fn lemma_string_progress_escape(s: Seq<char>, q0: int, q: int, acc: Seq<char>, d: char)
    requires
        string_progress(s, q0, q, acc),
        0 <= q,
        q + 1 < s.len(),
        s[q] == '\\',
        escape_value(s[q + 1]) == Option::Some(d),
    ensures
        string_progress(s, q0, q + 2, acc.push(d)),
{
    match scan_string_body(s, q + 2) {
        StringScan::Closed { text, close } => {
            assert(acc + (seq![d] + text) =~= acc.push(d) + text);
        },
        StringScan::FailedAt(_) => {},
        StringScan::FailedAtEnd => {},
    }
}

/// Scans a string body from `start` (just past the opening quote), decoding
/// escapes, to the closing quote or the first failure.
fn match_string_body(chars: &Vec<char>, start: usize) -> (r: StringOutcome)
    requires
        start <= chars@.len(),
    ensures
        ({
            let m = scan_string_body(chars@, start as int);
            match r {
                StringOutcome::Closed { text, close } => m matches StringScan::Closed {
                    text: mt,
                    close: mc,
                } && text@ == mt && close as int == mc,
                StringOutcome::FailedAt(i) => m == StringScan::FailedAt(i as int),
                StringOutcome::FailedAtEnd => m == StringScan::FailedAtEnd,
            }
        }),
{
    let mut q = start;
    let mut acc: Vec<char> = Vec::new();
    proof {
        lemma_string_progress_init(chars@, start as int);
    }
    loop
        invariant
            start <= q <= chars@.len(),
            string_progress(chars@, start as int, q as int, acc@),
        decreases chars@.len() - q,
    {
        if q >= chars.len() {
            return StringOutcome::FailedAtEnd;
        }
        let c = chars[q];
        if c == '"' {
            proof {
                assert(acc@ + Seq::<char>::empty() =~= acc@);
            }
            return StringOutcome::Closed { text: acc, close: q };
        }
        if c == '\\' {
            if q + 1 >= chars.len() {
                return StringOutcome::FailedAtEnd;
            }
            match escape_char(chars[q + 1]) {
                Option::None => {
                    return StringOutcome::FailedAt(q + 1);
                },
                Option::Some(d) => {
                    proof {
                        lemma_string_progress_escape(chars@, start as int, q as int, acc@, d);
                    }
                    acc.push(d);
                    q = q + 2;
                },
            }
        } else {
            proof {
                lemma_string_progress_plain(chars@, start as int, q as int, acc@);
            }
            acc.push(c);
            q = q + 1;
        }
    }
}

/// The outcome of matching a number, as executable data.
enum NumberOutcome {
    NoMatch,
    Upto(usize),
    FailedAt(usize),
    FailedAtEnd,
}

/// Matches a numeric literal at `p`, mirroring the model's `scan_number`.
fn match_number(chars: &Vec<char>, p: usize) -> (r: NumberOutcome)
    requires
        p < chars@.len(),
    ensures
        ({
            let m = scan_number(chars@, p as int);
            match r {
                NumberOutcome::NoMatch => m == NumberScan::NoMatch,
                NumberOutcome::Upto(l) => m == NumberScan::Upto(l as int),
                NumberOutcome::FailedAt(i) => m == NumberScan::FailedAt(i as int),
                NumberOutcome::FailedAtEnd => m == NumberScan::FailedAtEnd,
            }
        }),
{
    let n = chars.len();
    let q0 = if chars[p] == '+' || chars[p] == '-' {
        p + 1
    } else {
        p
    };
    let q1 = run_end_digits(chars, q0);
    let lead = q1 - q0;
    let has_dot = q1 < n && chars[q1] == '.';
    let q2 = if has_dot {
        run_end_digits(chars, q1 + 1)
    } else {
        q1
    };
    let frac = if has_dot {
        q2 - (q1 + 1)
    } else {
        0
    };
    if lead + frac == 0 {
        return NumberOutcome::NoMatch;
    }
    if q2 < n && (chars[q2] == 'e' || chars[q2] == 'E') {
        let q4 = if q2 + 1 < n && (chars[q2 + 1] == '+' || chars[q2 + 1] == '-') {
            q2 + 2
        } else {
            q2 + 1
        };
        if q4 >= n {
            NumberOutcome::FailedAtEnd
        } else if !digit_char(chars[q4]) {
            NumberOutcome::FailedAt(q4)
        } else {
            let q5 = run_end_digits(chars, q4);
            NumberOutcome::Upto(q5 - 1)
        }
    } else {
        NumberOutcome::Upto(q2 - 1)
    }
}

/// Applies the keyword carve-out: the texts `true` and `false` become
/// boolean literals, any other text a lower identifier.
fn classify_lower(text: Vec<char>) -> (r: RawToken)
    ensures
        raw_item(r) == keyword_or_symbol(text@),
{
    if text.len() == 4 && text[0] == 't' && text[1] == 'r' && text[2] == 'u' && text[3] == 'e' {
        proof {
            assert(text@ =~= seq!['t', 'r', 'u', 'e']);
        }
        RawToken::Bool(true)
    } else if text.len() == 5 && text[0] == 'f' && text[1] == 'a' && text[2] == 'l' && text[3]
        == 's' && text[4] == 'e' {
        proof {
            assert(text@ =~= seq!['f', 'a', 'l', 's', 'e']);
        }
        RawToken::Bool(false)
    } else {
        proof {
            if text@ == seq!['t', 'r', 'u', 'e'] {
                assert(text@[0] == 't' && text@[1] == 'r' && text@[2] == 'u' && text@[3] == 'e');
                assert(false);
            }
            if text@ == seq!['f', 'a', 'l', 's', 'e'] {
                assert(text@[0] == 'f' && text@[1] == 'a' && text@[2] == 'l' && text@[3] == 's'
                    && text@[4] == 'e');
                assert(false);
            }
        }
        RawToken::LowerSymbol(string_from_chars(&text))
    }
}

/// The raw token of a single-character punctuation lexeme, if `c` is one.
fn punct_token(c: char) -> (r: Option<RawToken>)
    ensures
        match r {
            Option::Some(t) => punct_item(c) == Option::Some(raw_item(t)),
            Option::None => punct_item(c) is None,
        },
{
    if c == '(' {
        Option::Some(RawToken::LParen)
    } else if c == ')' {
        Option::Some(RawToken::RParen)
    } else if c == '{' {
        Option::Some(RawToken::LCurl)
    } else if c == '}' {
        Option::Some(RawToken::RCurl)
    } else if c == '[' {
        Option::Some(RawToken::LSquare)
    } else if c == ']' {
        Option::Some(RawToken::RSquare)
    } else if c == ',' {
        Option::Some(RawToken::Comma)
    } else if c == ';' {
        Option::Some(RawToken::SemiColon)
    } else if c == ':' {
        Option::Some(RawToken::Colon)
    } else if c == '.' {
        Option::Some(RawToken::Dot)
    } else if c == '|' {
        Option::Some(RawToken::OrBar)
    } else if c == '>' {
        Option::Some(RawToken::RAngle)
    } else {
        Option::None
    }
}

/// The outcome of the unified matcher, as executable data.
enum MatchOutcome {
    Matched { item: RawToken, last: usize },
    FailedAt(usize),
    FailedAtEnd,
}

/// The unified matcher: tries, in priority order, junk, lower identifier or
/// boolean, upper identifier, number, string, fixed punctuation with the
/// two-character arrows, and the left-angle family last.
fn next_lexeme(chars: &Vec<char>, p: usize) -> (r: MatchOutcome)
    requires
        p < chars@.len(),
    ensures
        ({
            let m = next_match(chars@, p as int);
            match r {
                MatchOutcome::Matched { item, last } => m matches MatchResult::Matched {
                    item: mi,
                    last: ml,
                } && raw_item(item) == mi && last as int == ml,
                MatchOutcome::FailedAt(i) => m == MatchResult::FailedAt(i as int),
                MatchOutcome::FailedAtEnd => m == MatchResult::FailedAtEnd,
            }
        }),
{
    let n = chars.len();
    let c = chars[p];
    if c.is_whitespace() {
        let e = run_end_whitespace(chars, p);
        proof {
            lemma_run_len(chars@, p as int + 1, |x: char| is_whitespace_char(x));
            assert(run_len(chars@, p as int, |x: char| is_whitespace_char(x)) >= 1);
        }
        MatchOutcome::Matched { item: RawToken::Junk, last: e - 1 }
    } else if c == '#' {
        let e = run_end_comment_body(chars, p + 1);
        MatchOutcome::Matched { item: RawToken::Junk, last: e - 1 }
    } else if lower_start_char(c) {
        let e = run_end_lower_continue(chars, p + 1);
        let text = copy_range(chars, p, e);
        MatchOutcome::Matched { item: classify_lower(text), last: e - 1 }
    } else if upper_start_char(c) {
        let e = run_end_upper_continue(chars, p + 1);
        let text = copy_range(chars, p, e);
        MatchOutcome::Matched { item: RawToken::UpperSymbol(string_from_chars(&text)), last: e - 1 }
    } else if digit_char(c) || c == '+' || c == '-' {
        match match_number(chars, p) {
            NumberOutcome::Upto(last) => {
                proof {
                    lemma_scan_number_bounds(chars@, p as int);
                }
                let text = copy_range(chars, p, last + 1);
                MatchOutcome::Matched { item: RawToken::Number(string_from_chars(&text)), last }
            },
            NumberOutcome::FailedAt(i) => MatchOutcome::FailedAt(i),
            NumberOutcome::FailedAtEnd => MatchOutcome::FailedAtEnd,
            NumberOutcome::NoMatch => {
                if c == '-' {
                    if p + 1 >= n {
                        MatchOutcome::FailedAtEnd
                    } else if chars[p + 1] == '>' {
                        MatchOutcome::Matched { item: RawToken::SLArrow, last: p + 1 }
                    } else {
                        MatchOutcome::FailedAt(p + 1)
                    }
                } else {
                    MatchOutcome::FailedAt(p)
                }
            },
        }
    } else if c == '"' {
        match match_string_body(chars, p + 1) {
            StringOutcome::Closed { text, close } => MatchOutcome::Matched {
                item: RawToken::String(string_from_chars(&text)),
                last: close,
            },
            StringOutcome::FailedAt(i) => MatchOutcome::FailedAt(i),
            StringOutcome::FailedAtEnd => MatchOutcome::FailedAtEnd,
        }
    } else {
        match punct_token(c) {
            Option::Some(t) => MatchOutcome::Matched { item: t, last: p },
            Option::None => {
                if c == '=' {
                    if p + 1 >= n {
                        MatchOutcome::FailedAtEnd
                    } else if chars[p + 1] == '>' {
                        MatchOutcome::Matched { item: RawToken::DLArrow, last: p + 1 }
                    } else {
                        MatchOutcome::FailedAt(p + 1)
                    }
                } else if c == '<' {
                    if p + 1 < n && chars[p + 1] == '-' {
                        MatchOutcome::Matched { item: RawToken::SRArrow, last: p + 1 }
                    } else if p + 1 < n && chars[p + 1] == '=' {
                        MatchOutcome::Matched { item: RawToken::DRArrow, last: p + 1 }
                    } else {
                        MatchOutcome::Matched { item: RawToken::LAngle, last: p }
                    }
                } else {
                    MatchOutcome::FailedAt(p)
                }
            },
        }
    }
}

/// Tokenizes the whole input into every lexeme, junk included, each with
/// its item and inclusive byte-offset span; or fails with the single first
/// error, scanning left to right.
pub fn internal_tokenize(input: &str) -> (r: Result<Vec<Lexeme>, LexError>)
    ensures
        match lexemes_of(input@) {
            Result::Ok(ms) => r matches Result::Ok(v) && v@.len() == ms.len() && (forall|i: int|
                0 <= i < ms.len() ==> lexeme_reflects(v@[i], ms[i], input@)),
            Result::Err(f) => r matches Result::Err(e) && reflects_failure(e, f, input@),
        },
{
    let (chars, offsets) = chars_and_offsets(input);
    let ghost s = input@;
    let n = chars.len();
    let mut pos: usize = 0;
    let mut out: Vec<Lexeme> = Vec::new();
    let ghost mut done: Seq<LexemeModel> = Seq::empty();
    proof {
        match scan_from(s, 0) {
            Result::Ok(rest) => {
                assert(Seq::<LexemeModel>::empty() + rest =~= rest);
            },
            Result::Err(_) => {},
        }
    }
    while pos < n
        invariant
            s == input@,
            pos <= n,
            n == chars@.len(),
            chars@ == s,
            offsets@.len() == n,
            forall|i: int| 0 <= i < n ==> offsets@[i] == byte_offset_of(s, i),
            out@.len() == done.len(),
            forall|i: int| 0 <= i < done.len() ==> lexeme_reflects(out@[i], done[i], s),
            match scan_from(s, pos as int) {
                Result::Ok(rest) => scan_from(s, 0) == Result::<Seq<LexemeModel>, ScanFailure>::Ok(
                    done + rest,
                ),
                Result::Err(f) => scan_from(s, 0) == Result::<Seq<LexemeModel>, ScanFailure>::Err(
                    f,
                ),
            },
        decreases n - pos,
    {
        match next_lexeme(&chars, pos) {
            MatchOutcome::Matched { item, last } => {
                proof {
                    lemma_next_match_bounds(s, pos as int);
                }
                let ghost m = LexemeModel {
                    item: raw_item(item),
                    start: pos as int,
                    end: last as int,
                };
                let lx = Lexeme { item, start: offsets[pos], end: offsets[last] };
                out.push(lx);
                proof {
                    match scan_from(s, last as int + 1) {
                        Result::Ok(rest2) => {
                            assert(done + (seq![m] + rest2) =~= done.push(m) + rest2);
                        },
                        Result::Err(_) => {},
                    }
                    done = done.push(m);
                }
                pos = last + 1;
            },
            MatchOutcome::FailedAt(i) => {
                proof {
                    lemma_next_match_bounds(s, pos as int);
                    assert(scan_from(s, pos as int) == Result::<Seq<LexemeModel>,
                        ScanFailure,
                    >::Err(ScanFailure::AtChar(i as int)));
                }
                return Result::Err(LexError::PositionedError(offsets[i]));
            },
            MatchOutcome::FailedAtEnd => {
                proof {
                    assert(scan_from(s, pos as int) == Result::<Seq<LexemeModel>,
                        ScanFailure,
                    >::Err(ScanFailure::AtEnd));
                }
                return Result::Err(LexError::UnexpectedEndOfInput);
            },
        }
    }
    proof {
        assert(done + Seq::<LexemeModel>::empty() =~= done);
    }
    Result::Ok(out)
}

/// Turns one raw lexeme into its public token, or into nothing when it is
/// junk; the position record carries the lexeme's span unchanged.
fn to_token(lx: Lexeme) -> (r: Option<Token>)
    ensures
        match r {
            Option::Some(t) => !(raw_item(lx.item) is Junk) && token_item(t) == raw_item(lx.item)
                && token_meta(t) == (TMeta { start: lx.start, end: lx.end }),
            Option::None => raw_item(lx.item) is Junk,
        },
{
    let Lexeme { item, start, end } = lx;
    let m = TMeta { start, end };
    match item {
        RawToken::Junk => Option::None,
        RawToken::LowerSymbol(x) => Option::Some(Token::LowerSymbol(m, x)),
        RawToken::UpperSymbol(x) => Option::Some(Token::UpperSymbol(m, x)),
        RawToken::Bool(b) => Option::Some(Token::Bool(m, b)),
        RawToken::Number(x) => Option::Some(Token::Number(m, x)),
        RawToken::String(x) => Option::Some(Token::String(m, x)),
        RawToken::LParen => Option::Some(Token::LParen(m)),
        RawToken::RParen => Option::Some(Token::RParen(m)),
        RawToken::LCurl => Option::Some(Token::LCurl(m)),
        RawToken::RCurl => Option::Some(Token::RCurl(m)),
        RawToken::LSquare => Option::Some(Token::LSquare(m)),
        RawToken::RSquare => Option::Some(Token::RSquare(m)),
        RawToken::LAngle => Option::Some(Token::LAngle(m)),
        RawToken::RAngle => Option::Some(Token::RAngle(m)),
        RawToken::Comma => Option::Some(Token::Comma(m)),
        RawToken::SemiColon => Option::Some(Token::SemiColon(m)),
        RawToken::Colon => Option::Some(Token::Colon(m)),
        RawToken::Dot => Option::Some(Token::Dot(m)),
        RawToken::OrBar => Option::Some(Token::OrBar(m)),
        RawToken::SLArrow => Option::Some(Token::SLArrow(m)),
        RawToken::SRArrow => Option::Some(Token::SRArrow(m)),
        RawToken::DLArrow => Option::Some(Token::DLArrow(m)),
        RawToken::DRArrow => Option::Some(Token::DRArrow(m)),
    }
}

/// Tokenizes the input: on success, the ordered token sequence with junk
/// discarded; on failure, the single first error.
pub fn tokenize(input: &str) -> (r: Result<Vec<Token>, LexError>)
    ensures
        match tokens_of(input@) {
            Result::Ok(ms) => r matches Result::Ok(v) && v@.len() == ms.len() && (forall|i: int|
                0 <= i < ms.len() ==> token_reflects(v@[i], ms[i], input@)),
            Result::Err(f) => r matches Result::Err(e) && reflects_failure(e, f, input@),
        },
{
    let ghost s = input@;
    let mut lexemes = match internal_tokenize(input) {
        Result::Ok(v) => v,
        Result::Err(e) => {
            return Result::Err(e);
        },
    };
    let ghost ms = lexemes_of(s)->Ok_0;
    let ghost ls = lexemes@;
    let mut toks: Vec<Token> = Vec::new();
    let ghost mut k: int = 0;
    proof {
        assert(ms.take(0) =~= Seq::<LexemeModel>::empty());
    }
    while lexemes.len() > 0
        invariant
            s == input@,
            0 <= k <= ms.len(),
            ls.len() == ms.len(),
            forall|i: int| 0 <= i < ms.len() ==> lexeme_reflects(ls[i], ms[i], s),
            lexemes@ == ls.subrange(k, ls.len() as int),
            lexemes_of(s) == Result::<Seq<LexemeModel>, ScanFailure>::Ok(ms),
            toks@.len() == real_lexemes(ms.take(k)).len(),
            forall|i: int|
                0 <= i < toks@.len() ==> token_reflects(toks@[i], real_lexemes(ms.take(k))[i], s),
        decreases lexemes@.len(),
    {
        let lx = lexemes.remove(0);
        proof {
            assert(lx == ls[k]);
            assert(lexemes@ =~= ls.subrange(k + 1, ls.len() as int));
            assert(lexeme_reflects(ls[k], ms[k], s));
            lemma_real_lexemes_step(ms, k);
        }
        match to_token(lx) {
            Option::Some(t) => {
                proof {
                    assert(token_reflects(t, ms[k], s));
                }
                toks.push(t);
            },
            Option::None => {},
        }
        proof {
            k = k + 1;
        }
    }
    proof {
        assert(ms.take(ms.len() as int) =~= ms);
    }
    Result::Ok(toks)
}

} // verus!
