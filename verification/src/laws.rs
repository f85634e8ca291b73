//! The laws of the tokenizer: junk-only inputs succeed with no tokens, every
//! lexeme's span reproduces exactly the text that made it, and the
//! variable-length classes munch maximally.

use vstd::prelude::*;
use crate::model::ItemModel;
use crate::model::LexemeModel;
use crate::model::MatchResult;
use crate::model::NumberScan;
use crate::model::ScanFailure;
use crate::model::StringScan;
use crate::model::lemma_next_match_bounds;
use crate::model::lemma_run_len;
use crate::model::lemma_run_len_exact;
use crate::model::lemma_scan_number_bounds;
use crate::model::lemma_scan_string_body_bounds;
use crate::model::lexemes_of;
use crate::model::next_match;
use crate::model::punct_item;
use crate::model::real_lexemes;
use crate::model::run_len;
use crate::model::scan_from;
use crate::model::scan_number;
use crate::model::scan_string_body;
use crate::model::tokens_of;
use crate::text::is_digit_char;
use crate::text::is_line_terminator;
use crate::text::is_lower_continue;
use crate::text::is_lower_start;
use crate::text::is_upper_continue;
use crate::text::is_upper_start;
use crate::text::is_whitespace_char;

verus! {

/// A run within a window of the input restricts exactly: seen from the
/// subrange `[a, b)`, the run starting at `q` is the original run, clipped
/// to the window's end.
proof fn lemma_run_len_restrict(s: Seq<char>, a: int, b: int, q: int, f: spec_fn(char) -> bool)
    requires
        0 <= a <= q <= b <= s.len(),
    ensures
        run_len(s.subrange(a, b), q - a, f) == if run_len(s, q, f) <= b - q {
            run_len(s, q, f)
        } else {
            b - q
        },
{
    let sub = s.subrange(a, b);
    lemma_run_len(s, q, f);
    let r = run_len(s, q, f);
    if r <= b - q {
        lemma_run_len_exact(sub, q - a, q - a + r, f);
    } else {
        lemma_run_len_exact(sub, q - a, b - a, f);
    }
}

/// A closed string body scans the same way inside any window that contains
/// it: the decoded text is unchanged and the closing quote shifts with the
/// window.
proof fn lemma_scan_string_body_restrict(s: Seq<char>, a: int, b: int, q: int)
    requires
        0 <= a <= q <= s.len(),
        b <= s.len(),
    ensures
        match scan_string_body(s, q) {
            StringScan::Closed { text, close } => close < b ==> scan_string_body(
                s.subrange(a, b),
                q - a,
            ) == (StringScan::Closed { text, close: close - a }),
            StringScan::FailedAt(_) => true,
            StringScan::FailedAtEnd => true,
        },
    decreases s.len() - q,
{
    lemma_scan_string_body_bounds(s, q);
    match scan_string_body(s, q) {
        StringScan::Closed { text, close } => {
            if close < b {
                if s[q] == '"' {
                } else if s[q] == '\\' {
                    lemma_scan_string_body_bounds(s, q + 2);
                    lemma_scan_string_body_restrict(s, a, b, q + 2);
                } else {
                    lemma_scan_string_body_bounds(s, q + 1);
                    lemma_scan_string_body_restrict(s, a, b, q + 1);
                }
            }
        },
        StringScan::FailedAt(_) => {},
        StringScan::FailedAtEnd => {},
    }
}

/// A matched number scans the same way inside any window that starts at it
/// and contains it: the match ends at the same character, shifted with the
/// window.
#[verifier::rlimit(60)]
proof fn lemma_scan_number_restrict(s: Seq<char>, p: int, b: int)
    requires
        0 <= p < s.len(),
        b <= s.len(),
    ensures
        match scan_number(s, p) {
            NumberScan::Upto(last) => last < b ==> scan_number(s.subrange(p, b), 0)
                == NumberScan::Upto(last - p),
            NumberScan::NoMatch => true,
            NumberScan::FailedAt(_) => true,
            NumberScan::FailedAtEnd => true,
        },
{
    let digits = |c: char| is_digit_char(c);
    let sub = s.subrange(p, b);
    let q0 = if s[p] == '+' || s[p] == '-' {
        p + 1
    } else {
        p
    };
    let lead = run_len(s, q0, digits);
    let has_dot = q0 + lead < s.len() && s[q0 + lead] == '.';
    let frac = if has_dot {
        run_len(s, q0 + lead + 1, digits)
    } else {
        0
    };
    let m_end = if has_dot {
        q0 + lead + 1 + frac
    } else {
        q0 + lead
    };
    lemma_run_len(s, q0, digits);
    if has_dot {
        lemma_run_len(s, q0 + lead + 1, digits);
    }
    match scan_number(s, p) {
        NumberScan::Upto(last) => {
            if last < b {
                if m_end < s.len() && (s[m_end] == 'e' || s[m_end] == 'E') {
                    // Only the exponent's success branch yields a match, so
                    // the exponent digits exist and end at the lexeme's end.
                    let q4 = if m_end + 1 < s.len() && (s[m_end + 1] == '+' || s[m_end + 1]
                        == '-') {
                        m_end + 2
                    } else {
                        m_end + 1
                    };
                    if q4 < s.len() {
                        lemma_run_len(s, q4, digits);
                    }
                    assert(q4 < s.len() && is_digit_char(s[q4]));
                    assert(q4 + run_len(s, q4, digits) == last + 1);
                    assert(m_end <= last);
                    lemma_run_len_restrict(s, p, b, q0, digits);
                    assert(sub[0] == s[p]);
                    assert(run_len(sub, q0 - p, digits) == lead);
                    if has_dot {
                        assert(sub[q0 + lead - p] == s[q0 + lead]);
                        lemma_run_len_restrict(s, p, b, q0 + lead + 1, digits);
                        assert(run_len(sub, q0 + lead + 1 - p, digits) == frac);
                    }
                    lemma_run_len_restrict(s, p, b, q4, digits);
                    assert(sub[m_end - p] == s[m_end]);
                    assert(sub[q4 - p] == s[q4]);
                    if m_end + 1 < b {
                        assert(sub[m_end + 1 - p] == s[m_end + 1]);
                    }
                    assert(scan_number(sub, 0) == NumberScan::Upto(last - p));
                } else {
                    // Without an exponent the match ends where the mantissa
                    // does; the window may end right there, in which case the
                    // point and exponent checks fail in it by length alone.
                    assert(last == m_end - 1);
                    lemma_run_len_restrict(s, p, b, q0, digits);
                    assert(sub[0] == s[p]);
                    assert(run_len(sub, q0 - p, digits) == lead);
                    if has_dot {
                        assert(q0 + lead < b);
                        assert(sub[q0 + lead - p] == s[q0 + lead]);
                        lemma_run_len_restrict(s, p, b, q0 + lead + 1, digits);
                        assert(run_len(sub, q0 + lead + 1 - p, digits) == frac);
                    } else {
                        if q0 + lead < b {
                            assert(sub[q0 + lead - p] == s[q0 + lead]);
                        }
                    }
                    if m_end < b {
                        assert(sub[m_end - p] == s[m_end]);
                    }
                    assert(scan_number(sub, 0) == NumberScan::Upto(last - p));
                }
            }
        },
        NumberScan::NoMatch => {},
        NumberScan::FailedAt(_) => {},
        NumberScan::FailedAtEnd => {},
    }
}

/// A complete lower-identifier lexeme: a lower start character followed by
/// continue characters only.
pub open spec fn is_lower_ident_lexeme(l: Seq<char>) -> bool {
    &&& l.len() >= 1
    &&& is_lower_start(l[0])
    &&& forall|j: int| 1 <= j < l.len() ==> is_lower_continue(l[j])
}

/// A complete upper-identifier lexeme: an upper start character followed by
/// continue characters only.
pub open spec fn is_upper_ident_lexeme(l: Seq<char>) -> bool {
    &&& l.len() >= 1
    &&& is_upper_start(l[0])
    &&& forall|j: int| 1 <= j < l.len() ==> is_upper_continue(l[j])
}

/// A complete numeric lexeme: the number matcher, run on it alone, consumes
/// all of it.
pub open spec fn is_number_lexeme(l: Seq<char>) -> bool {
    l.len() >= 1 && scan_number(l, 0) == NumberScan::Upto(l.len() - 1)
}

/// A complete string lexeme: an opening quote whose body scan closes at the
/// lexeme's last character.
pub open spec fn is_string_lexeme(l: Seq<char>) -> bool {
    &&& l.len() >= 2
    &&& l[0] == '"'
    &&& (scan_string_body(l, 1) matches StringScan::Closed { text: _, close } && close == l.len()
        - 1)
}

/// Span fidelity of one lexeme: its span lies in the input, and the input
/// text at the span is exactly the lexeme that produced the item — the
/// identifier or numeral text itself, the keyword of a boolean, a complete
/// string lexeme whose decoded body is the payload, or the fixed characters
/// of a punctuation or arrow item.
pub open spec fn lexeme_fidelity(s: Seq<char>, m: LexemeModel) -> bool {
    let lexeme = s.subrange(m.start, m.end + 1);
    &&& 0 <= m.start <= m.end < s.len()
    &&& match m.item {
        ItemModel::Junk => true,
        ItemModel::LowerSymbol(t) => t == lexeme && is_lower_ident_lexeme(lexeme) && t != seq![
            't',
            'r',
            'u',
            'e',
        ] && t != seq!['f', 'a', 'l', 's', 'e'],
        ItemModel::UpperSymbol(t) => t == lexeme && is_upper_ident_lexeme(lexeme),
        ItemModel::Bool(v) => lexeme == if v {
            seq!['t', 'r', 'u', 'e']
        } else {
            seq!['f', 'a', 'l', 's', 'e']
        },
        ItemModel::Number(t) => t == lexeme && is_number_lexeme(lexeme),
        ItemModel::StringLit(t) => is_string_lexeme(lexeme) && scan_string_body(lexeme, 1)
            == (StringScan::Closed { text: t, close: lexeme.len() - 1 }),
        ItemModel::LParen => lexeme == seq!['('],
        ItemModel::RParen => lexeme == seq![')'],
        ItemModel::LCurl => lexeme == seq!['{'],
        ItemModel::RCurl => lexeme == seq!['}'],
        ItemModel::LSquare => lexeme == seq!['['],
        ItemModel::RSquare => lexeme == seq![']'],
        ItemModel::LAngle => lexeme == seq!['<'],
        ItemModel::RAngle => lexeme == seq!['>'],
        ItemModel::Comma => lexeme == seq![','],
        ItemModel::SemiColon => lexeme == seq![';'],
        ItemModel::Colon => lexeme == seq![':'],
        ItemModel::Dot => lexeme == seq!['.'],
        ItemModel::OrBar => lexeme == seq!['|'],
        ItemModel::SLArrow => lexeme == seq!['-', '>'],
        ItemModel::SRArrow => lexeme == seq!['<', '-'],
        ItemModel::DLArrow => lexeme == seq!['=', '>'],
        ItemModel::DRArrow => lexeme == seq!['<', '='],
    }
}

/// Maximal munch of one lexeme: for the variable-length classes, the span
/// extended by the next input character no longer matches the class that
/// produced the item.
pub open spec fn maximal_munch(s: Seq<char>, m: LexemeModel) -> bool {
    m.end + 1 < s.len() ==> match m.item {
        ItemModel::LowerSymbol(_) => !is_lower_ident_lexeme(s.subrange(m.start, m.end + 2)),
        ItemModel::Bool(_) => !is_lower_ident_lexeme(s.subrange(m.start, m.end + 2)),
        ItemModel::UpperSymbol(_) => !is_upper_ident_lexeme(s.subrange(m.start, m.end + 2)),
        ItemModel::Number(_) => !is_number_lexeme(s.subrange(m.start, m.end + 2)),
        ItemModel::StringLit(_) => !is_string_lexeme(s.subrange(m.start, m.end + 2)),
        _ => true,
    }
}

/// Whatever the unified matcher yields at a position is span-faithful and
/// maximally munched.
proof fn lemma_next_match_sound(s: Seq<char>, p: int)
    requires
        0 <= p < s.len(),
    ensures
        match next_match(s, p) {
            MatchResult::Matched { item, last } => lexeme_fidelity(
                s,
                LexemeModel { item, start: p, end: last },
            ) && maximal_munch(s, LexemeModel { item, start: p, end: last }),
            MatchResult::FailedAt(_) => true,
            MatchResult::FailedAtEnd => true,
        },
{
    lemma_next_match_bounds(s, p);
    let c = s[p];
    if is_whitespace_char(c) {
    } else if c == '#' {
    } else if is_lower_start(c) {
        let f = |x: char| is_lower_continue(x);
        lemma_run_len(s, p + 1, f);
        let last = p + run_len(s, p + 1, f);
        let lexeme = s.subrange(p, last + 1);
        assert(lexeme[0] == s[p]);
        assert(forall|j: int| 1 <= j < lexeme.len() ==> lexeme[j] == s[p + j]);
        assert(is_lower_ident_lexeme(lexeme));
        if last + 1 < s.len() {
            let ext = s.subrange(p, last + 2);
            assert(!is_lower_continue(s[last + 1]));
            assert(ext[last + 1 - p] == s[last + 1]);
            assert(!is_lower_ident_lexeme(ext));
        }
    } else if is_upper_start(c) {
        let f = |x: char| is_upper_continue(x);
        lemma_run_len(s, p + 1, f);
        let last = p + run_len(s, p + 1, f);
        let lexeme = s.subrange(p, last + 1);
        assert(lexeme[0] == s[p]);
        assert(forall|j: int| 1 <= j < lexeme.len() ==> lexeme[j] == s[p + j]);
        assert(is_upper_ident_lexeme(lexeme));
        if last + 1 < s.len() {
            let ext = s.subrange(p, last + 2);
            assert(!is_upper_continue(s[last + 1]));
            assert(ext[last + 1 - p] == s[last + 1]);
            assert(!is_upper_ident_lexeme(ext));
        }
    } else if is_digit_char(c) || c == '+' || c == '-' {
        lemma_scan_number_bounds(s, p);
        match scan_number(s, p) {
            NumberScan::Upto(last) => {
                lemma_scan_number_restrict(s, p, last + 1);
                assert(is_number_lexeme(s.subrange(p, last + 1)));
                if last + 1 < s.len() {
                    lemma_scan_number_restrict(s, p, last + 2);
                    let ext = s.subrange(p, last + 2);
                    assert(scan_number(ext, 0) == NumberScan::Upto(last - p));
                    assert(!is_number_lexeme(ext));
                }
            },
            NumberScan::NoMatch => {
                if c == '-' && p + 1 < s.len() && s[p + 1] == '>' {
                    assert(s.subrange(p, p + 2) =~= seq!['-', '>']);
                }
            },
            NumberScan::FailedAt(_) => {},
            NumberScan::FailedAtEnd => {},
        }
    } else if c == '"' {
        lemma_scan_string_body_bounds(s, p + 1);
        match scan_string_body(s, p + 1) {
            StringScan::Closed { text, close } => {
                lemma_scan_string_body_restrict(s, p, close + 1, p + 1);
                let lexeme = s.subrange(p, close + 1);
                assert(lexeme[0] == '"');
                assert(scan_string_body(lexeme, 1) == (StringScan::Closed {
                    text,
                    close: close - p,
                }));
                assert(is_string_lexeme(lexeme));
                if close + 1 < s.len() {
                    lemma_scan_string_body_restrict(s, p, close + 2, p + 1);
                    let ext = s.subrange(p, close + 2);
                    assert(scan_string_body(ext, 1) == (StringScan::Closed {
                        text,
                        close: close - p,
                    }));
                    assert(!is_string_lexeme(ext));
                }
            },
            StringScan::FailedAt(_) => {},
            StringScan::FailedAtEnd => {},
        }
    } else if punct_item(c) is Some {
        assert(s.subrange(p, p + 1) =~= seq![s[p]]);
    } else if c == '=' {
        if p + 1 < s.len() && s[p + 1] == '>' {
            assert(s.subrange(p, p + 2) =~= seq!['=', '>']);
        }
    } else if c == '<' {
        if p + 1 < s.len() && s[p + 1] == '-' {
            assert(s.subrange(p, p + 2) =~= seq!['<', '-']);
        } else if p + 1 < s.len() && s[p + 1] == '=' {
            assert(s.subrange(p, p + 2) =~= seq!['<', '=']);
        } else {
            assert(s.subrange(p, p + 1) =~= seq!['<']);
        }
    } else {
    }
}

/// Every lexeme of a successful scan from `p` is span-faithful and
/// maximally munched, and the lexemes tile the rest of the input without
/// gap or overlap.
#[verifier::rlimit(60)]
proof fn lemma_scan_from_sound(s: Seq<char>, p: int)
    requires
        0 <= p <= s.len(),
        scan_from(s, p) is Ok,
    ensures
        ({
            let ms = scan_from(s, p)->Ok_0;
            &&& forall|i: int|
                0 <= i < ms.len() ==> lexeme_fidelity(s, #[trigger] ms[i]) && maximal_munch(
                    s,
                    ms[i],
                )
            &&& ms.len() == 0 ==> p == s.len()
            &&& ms.len() > 0 ==> ms[0].start == p && ms[ms.len() - 1].end == s.len() - 1
            &&& forall|i: int| 1 <= i < ms.len() ==> (#[trigger] ms[i].start) == ms[i - 1].end + 1
        }),
    decreases s.len() - p,
{
    if p < s.len() {
        match next_match(s, p) {
            MatchResult::Matched { item, last } => {
                lemma_next_match_bounds(s, p);
                lemma_next_match_sound(s, p);
                lemma_scan_from_sound(s, last + 1);
                let m = LexemeModel { item, start: p, end: last };
                let rest = scan_from(s, last + 1)->Ok_0;
                let ms = scan_from(s, p)->Ok_0;
                assert(ms == seq![m] + rest);
                assert(ms[0] == m);
                assert(forall|i: int| 1 <= i < ms.len() ==> ms[i] == rest[i - 1]);
                if rest.len() > 0 {
                    assert(ms[ms.len() - 1] == rest[rest.len() - 1]);
                    assert(rest[0].start == last + 1);
                }
                assert forall|i: int| 1 <= i < ms.len() implies (#[trigger] ms[i].start) == ms[i
                    - 1].end + 1 by {
                    if i == 1 {
                        assert(ms[1] == rest[0]);
                    } else {
                        assert(ms[i] == rest[i - 1]);
                        assert(ms[i - 1] == rest[i - 2]);
                        assert(rest[i - 1].start == rest[i - 2].end + 1);
                    }
                }
            },
            MatchResult::FailedAt(_) => {},
            MatchResult::FailedAtEnd => {},
        }
    }
}

/// Span fidelity: in a successful tokenization every lexeme, junk included,
/// spans real input, the spans tile the whole input in source order without
/// gap or overlap, and the input text at each span is exactly the lexeme
/// that produced the item, with an identifier's or numeral's text as its
/// payload, a keyword for each boolean, and a string's decoded body as its
/// payload.
pub proof fn lemma_span_fidelity(s: Seq<char>)
    requires
        lexemes_of(s) is Ok,
    ensures
        ({
            let ms = lexemes_of(s)->Ok_0;
            &&& forall|i: int| 0 <= i < ms.len() ==> lexeme_fidelity(s, #[trigger] ms[i])
            &&& ms.len() == 0 ==> s.len() == 0
            &&& ms.len() > 0 ==> ms[0].start == 0 && ms[ms.len() - 1].end == s.len() - 1
            &&& forall|i: int| 1 <= i < ms.len() ==> (#[trigger] ms[i].start) == ms[i - 1].end + 1
        }),
{
    lemma_scan_from_sound(s, 0);
}

/// Maximal munch: in a successful tokenization, no identifier, boolean,
/// number or string lexeme's span can be extended by one further character
/// of the input and still match the class that produced it.
pub proof fn lemma_maximal_munch(s: Seq<char>)
    requires
        lexemes_of(s) is Ok,
    ensures
        ({
            let ms = lexemes_of(s)->Ok_0;
            forall|i: int| 0 <= i < ms.len() ==> maximal_munch(s, #[trigger] ms[i])
        }),
{
    lemma_scan_from_sound(s, 0);
}

/// Every token of the filtered sequence is one of the lexemes.
pub proof fn lemma_real_lexemes_membership(ms: Seq<LexemeModel>)
    ensures
        forall|i: int|
            0 <= i < real_lexemes(ms).len() ==> ms.contains(#[trigger] real_lexemes(ms)[i]),
    decreases ms.len(),
{
    if ms.len() > 0 {
        lemma_real_lexemes_membership(ms.drop_last());
        let d = ms.drop_last();
        let rl = real_lexemes(ms);
        assert forall|i: int| 0 <= i < rl.len() implies ms.contains(#[trigger] rl[i]) by {
            if !(ms.last().item is Junk) && i == rl.len() - 1 {
                assert(ms[ms.len() - 1] == rl[i]);
            } else {
                assert(rl[i] == real_lexemes(d)[i]);
                assert(d.contains(real_lexemes(d)[i]));
                let j = choose|j: int| 0 <= j < d.len() && d[j] == rl[i];
                assert(ms[j] == rl[i]);
            }
        }
    }
}

/// One past the end of the junk lexeme starting at `p`: a whitespace run,
/// or a `#` comment running to just before a line terminator or to the end
/// of the input.
pub open spec fn junk_step(s: Seq<char>, p: int) -> int {
    if is_whitespace_char(s[p]) {
        p + run_len(s, p, |x: char| is_whitespace_char(x))
    } else {
        p + run_len(s, p + 1, |x: char| !is_line_terminator(x)) + 1
    }
}

/// The input from position `p` on consists of whitespace runs and line
/// comments only.
pub open spec fn junk_only_from(s: Seq<char>, p: int) -> bool
    decreases s.len() - p,
{
    if p < 0 || p >= s.len() {
        true
    } else if is_whitespace_char(s[p]) || s[p] == '#' {
        let advanced = if junk_step(s, p) > p + 1 {
            junk_step(s, p)
        } else {
            p + 1
        };
        let np = if advanced > s.len() {
            s.len() as int
        } else {
            advanced
        };
        junk_only_from(s, np)
    } else {
        false
    }
}

/// The whole input consists of whitespace runs and line comments only.
pub open spec fn junk_only(s: Seq<char>) -> bool {
    junk_only_from(s, 0)
}

/// Discarding junk from a sequence of junk lexemes alone leaves nothing.
proof fn lemma_real_lexemes_all_junk(ms: Seq<LexemeModel>)
    requires
        forall|i: int| 0 <= i < ms.len() ==> (#[trigger] ms[i].item) is Junk,
    ensures
        real_lexemes(ms) == Seq::<LexemeModel>::empty(),
    decreases ms.len(),
{
    if ms.len() > 0 {
        assert forall|i: int| 0 <= i < ms.drop_last().len() implies (#[trigger] ms.drop_last()[i].item)
            is Junk by {
            assert(ms.drop_last()[i] == ms[i]);
        }
        lemma_real_lexemes_all_junk(ms.drop_last());
    }
}

/// A junk-only rest of the input scans successfully into junk lexemes
/// alone.
proof fn lemma_junk_only_scan(s: Seq<char>, p: int)
    requires
        0 <= p <= s.len(),
        junk_only_from(s, p),
    ensures
        scan_from(s, p) is Ok,
        forall|i: int|
            0 <= i < scan_from(s, p)->Ok_0.len() ==> (#[trigger] scan_from(s, p)->Ok_0[i].item)
                is Junk,
    decreases s.len() - p,
{
    if p < s.len() {
        if is_whitespace_char(s[p]) {
            lemma_run_len(s, p + 1, |x: char| is_whitespace_char(x));
            lemma_run_len(s, p, |x: char| is_whitespace_char(x));
        } else {
            lemma_run_len(s, p + 1, |x: char| !is_line_terminator(x));
        }
        lemma_next_match_bounds(s, p);
        match next_match(s, p) {
            MatchResult::Matched { item, last } => {
                assert(item is Junk);
                assert(last + 1 == junk_step(s, p));
                lemma_junk_only_scan(s, last + 1);
                let m = LexemeModel { item, start: p, end: last };
                let rest = scan_from(s, last + 1)->Ok_0;
                let ms = scan_from(s, p)->Ok_0;
                assert(ms == seq![m] + rest);
                assert forall|i: int| 0 <= i < ms.len() implies (#[trigger] ms[i].item)
                    is Junk by {
                    if i > 0 {
                        assert(ms[i] == rest[i - 1]);
                    }
                }
            },
            MatchResult::FailedAt(_) => {
                assert(false);
            },
            MatchResult::FailedAtEnd => {
                assert(false);
            },
        }
    }
}

/// An input containing only whitespace and comments tokenizes, successfully,
/// to the empty token sequence.
pub proof fn lemma_junk_only_tokenizes_empty(s: Seq<char>)
    requires
        junk_only(s),
    ensures
        tokens_of(s) == Result::<Seq<LexemeModel>, ScanFailure>::Ok(Seq::<LexemeModel>::empty()),
{
    lemma_junk_only_scan(s, 0);
    lemma_real_lexemes_all_junk(lexemes_of(s)->Ok_0);
}

/// The keyword carve-out: a boolean token's lexeme is exactly its keyword,
/// and a lower-identifier token's text is never `true` or `false` — those
/// always become boolean tokens.
#[verifier::rlimit(60)]
pub proof fn lemma_keyword_carve_out(s: Seq<char>)
    requires
        lexemes_of(s) is Ok,
    ensures
        ({
            let ms = lexemes_of(s)->Ok_0;
            forall|i: int|
                0 <= i < ms.len() ==> match #[trigger] ms[i].item {
                    ItemModel::Bool(v) => s.subrange(ms[i].start, ms[i].end + 1) == if v {
                        seq!['t', 'r', 'u', 'e']
                    } else {
                        seq!['f', 'a', 'l', 's', 'e']
                    },
                    ItemModel::LowerSymbol(t) => t != seq!['t', 'r', 'u', 'e'] && t != seq![
                        'f',
                        'a',
                        'l',
                        's',
                        'e',
                    ],
                    _ => true,
                }
        }),
{
    lemma_scan_from_sound(s, 0);
}

/// Left-angle disambiguation: after a `<`, a following `-` yields the
/// single-left-arrow and a following `=` the double-left-arrow, each
/// spanning both characters; any other following character, or the end of
/// the input, yields a bare left angle spanning the `<` alone.
pub proof fn lemma_angle_disambiguation(s: Seq<char>, p: int)
    requires
        0 <= p < s.len(),
        s[p] == '<',
    ensures
        (p + 1 < s.len() && s[p + 1] == '-') ==> next_match(s, p) == (MatchResult::Matched {
            item: ItemModel::SRArrow,
            last: p + 1,
        }),
        (p + 1 < s.len() && s[p + 1] == '=') ==> next_match(s, p) == (MatchResult::Matched {
            item: ItemModel::DRArrow,
            last: p + 1,
        }),
        (p + 1 >= s.len() || (s[p + 1] != '-' && s[p + 1] != '=')) ==> next_match(s, p)
            == (MatchResult::Matched { item: ItemModel::LAngle, last: p }),
{
    // `<` is an ASCII character that is no whitespace, no identifier start,
    // no digit or sign, no quote and no single-character punctuation, so
    // only the angle family can match it.
}

} // verus!
