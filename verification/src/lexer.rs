use vstd::prelude::*;

use crate::text::{chars_of, push_char, same_text, string_of};
use crate::token::{view_tokens, SpecToken, Token};

verus! {

broadcast use vstd::string::group_string_axioms;

/// A character that continues a number literal: `0` through `8` (the range
/// that the tokenizer accepts stops before `9`).
pub open spec fn is_number_char(c: char) -> bool {
    '0' <= c && c <= '8'
}

/// An ASCII letter.
pub open spec fn is_letter(c: char) -> bool {
    ('a' <= c && c <= 'z') || ('A' <= c && c <= 'Z')
}

/// The first index at or after `i` whose character is not a digit (or the end).
pub open spec fn digits_end(s: Seq<char>, i: int) -> int
    decreases s.len() - i,
{
    if 0 <= i < s.len() && is_number_char(s[i]) {
        digits_end(s, i + 1)
    } else {
        i
    }
}

/// The first index at or after `i` whose character is not a letter (or the end).
pub open spec fn letters_end(s: Seq<char>, i: int) -> int
    decreases s.len() - i,
{
    if 0 <= i < s.len() && is_letter(s[i]) {
        letters_end(s, i + 1)
    } else {
        i
    }
}

/// The end of a number literal that starts at `i`: a run of digits, then
/// optionally a `.` and another (possibly empty) run of digits.
pub open spec fn number_end(s: Seq<char>, i: int) -> int {
    let e = digits_end(s, i + 1);
    if 0 <= e < s.len() && s[e] == '.' {
        digits_end(s, e + 1)
    } else {
        e
    }
}

/// The body of a string literal whose opening quote stands just before `i`:
/// its text and the index just after the closing quote. Inside, `\"` stands for
/// a quote. `None` when the literal is not closed, or when a backslash is not
/// followed by a quote.
pub open spec fn string_body(s: Seq<char>, i: int) -> Option<(Seq<char>, int)>
    decreases s.len() - i,
{
    if i < 0 || i >= s.len() {
        None
    } else if s[i] == '"' {
        Some((Seq::<char>::empty(), i + 1))
    } else if s[i] == '\\' {
        if i + 1 < s.len() && s[i + 1] == '"' {
            match string_body(s, i + 2) {
                Some((text, e)) => Some((seq!['"'] + text, e)),
                None => None,
            }
        } else {
            None
        }
    } else {
        match string_body(s, i + 1) {
            Some((text, e)) => Some((seq![s[i]] + text, e)),
            None => None,
        }
    }
}

/// The token that a word of letters stands for: a keyword, or else a name.
pub open spec fn keyword(w: Seq<char>) -> SpecToken {
    if w == "Method"@ {
        SpecToken::Method
    } else if w == "Return"@ {
        SpecToken::Return
    } else if w == "Move"@ {
        SpecToken::Move
    } else if w == "Void"@ {
        SpecToken::Void
    } else if w == "Use"@ {
        SpecToken::Use
    } else if w == "As"@ {
        SpecToken::As
    } else if w == "Inherit"@ {
        SpecToken::Inherit
    } else if w == "Do"@ {
        SpecToken::Do
    } else if w == "Until"@ {
        SpecToken::Until
    } else if w == "If"@ {
        SpecToken::If
    } else {
        SpecToken::Ident(w)
    }
}

/// Whether the tokens so far end a line: there are none yet, or the last one
/// is a tab or a newline. Indentation only counts there.
pub open spec fn at_line_start(toks: Seq<SpecToken>) -> bool {
    toks.len() == 0 || toks.last() is Tab || toks.last() is NewLine
}

pub proof fn lemma_digits_end_bounds(s: Seq<char>, i: int)
    requires
        0 <= i <= s.len(),
    ensures
        i <= digits_end(s, i) <= s.len(),
    decreases s.len() - i,
{
    if i < s.len() && is_number_char(s[i]) {
        lemma_digits_end_bounds(s, i + 1);
    }
}

pub proof fn lemma_letters_end_bounds(s: Seq<char>, i: int)
    requires
        0 <= i <= s.len(),
    ensures
        i <= letters_end(s, i) <= s.len(),
    decreases s.len() - i,
{
    if i < s.len() && is_letter(s[i]) {
        lemma_letters_end_bounds(s, i + 1);
    }
}

pub proof fn lemma_string_body_bounds(s: Seq<char>, i: int)
    ensures
        string_body(s, i) matches Some((_, e)) ==> 0 <= i < e <= s.len(),
    decreases s.len() - i,
{
    if 0 <= i < s.len() && s[i] != '"' {
        if s[i] == '\\' {
            if i + 1 < s.len() {
                lemma_string_body_bounds(s, i + 2);
            }
        } else {
            lemma_string_body_bounds(s, i + 1);
        }
    }
}

/// Tokenizes the characters `s[i..]`, given the tokens `toks` of `s[..i]`.
/// `None` when the text holds a character that no token starts with, an
/// unclosed string literal, a backslash inside a string literal that is not
/// followed by a quote, or a backslash at the start of a line that is not
/// followed by `t`.
pub open spec fn lex(s: Seq<char>, i: int, toks: Seq<SpecToken>) -> Option<Seq<SpecToken>>
    decreases s.len() - i,
{
    if i < 0 || i >= s.len() {
        Some(toks)
    } else {
        let c = s[i];
        if c == '"' {
            match string_body(s, i + 1) {
                None => None,
                Some((text, e)) => {
                    proof {
                        lemma_string_body_bounds(s, i + 1);
                    }
                    lex(s, e, toks.push(SpecToken::String(text)))
                },
            }
        } else if is_number_char(c) {
            let e = number_end(s, i);
            proof {
                lemma_digits_end_bounds(s, i + 1);
                let d = digits_end(s, i + 1);
                if 0 <= d < s.len() && s[d] == '.' {
                    lemma_digits_end_bounds(s, d + 1);
                }
            }
            lex(s, e, toks.push(SpecToken::Number(s.subrange(i, e))))
        } else if c == '(' {
            lex(s, i + 1, toks.push(SpecToken::LParens))
        } else if c == ')' {
            lex(s, i + 1, toks.push(SpecToken::RParens))
        } else if c == '.' {
            lex(s, i + 1, toks.push(SpecToken::Dot))
        } else if c == '\t' {
            if at_line_start(toks) {
                lex(s, i + 1, toks.push(SpecToken::Tab))
            } else {
                lex(s, i + 1, toks)
            }
        } else if c == '\n' {
            lex(s, i + 1, toks.push(SpecToken::NewLine))
        } else if c == ' ' {
            lex(s, i + 1, toks)
        } else if c == '\\' {
            if at_line_start(toks) {
                if i + 1 < s.len() && s[i + 1] == 't' {
                    lex(s, i + 2, toks.push(SpecToken::Tab))
                } else {
                    None
                }
            } else {
                lex(s, i + 1, toks)
            }
        } else if is_letter(c) {
            let e = letters_end(s, i + 1);
            proof {
                lemma_letters_end_bounds(s, i + 1);
            }
            lex(s, e, toks.push(keyword(s.subrange(i, e))))
        } else {
            None
        }
    }
}

/// The tokens of a whole text, or `None` where the text cannot be tokenized.
pub open spec fn spec_tokenize(s: Seq<char>) -> Option<Seq<SpecToken>> {
    lex(s, 0, Seq::empty())
}

/// Every tab token stands at the start of a line: first, or after a tab or
/// a newline.
pub open spec fn tabs_lead_lines(ts: Seq<SpecToken>) -> bool {
    forall|i: int|
        0 <= i < ts.len() && #[trigger] ts[i] is Tab ==> i == 0 || ts[i - 1] is Tab || ts[i - 1]
            is NewLine
}

proof fn lemma_lex_tabs_lead_lines(s: Seq<char>, i: int, toks: Seq<SpecToken>)
    requires
        tabs_lead_lines(toks),
    ensures
        lex(s, i, toks) matches Some(ts) ==> tabs_lead_lines(ts),
    decreases s.len() - i,
{
    if 0 <= i < s.len() {
        let c = s[i];
        if c == '"' {
            match string_body(s, i + 1) {
                Some((text, e)) => {
                    lemma_string_body_bounds(s, i + 1);
                    let next = toks.push(SpecToken::String(text));
                    assert(tabs_lead_lines(next)) by {
                        assert forall|j: int| 0 <= j < next.len() && #[trigger] next[j] is Tab
                            implies j == 0 || next[j - 1] is Tab || next[j - 1] is NewLine by {
                            assert(next[j] == toks[j]);
                        }
                    }
                    lemma_lex_tabs_lead_lines(s, e, next);
                },
                None => {},
            }
        } else if is_number_char(c) {
            let e = number_end(s, i);
            lemma_digits_end_bounds(s, i + 1);
            let d = digits_end(s, i + 1);
            if 0 <= d < s.len() && s[d] == '.' {
                lemma_digits_end_bounds(s, d + 1);
            }
            lemma_push_keeps_tabs_lead_lines(toks, SpecToken::Number(s.subrange(i, e)));
            lemma_lex_tabs_lead_lines(s, e, toks.push(SpecToken::Number(s.subrange(i, e))));
        } else if c == '(' || c == ')' || c == '.' || c == '\n' {
            let t = if c == '(' {
                SpecToken::LParens
            } else if c == ')' {
                SpecToken::RParens
            } else if c == '.' {
                SpecToken::Dot
            } else {
                SpecToken::NewLine
            };
            lemma_push_keeps_tabs_lead_lines(toks, t);
            lemma_lex_tabs_lead_lines(s, i + 1, toks.push(t));
        } else if c == '\t' || c == '\\' {
            if at_line_start(toks) {
                lemma_push_tab_at_line_start(toks);
                if c == '\t' {
                    lemma_lex_tabs_lead_lines(s, i + 1, toks.push(SpecToken::Tab));
                } else if i + 1 < s.len() && s[i + 1] == 't' {
                    lemma_lex_tabs_lead_lines(s, i + 2, toks.push(SpecToken::Tab));
                }
            } else {
                lemma_lex_tabs_lead_lines(s, i + 1, toks);
            }
        } else if c == ' ' {
            lemma_lex_tabs_lead_lines(s, i + 1, toks);
        } else if is_letter(c) {
            let e = letters_end(s, i + 1);
            lemma_letters_end_bounds(s, i + 1);
            let t = keyword(s.subrange(i, e));
            lemma_push_keeps_tabs_lead_lines(toks, t);
            lemma_lex_tabs_lead_lines(s, e, toks.push(t));
        }
    }
}

proof fn lemma_push_keeps_tabs_lead_lines(toks: Seq<SpecToken>, t: SpecToken)
    requires
        tabs_lead_lines(toks),
        !(t is Tab),
    ensures
        tabs_lead_lines(toks.push(t)),
{
    let next = toks.push(t);
    assert forall|j: int| 0 <= j < next.len() && #[trigger] next[j] is Tab implies j == 0
        || next[j - 1] is Tab || next[j - 1] is NewLine by {
        assert(next[j] == toks[j]);
    }
}

proof fn lemma_push_tab_at_line_start(toks: Seq<SpecToken>)
    requires
        tabs_lead_lines(toks),
        at_line_start(toks),
    ensures
        tabs_lead_lines(toks.push(SpecToken::Tab)),
{
    let next = toks.push(SpecToken::Tab);
    assert forall|j: int| 0 <= j < next.len() && #[trigger] next[j] is Tab implies j == 0
        || next[j - 1] is Tab || next[j - 1] is NewLine by {
        if j < toks.len() {
            assert(next[j] == toks[j]);
        } else if j > 0 {
            assert(next[j - 1] == toks.last());
        }
    }
}

/// Indentation only counts at the start of a line: in the tokens of any
/// text, every tab token comes first, or right after a tab or a newline.
pub proof fn law_tabs_only_at_line_start(s: Seq<char>)
    ensures
        spec_tokenize(s) matches Some(ts) ==> tabs_lead_lines(ts),
{
    lemma_lex_tabs_lead_lines(s, 0, Seq::empty());
}

proof fn lemma_digits_end_run(s: Seq<char>, i: int, k: int)
    requires
        0 <= i <= k <= s.len(),
        forall|j: int| i <= j < k ==> '0' <= #[trigger] s[j] && s[j] <= '8',
        k == s.len() || !('0' <= s[k] && s[k] <= '8'),
    ensures
        digits_end(s, i) == k,
    decreases k - i,
{
    if i < k {
        lemma_digits_end_run(s, i + 1, k);
    }
}

/// Every character from `0` to `8` is a digit of a number literal: a run of
/// such characters, followed by the end of the text or by a character that
/// is neither such a digit nor a `.`, is read as one number token holding
/// exactly that run.
pub proof fn law_digit_run(s: Seq<char>, i: int, k: int, toks: Seq<SpecToken>)
    requires
        0 <= i < k <= s.len(),
        forall|j: int| i <= j < k ==> '0' <= #[trigger] s[j] && s[j] <= '8',
        k == s.len() || (s[k] != '.' && !('0' <= s[k] && s[k] <= '8')),
    ensures
        lex(s, i, toks) == lex(s, k, toks.push(SpecToken::Number(s.subrange(i, k)))),
{
    assert('0' <= s[i] && s[i] <= '8');
    lemma_digits_end_run(s, i + 1, k);
}

/// A nonempty text made only of the characters `0` to `8` is one number
/// token holding the whole text.
pub proof fn law_digits_text(s: Seq<char>)
    requires
        s.len() > 0,
        forall|j: int| 0 <= j < s.len() ==> '0' <= #[trigger] s[j] && s[j] <= '8',
    ensures
        spec_tokenize(s) == Some(seq![SpecToken::Number(s)]),
{
    law_digit_run(s, 0, s.len() as int, Seq::empty());
    assert(s.subrange(0, s.len() as int) =~= s);
    assert(Seq::<SpecToken>::empty().push(SpecToken::Number(s)) =~= seq![SpecToken::Number(s)]);
}

proof fn lemma_view_tokens_push(ts: Seq<Token>, t: Token)
    ensures
        view_tokens(ts.push(t)) == view_tokens(ts).push(t@),
{
    assert(view_tokens(ts.push(t)) =~= view_tokens(ts).push(t@));
}

fn at_line_start_exec(tokens: &Vec<Token>) -> (r: bool)
    ensures
        r == at_line_start(view_tokens(tokens@)),
{
    if tokens.len() == 0 {
        true
    } else {
        match &tokens[tokens.len() - 1] {
            Token::Tab => true,
            Token::NewLine => true,
            _ => false,
        }
    }
}

/// Scans the body of a string literal that starts at `start`.
fn scan_string(chars: &Vec<char>, start: usize) -> (r: Option<(String, usize)>)
    requires
        start <= chars@.len(),
    ensures
        match string_body(chars@, start as int) {
            Some((text, e)) => r matches Some((lit, end)) && lit@ == text && end == e,
            None => r is None,
        },
{
    let n = chars.len();
    let mut lit = String::new();
    let mut i = start;
    while i < n
        invariant
            start <= i <= n == chars@.len(),
            string_body(chars@, start as int) == match string_body(chars@, i as int) {
                Some((text, e)) => Some((lit@ + text, e)),
                None => None,
            },
        decreases n - i,
    {
        let c = chars[i];
        if c == '"' {
            assert(lit@ + Seq::<char>::empty() =~= lit@);
            return Some((lit, i + 1));
        } else if c == '\\' {
            if i + 1 < n && chars[i + 1] == '"' {
                let ghost before = lit@;
                push_char(&mut lit, '"');
                proof {
                    match string_body(chars@, i + 2) {
                        Some((text, e)) => {
                            assert(before + (seq!['"'] + text) =~= lit@ + text);
                        },
                        None => {},
                    }
                }
                i = i + 2;
            } else {
                return None;
            }
        } else {
            let ghost before = lit@;
            push_char(&mut lit, c);
            proof {
                match string_body(chars@, i + 1) {
                    Some((text, e)) => {
                        assert(before + (seq![c] + text) =~= lit@ + text);
                    },
                    None => {},
                }
            }
            i = i + 1;
        }
    }
    None
}

/// The end of the run of digits that starts at `i`.
fn scan_digits(chars: &Vec<char>, i: usize) -> (e: usize)
    requires
        i <= chars@.len(),
    ensures
        e == digits_end(chars@, i as int),
        i <= e <= chars@.len(),
{
    let mut j = i;
    while j < chars.len() && '0' <= chars[j] && chars[j] <= '8'
        invariant
            i <= j <= chars@.len(),
            digits_end(chars@, i as int) == digits_end(chars@, j as int),
        decreases chars@.len() - j,
    {
        j = j + 1;
    }
    j
}

/// The end of the run of letters that starts at `i`.
fn scan_letters(chars: &Vec<char>, i: usize) -> (e: usize)
    requires
        i <= chars@.len(),
    ensures
        e == letters_end(chars@, i as int),
        i <= e <= chars@.len(),
{
    let mut j = i;
    while j < chars.len() && (('a' <= chars[j] && chars[j] <= 'z') || ('A' <= chars[j]
        && chars[j] <= 'Z'))
        invariant
            i <= j <= chars@.len(),
            letters_end(chars@, i as int) == letters_end(chars@, j as int),
        decreases chars@.len() - j,
    {
        j = j + 1;
    }
    j
}

/// The token for a word of letters.
fn keyword_token(w: String) -> (t: Token)
    ensures
        t@ == keyword(w@),
{
    if same_text(w.as_str(), "Method") {
        Token::Method
    } else if same_text(w.as_str(), "Return") {
        Token::Return
    } else if same_text(w.as_str(), "Move") {
        Token::Move
    } else if same_text(w.as_str(), "Void") {
        Token::Void
    } else if same_text(w.as_str(), "Use") {
        Token::Use
    } else if same_text(w.as_str(), "As") {
        Token::As
    } else if same_text(w.as_str(), "Inherit") {
        Token::Inherit
    } else if same_text(w.as_str(), "Do") {
        Token::Do
    } else if same_text(w.as_str(), "Until") {
        Token::Until
    } else if same_text(w.as_str(), "If") {
        Token::If
    } else {
        Token::Ident(w)
    }
}

/// Tokenizes a text, or returns `None` exactly where `tokenize` would not
/// accept it.
pub fn try_tokenize(file: &str) -> (r: Option<Vec<Token>>)
    ensures
        match spec_tokenize(file@) {
            Some(ts) => r matches Some(v) && view_tokens(v@) == ts,
            None => r is None,
        },
{
    let chars = chars_of(file);
    let n = chars.len();
    let mut tokens: Vec<Token> = Vec::new();
    let mut i: usize = 0;
    assert(view_tokens(tokens@) =~= Seq::<SpecToken>::empty());
    while i < n
        invariant
            i <= n == chars@.len(),
            chars@ == file@,
            spec_tokenize(file@) == lex(chars@, i as int, view_tokens(tokens@)),
        decreases n - i,
    {
        let ghost s = chars@;
        let ghost before = view_tokens(tokens@);
        let c = chars[i];
        if c == '"' {
            match scan_string(&chars, i + 1) {
                Some((lit, e)) => {
                    proof {
                        lemma_string_body_bounds(s, i + 1);
                    }
                    let t = Token::String(lit);
                    proof {
                        lemma_view_tokens_push(tokens@, t);
                    }
                    tokens.push(t);
                    i = e;
                },
                None => {
                    return None;
                },
            }
        } else if '0' <= c && c <= '8' {
            let d = scan_digits(&chars, i + 1);
            let e = if d < n && chars[d] == '.' {
                scan_digits(&chars, d + 1)
            } else {
                d
            };
            assert(e == number_end(s, i as int));
            let t = Token::Number(string_of(&chars, i, e));
            proof {
                lemma_view_tokens_push(tokens@, t);
            }
            tokens.push(t);
            i = e;
        } else if c == '(' || c == ')' || c == '.' || c == '\n' {
            let t = if c == '(' {
                Token::LParens
            } else if c == ')' {
                Token::RParens
            } else if c == '.' {
                Token::Dot
            } else {
                Token::NewLine
            };
            proof {
                lemma_view_tokens_push(tokens@, t);
            }
            tokens.push(t);
            i = i + 1;
        } else if c == '\t' {
            if at_line_start_exec(&tokens) {
                proof {
                    lemma_view_tokens_push(tokens@, Token::Tab);
                }
                tokens.push(Token::Tab);
            }
            i = i + 1;
        } else if c == ' ' {
            i = i + 1;
        } else if c == '\\' {
            if at_line_start_exec(&tokens) {
                if i + 1 < n && chars[i + 1] == 't' {
                    proof {
                        lemma_view_tokens_push(tokens@, Token::Tab);
                    }
                    tokens.push(Token::Tab);
                    i = i + 2;
                } else {
                    return None;
                }
            } else {
                i = i + 1;
            }
        } else if ('a' <= c && c <= 'z') || ('A' <= c && c <= 'Z') {
            let e = scan_letters(&chars, i + 1);
            let t = keyword_token(string_of(&chars, i, e));
            proof {
                lemma_view_tokens_push(tokens@, t);
            }
            tokens.push(t);
            i = e;
        } else {
            return None;
        }
    }
    Some(tokens)
}

/// Splits a text into tokens.
///
/// Spaces separate tokens and are dropped; a tab, or the two characters `\t`,
/// gives a `Tab` token only at the start of a line; a string literal keeps its
/// text without the quotes; a run of letters is a keyword or a name.
pub fn tokenize(file: &str) -> (tokens: Vec<Token>)
    requires
        spec_tokenize(file@) is Some,
    ensures
        view_tokens(tokens@) == spec_tokenize(file@).unwrap(),
{
    match try_tokenize(file) {
        Some(v) => v,
        None => Vec::new(),
    }
}

} // verus!
