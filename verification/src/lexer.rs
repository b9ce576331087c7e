//! The tokenizer: from text to tokens.
//!
//! `lex` says, as a function on sequences of characters, which tokens a text
//! holds; `tokenize` computes it.
use vstd::prelude::*;
use crate::chars::{
    chars_of, is_blank, is_digit, is_letter, is_numeral_char, spec_is_blank, spec_is_digit, spec_is_letter,
    spec_is_numeral_char, string_of,
};
use crate::laws::reading::{lemma_lex_error_position, lemma_lex_wf};
use crate::token::{is_numeral, token_views, tokens_wf, TokenView};
pub use crate::token::{Numeral, Token};

verus! {

/// The tokenizer met a character that starts no token, or a malformed
/// numeral. `position` counts characters from the start of the text; for a
/// malformed numeral it is where the numeral starts.
#[derive(Debug, PartialEq, Eq, Structural, Clone, Copy)]
pub struct LexError {
    pub character: char,
    pub position: usize,
}

/// A `LexError` with its position as a natural number.
pub struct LexErrorView {
    pub character: char,
    pub position: nat,
}

impl View for LexError {
    type V = LexErrorView;

    open spec fn view(&self) -> LexErrorView {
        LexErrorView { character: self.character, position: self.position as nat }
    }
}

/// The sets of characters that a token is continued with.
#[derive(Debug, PartialEq, Eq, Structural, Clone, Copy)]
pub enum CharClass {
    /// The digits, which continue an identifier.
    Digit,
    /// The digits and the decimal point, which continue a numeral.
    Numeral,
    /// Everything but the quote, which continues a string literal.
    StringBody,
}

impl CharClass {
    /// `c` belongs to the class.
    pub open spec fn spec_contains(self, c: char) -> bool {
        match self {
            CharClass::Digit => spec_is_digit(c),
            CharClass::Numeral => spec_is_numeral_char(c),
            CharClass::StringBody => c != '"',
        }
    }

    /// Whether `c` belongs to the class.
    #[verifier::when_used_as_spec(spec_contains)]
    pub fn contains(self, c: char) -> (b: bool)
        ensures
            b == self.spec_contains(c),
    {
        match self {
            CharClass::Digit => is_digit(c),
            CharClass::Numeral => is_numeral_char(c),
            CharClass::StringBody => c != '"',
        }
    }
}

/// The length of the longest prefix of `s` whose characters all belong to
/// `class`.
pub open spec fn run_len(s: Seq<char>, class: CharClass) -> nat
    decreases s.len(),
{
    if s.len() > 0 && class.spec_contains(s[0]) {
        1 + run_len(s.skip(1), class)
    } else {
        0
    }
}

/// A run is no longer than the text it is taken from.
pub proof fn lemma_run_len_bound(s: Seq<char>, class: CharClass)
    ensures
        run_len(s, class) <= s.len(),
    decreases s.len(),
{
    if s.len() > 0 && class.spec_contains(s[0]) {
        lemma_run_len_bound(s.skip(1), class);
    }
}

/// The run has length `n` when the first `n` characters belong to the class
/// and the next one, if there is one, does not.
pub proof fn lemma_run_len_is(s: Seq<char>, class: CharClass, n: nat)
    requires
        n <= s.len(),
        forall|i: int| 0 <= i < n ==> class.spec_contains(#[trigger] s[i]),
        n < s.len() ==> !class.spec_contains(s[n as int]),
    ensures
        run_len(s, class) == n,
    decreases n,
{
    if n > 0 {
        let rest = s.skip(1);
        assert(class.spec_contains(s[0]));
        assert forall|i: int| 0 <= i < n - 1 implies class.spec_contains(#[trigger] rest[i]) by {
            assert(rest[i] == s[i + 1]);
        }
        lemma_run_len_is(rest, class, (n - 1) as nat);
    }
}

/// The token that the single character `c` stands for, if it is one of
/// `+ - * / ^ ( ) = ;`.
pub open spec fn spec_punctuation(c: char) -> Option<TokenView> {
    if c == '+' {
        Some(TokenView::Plus)
    } else if c == '-' {
        Some(TokenView::Minus)
    } else if c == '*' {
        Some(TokenView::Asterisk)
    } else if c == '/' {
        Some(TokenView::Slash)
    } else if c == '^' {
        Some(TokenView::Carat)
    } else if c == '(' {
        Some(TokenView::LParen)
    } else if c == ')' {
        Some(TokenView::RParen)
    } else if c == '=' {
        Some(TokenView::Eq)
    } else if c == ';' {
        Some(TokenView::SemiColon)
    } else {
        None
    }
}

/// The keyword that `s` starts with, and its length. The only keyword is
/// `let`.
pub open spec fn spec_keyword(s: Seq<char>) -> Option<(TokenView, nat)> {
    if s.len() >= 3 && s[0] == 'l' && s[1] == 'e' && s[2] == 't' {
        Some((TokenView::Let, 3nat))
    } else {
        None
    }
}

/// What a non-empty text starts with.
pub enum Scan {
    /// A token, and the number of characters it takes up.
    Token(TokenView, nat),
    /// A character of white space.
    Blank,
    /// A character that starts no token, or a malformed numeral.
    Invalid,
}

/// A string literal: from the opening quote up to the next quote, or to the
/// end of the text where there is none. The token holds what stands between.
pub open spec fn scan_string(s: Seq<char>) -> Scan {
    let body = s.skip(1);
    let n = run_len(body, CharClass::StringBody);
    Scan::Token(
        TokenView::String(body.take(n as int)),
        if n < body.len() {
            n + 2
        } else {
            n + 1
        },
    )
}

/// A number: the longest run of digits and decimal points, which must be a
/// numeral.
pub open spec fn scan_number(s: Seq<char>) -> Scan {
    let n = run_len(s, CharClass::Numeral);
    let text = s.take(n as int);
    if is_numeral(text) {
        Scan::Token(TokenView::Number(text), n)
    } else {
        Scan::Invalid
    }
}

/// A keyword, or else an identifier: one letter and the digits that follow
/// it. Letters after the first are not part of the identifier.
pub open spec fn scan_word(s: Seq<char>) -> Scan {
    match spec_keyword(s) {
        Some((t, n)) => Scan::Token(t, n),
        None => {
            let n = run_len(s.skip(1), CharClass::Digit);
            Scan::Token(TokenView::Identifier(s.take((n + 1) as int)), n + 1)
        },
    }
}

/// What the non-empty text `s` starts with, decided by its first character.
pub open spec fn scan(s: Seq<char>) -> Scan
    recommends
        s.len() > 0,
{
    let c = s[0];
    if spec_punctuation(c) is Some {
        Scan::Token(spec_punctuation(c)->0, 1)
    } else if c == '"' {
        scan_string(s)
    } else if spec_is_numeral_char(c) {
        scan_number(s)
    } else if spec_is_letter(c) {
        scan_word(s)
    } else if spec_is_blank(c) {
        Scan::Blank
    } else {
        Scan::Invalid
    }
}

/// A token takes up at least one character and no more than there are.
pub proof fn lemma_scan_len(s: Seq<char>)
    requires
        s.len() > 0,
    ensures
        scan(s) matches Scan::Token(_, n) ==> 1 <= n <= s.len(),
{
    lemma_run_len_bound(s.skip(1), CharClass::StringBody);
    lemma_run_len_bound(s, CharClass::Numeral);
    lemma_run_len_bound(s.skip(1), CharClass::Digit);
}

/// `r` with the tokens `ts` put in front; an error stays as it is.
pub open spec fn prepend(ts: Seq<TokenView>, r: Result<Seq<TokenView>, LexErrorView>) -> Result<
    Seq<TokenView>,
    LexErrorView,
> {
    match r {
        Ok(rest) => Ok(ts + rest),
        Err(e) => Err(e),
    }
}

/// The tokens of the text `s`, which stands at position `pos` of the whole
/// text: white space is passed over, and the first character that starts no
/// token, or the first malformed numeral, ends the reading with an error that
/// gives its position.
pub open spec fn lex(s: Seq<char>, pos: nat) -> Result<Seq<TokenView>, LexErrorView>
    decreases s.len(),
    via lex_decreases
{
    if s.len() == 0 {
        Ok(Seq::empty())
    } else {
        match scan(s) {
            Scan::Token(t, n) => prepend(seq![t], lex(s.skip(n as int), pos + n)),
            Scan::Blank => lex(s.skip(1), pos + 1),
            Scan::Invalid => Err(LexErrorView { character: s[0], position: pos }),
        }
    }
}

/// `lex` ends: each token takes up at least one character.
#[via_fn]
proof fn lex_decreases(s: Seq<char>, pos: nat) {
    if s.len() > 0 {
        lemma_scan_len(s);
    }
}

/// The token that the single character `c` stands for, if it stands for one.
fn punctuation(c: char) -> (r: Option<Token>)
    ensures
        match r {
            Some(t) => spec_punctuation(c) == Some(t@),
            None => spec_punctuation(c) is None,
        },
{
    if c == '+' {
        Some(Token::Plus)
    } else if c == '-' {
        Some(Token::Minus)
    } else if c == '*' {
        Some(Token::Asterisk)
    } else if c == '/' {
        Some(Token::Slash)
    } else if c == '^' {
        Some(Token::Carat)
    } else if c == '(' {
        Some(Token::LParen)
    } else if c == ')' {
        Some(Token::RParen)
    } else if c == '=' {
        Some(Token::Eq)
    } else if c == ';' {
        Some(Token::SemiColon)
    } else {
        None
    }
}

/// The keyword that starts at `chars[at]`, and its length. Nothing is
/// consumed: the caller moves on only when a keyword was found.
fn keyword(chars: &Vec<char>, at: usize) -> (r: Option<(Token, usize)>)
    requires
        at < chars.len(),
    ensures
        match r {
            Some((t, n)) => spec_keyword(chars@.skip(at as int)) == Some((t@, n as nat)),
            None => spec_keyword(chars@.skip(at as int)) is None,
        },
{
    if chars.len() - at >= 3 && chars[at] == 'l' && chars[at + 1] == 'e' && chars[at + 2] == 't' {
        Some((Token::Let, 3))
    } else {
        None
    }
}

/// Where the run of characters of `class` that starts at `chars[from]` ends.
fn run_end(chars: &Vec<char>, from: usize, class: CharClass) -> (end: usize)
    requires
        from <= chars.len(),
    ensures
        from <= end <= chars.len(),
        end - from == run_len(chars@.skip(from as int), class),
{
    let mut end: usize = from;
    while end < chars.len() && class.contains(chars[end])
        invariant
            from <= end <= chars.len(),
            forall|k: int| from <= k < end ==> class.spec_contains(#[trigger] chars[k]),
        decreases chars.len() - end,
    {
        end += 1;
    }
    proof {
        let s = chars@.skip(from as int);
        assert forall|i: int| 0 <= i < end - from implies class.spec_contains(#[trigger] s[i]) by {
            assert(s[i] == chars[from + i]);
        }
        lemma_run_len_is(s, class, (end - from) as nat);
    }
    end
}

/// What `scan_at` found: the counterpart of `Scan`.
enum Lexeme {
    Token(Token, usize),
    Blank,
    Invalid,
}

/// What the text starts with at `chars[at]`.
fn scan_at(chars: &Vec<char>, at: usize) -> (r: Lexeme)
    requires
        at < chars.len(),
    ensures
        match r {
            Lexeme::Token(t, n) => scan(chars@.skip(at as int)) == Scan::Token(t@, n as nat),
            Lexeme::Blank => scan(chars@.skip(at as int)) == Scan::Blank,
            Lexeme::Invalid => scan(chars@.skip(at as int)) == Scan::Invalid,
        },
{
    let ghost s = chars@.skip(at as int);
    let c = chars[at];
    assert(s[0] == c);
    match punctuation(c) {
        Some(t) => Lexeme::Token(t, 1),
        None => {
            if c == '"' {
                let end = run_end(chars, at + 1, CharClass::StringBody);
                let body = string_of(chars, at + 1, end);
                proof {
                    assert(s.skip(1) == chars@.skip(at + 1));
                    assert(s.skip(1).take(end - at - 1) == chars@.subrange(at + 1, end as int));
                }
                if end < chars.len() {
                    Lexeme::Token(Token::String(body), end + 1 - at)
                } else {
                    Lexeme::Token(Token::String(body), end - at)
                }
            } else if is_numeral_char(c) {
                let end = run_end(chars, at, CharClass::Numeral);
                let text = string_of(chars, at, end);
                proof {
                    assert(s.take(end - at) == chars@.subrange(at as int, end as int));
                }
                match Numeral::from_string(text) {
                    Some(n) => Lexeme::Token(Token::Number(n), end - at),
                    None => Lexeme::Invalid,
                }
            } else if is_letter(c) {
                match keyword(chars, at) {
                    Some((t, n)) => Lexeme::Token(t, n),
                    None => {
                        let end = run_end(chars, at + 1, CharClass::Digit);
                        let name = string_of(chars, at, end);
                        proof {
                            assert(s.skip(1) == chars@.skip(at + 1));
                            assert(s.take(end - at) == chars@.subrange(at as int, end as int));
                        }
                        Lexeme::Token(Token::Identifier(name), end - at)
                    },
                }
            } else if is_blank(c) {
                Lexeme::Blank
            } else {
                Lexeme::Invalid
            }
        },
    }
}

/// Putting `ts` and then `t` in front is putting `ts` with `t` at its end in
/// front.
proof fn lemma_prepend_push(ts: Seq<TokenView>, t: TokenView, r: Result<Seq<TokenView>, LexErrorView>)
    ensures
        prepend(ts, prepend(seq![t], r)) == prepend(ts.push(t), r),
{
    if let Ok(rest) = r {
        assert(ts + (seq![t] + rest) == ts.push(t) + rest);
    }
}

/// Putting no tokens in front changes nothing.
proof fn lemma_prepend_empty(r: Result<Seq<TokenView>, LexErrorView>)
    ensures
        prepend(Seq::empty(), r) == r,
{
    if let Ok(rest) = r {
        assert(Seq::<TokenView>::empty() + rest == rest);
    }
}

/// The tokens of `s`, in order, or the first error.
///
/// The result is exactly what `lex` says of the characters of `s`. Every
/// token returned is well formed. An error names a character of `s` and its
/// position, counted in characters from 0.
pub fn tokenize(s: &str) -> (r: Result<Vec<Token>, LexError>)
    ensures
        match r {
            Ok(tokens) => {
                &&& lex(s@, 0) == Ok::<Seq<TokenView>, LexErrorView>(token_views(tokens@))
                &&& tokens_wf(token_views(tokens@))
            },
            Err(e) => {
                &&& lex(s@, 0) == Err::<Seq<TokenView>, LexErrorView>(e@)
                &&& e.position < s@.len()
                &&& s@[e.position as int] == e.character
            },
        },
{
    proof {
        lemma_lex_wf(s@, 0);
        lemma_lex_error_position(s@, 0);
    }
    let chars = chars_of(s);
    let mut tokens: Vec<Token> = Vec::new();
    let mut i: usize = 0;
    proof {
        assert(chars@.skip(0) == chars@);
        assert(token_views(tokens@) == Seq::<TokenView>::empty());
        lemma_prepend_empty(lex(s@, 0));
    }
    while i < chars.len()
        invariant
            chars@ == s@,
            i <= chars.len(),
            lex(s@, 0) == prepend(token_views(tokens@), lex(chars@.skip(i as int), i as nat)),
        decreases chars.len() - i,
    {
        let ghost rest = chars@.skip(i as int);
        let ghost before = token_views(tokens@);
        proof {
            lemma_scan_len(rest);
        }
        match scan_at(&chars, i) {
            Lexeme::Token(t, n) => {
                proof {
                    assert(rest.skip(n as int) == chars@.skip(i + n));
                    lemma_prepend_push(before, t@, lex(rest.skip(n as int), (i + n) as nat));
                    assert(token_views(tokens@.push(t)) == before.push(t@));
                }
                tokens.push(t);
                i += n;
            },
            Lexeme::Blank => {
                proof {
                    assert(rest.skip(1) == chars@.skip(i + 1));
                }
                i += 1;
            },
            Lexeme::Invalid => {
                return Err(LexError { character: chars[i], position: i });
            },
        }
    }
    proof {
        assert(chars@.skip(i as int).len() == 0);
        assert(token_views(tokens@) + Seq::<TokenView>::empty() == token_views(tokens@));
    }
    Ok(tokens)
}

} // verus!
