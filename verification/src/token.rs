//! Tokens, and the numerals that number tokens carry.
use vstd::prelude::*;
use crate::chars::{chars_of, is_numeral_char, spec_is_digit, spec_is_letter, spec_is_numeral_char};

verus! {

/// How many decimal points `text` holds.
pub open spec fn count_dots(text: Seq<char>) -> nat
    decreases text.len(),
{
    if text.len() == 0 {
        0
    } else {
        count_dots(text.drop_last()) + if text.last() == '.' {
            1nat
        } else {
            0nat
        }
    }
}

/// `text` denotes a decimal number: digits and decimal points only, at most
/// one decimal point, and at least one digit. So `12`, `1.5`, `.5` and `5.`
/// are numerals; `.`, `1.2.3` and the empty text are not.
pub open spec fn is_numeral(text: Seq<char>) -> bool {
    &&& forall|i: int| 0 <= i < text.len() ==> spec_is_numeral_char(#[trigger] text[i])
    &&& count_dots(text) <= 1
    &&& count_dots(text) < text.len()
}

/// A decimal number, kept as the text that denotes it.
///
/// Only texts for which `is_numeral` holds are stored, so the text of a
/// `Numeral` can always be read as a number.
#[derive(Debug, PartialEq, Eq)]
pub struct Numeral {
    text: String,
}

impl View for Numeral {
    type V = Seq<char>;

    closed spec fn view(&self) -> Seq<char> {
        self.text@
    }
}

impl Numeral {
    #[verifier::type_invariant]
    spec fn valid(self) -> bool {
        is_numeral(self.text@)
    }

    /// The numeral that `text` denotes, if it denotes one.
    pub fn new(text: &str) -> (r: Option<Numeral>)
        ensures
            r is Some <==> is_numeral(text@),
            r matches Some(n) ==> n@ == text@,
    {
        Numeral::from_string(text.to_owned())
    }

    /// As `new`, taking the text by value.
    pub fn from_string(text: String) -> (r: Option<Numeral>)
        ensures
            r is Some <==> is_numeral(text@),
            r matches Some(n) ==> n@ == text@,
    {
        let chars = chars_of(text.as_str());
        let mut dots: usize = 0;
        let mut i: usize = 0;
        while i < chars.len()
            invariant
                chars@ == text@,
                i <= chars.len(),
                dots == count_dots(chars@.take(i as int)),
                dots <= i,
                forall|k: int| 0 <= k < i ==> spec_is_numeral_char(#[trigger] chars[k]),
            decreases chars.len() - i,
        {
            let c = chars[i];
            if !is_numeral_char(c) {
                assert(!spec_is_numeral_char(text@[i as int]));
                return None;
            }
            assert(chars@.take(i + 1).drop_last() == chars@.take(i as int));
            if c == '.' {
                dots += 1;
            }
            i += 1;
        }
        assert(chars@.take(i as int) == chars@);
        if dots <= 1 && dots < chars.len() {
            Some(Numeral { text })
        } else {
            None
        }
    }

    /// The text of the numeral.
    pub fn as_str(&self) -> (text: &str)
        ensures
            text@ == self@,
            is_numeral(text@),
    {
        proof {
            use_type_invariant(self);
        }
        self.text.as_str()
    }
}

impl Clone for Numeral {
    fn clone(&self) -> (r: Self)
        ensures
            r@ == self@,
    {
        proof {
            use_type_invariant(self);
        }
        Numeral { text: self.text.clone() }
    }
}

/// A lexical unit of the source text.
#[derive(Debug, PartialEq, Eq)]
pub enum Token {
    Identifier(String),
    Number(Numeral),
    Plus,
    Minus,
    Asterisk,
    Carat,
    Slash,
    LParen,
    RParen,
    String(String),
    Eq,
    Let,
    SemiColon,
}

/// A token as a mathematical value: names, numerals and string contents are
/// sequences of characters.
pub enum TokenView {
    Identifier(Seq<char>),
    Number(Seq<char>),
    Plus,
    Minus,
    Asterisk,
    Carat,
    Slash,
    LParen,
    RParen,
    String(Seq<char>),
    Eq,
    Let,
    SemiColon,
}

impl View for Token {
    type V = TokenView;

    open spec fn view(&self) -> TokenView {
        match self {
            Token::Identifier(name) => TokenView::Identifier(name@),
            Token::Number(n) => TokenView::Number(n@),
            Token::Plus => TokenView::Plus,
            Token::Minus => TokenView::Minus,
            Token::Asterisk => TokenView::Asterisk,
            Token::Carat => TokenView::Carat,
            Token::Slash => TokenView::Slash,
            Token::LParen => TokenView::LParen,
            Token::RParen => TokenView::RParen,
            Token::String(s) => TokenView::String(s@),
            Token::Eq => TokenView::Eq,
            Token::Let => TokenView::Let,
            Token::SemiColon => TokenView::SemiColon,
        }
    }
}

/// `name` has the shape of an identifier: a letter, then digits only.
pub open spec fn is_identifier(name: Seq<char>) -> bool {
    &&& name.len() >= 1
    &&& spec_is_letter(name[0])
    &&& forall|i: int| 1 <= i < name.len() ==> spec_is_digit(#[trigger] name[i])
}

impl TokenView {
    /// The token is one that the tokenizer can produce: an identifier has the
    /// shape of one, a number is a numeral, a string holds no quote.
    pub open spec fn wf(self) -> bool {
        match self {
            TokenView::Identifier(name) => is_identifier(name),
            TokenView::Number(text) => is_numeral(text),
            TokenView::String(s) => forall|i: int| 0 <= i < s.len() ==> #[trigger] s[i] != '"',
            _ => true,
        }
    }
}

/// Every token of `ts` is one that the tokenizer can produce.
pub open spec fn tokens_wf(ts: Seq<TokenView>) -> bool {
    forall|i: int| 0 <= i < ts.len() ==> (#[trigger] ts[i]).wf()
}

/// The views of the tokens of `tokens`, in order.
pub open spec fn token_views(tokens: Seq<Token>) -> Seq<TokenView> {
    tokens.map_values(|t: Token| t@)
}

impl Clone for Token {
    fn clone(&self) -> (r: Self)
        ensures
            r@ == self@,
    {
        match self {
            Token::Identifier(name) => Token::Identifier(name.clone()),
            Token::Number(n) => Token::Number(n.clone()),
            Token::Plus => Token::Plus,
            Token::Minus => Token::Minus,
            Token::Asterisk => Token::Asterisk,
            Token::Carat => Token::Carat,
            Token::Slash => Token::Slash,
            Token::LParen => Token::LParen,
            Token::RParen => Token::RParen,
            Token::String(s) => Token::String(s.clone()),
            Token::Eq => Token::Eq,
            Token::Let => Token::Let,
            Token::SemiColon => Token::SemiColon,
        }
    }
}

} // verus!
