//! Laws of the tokenizer: what its tokens look like, where its errors point,
//! and that it reads rendered tokens back.
use vstd::prelude::*;
use crate::chars::{spec_is_digit, spec_is_letter, spec_is_numeral_char};
use crate::lexer::{
    lemma_run_len_is, lemma_scan_len, lex, prepend, run_len, scan, spec_keyword, spec_punctuation, CharClass,
    LexErrorView, Scan,
};
use crate::printer::spec_render;
use crate::token::{tokens_wf, TokenView};

verus! {

/// A run lies within its text, and its characters belong to its class.
pub proof fn lemma_run_members(s: Seq<char>, class: CharClass)
    ensures
        run_len(s, class) <= s.len(),
        forall|i: int| 0 <= i < run_len(s, class) ==> class.spec_contains(#[trigger] s[i]),
    decreases s.len(),
{
    if s.len() > 0 && class.spec_contains(s[0]) {
        let rest = s.skip(1);
        lemma_run_members(rest, class);
        assert forall|i: int| 0 <= i < run_len(s, class) implies class.spec_contains(#[trigger] s[i]) by {
            if i > 0 {
                assert(s[i] == rest[i - 1]);
            }
        }
    }
}

/// The token that a text starts with is one that the tokenizer can produce.
pub proof fn lemma_scan_wf(s: Seq<char>)
    requires
        s.len() > 0,
    ensures
        scan(s) matches Scan::Token(t, _) ==> t.wf(),
{
    let c = s[0];
    if spec_punctuation(c) is Some {
    } else if c == '"' {
        let body = s.skip(1);
        lemma_run_members(body, CharClass::StringBody);
    } else if spec_is_numeral_char(c) {
    } else if spec_is_letter(c) {
        if spec_keyword(s) is None {
            let rest = s.skip(1);
            lemma_run_members(rest, CharClass::Digit);
            let n = run_len(rest, CharClass::Digit);
            let name = s.take((n + 1) as int);
            assert forall|i: int| 1 <= i < name.len() implies spec_is_digit(#[trigger] name[i]) by {
                assert(name[i] == rest[i - 1]);
            }
        }
    }
}

/// Every token that the tokenizer produces is well formed: an identifier is
/// a letter followed by digits, a number is a numeral, a string holds no
/// quote.
pub proof fn lemma_lex_wf(s: Seq<char>, pos: nat)
    ensures
        lex(s, pos) matches Ok(ts) ==> tokens_wf(ts),
    decreases s.len(),
{
    if s.len() > 0 {
        lemma_scan_len(s);
        lemma_scan_wf(s);
        match scan(s) {
            Scan::Token(t, n) => {
                lemma_lex_wf(s.skip(n as int), pos + n);
            },
            Scan::Blank => {
                lemma_lex_wf(s.skip(1), pos + 1);
            },
            Scan::Invalid => {},
        }
    }
}

/// An error of the tokenizer points into the text, at the character that it
/// names.
pub proof fn lemma_lex_error_position(s: Seq<char>, pos: nat)
    ensures
        lex(s, pos) matches Err(e) ==> {
            &&& pos <= e.position < pos + s.len()
            &&& s[e.position - pos] == e.character
        },
    decreases s.len(),
{
    if s.len() > 0 {
        lemma_scan_len(s);
        match scan(s) {
            Scan::Token(t, n) => {
                lemma_lex_error_position(s.skip(n as int), pos + n);
            },
            Scan::Blank => {
                lemma_lex_error_position(s.skip(1), pos + 1);
            },
            Scan::Invalid => {},
        }
    }
}

/// A well-formed token is read back from its text, where a space follows
/// the text.
pub proof fn lemma_scan_text(t: TokenView, tail: Seq<char>)
    requires
        t.wf(),
        tail.len() > 0,
        tail[0] == ' ',
    ensures
        t.text().len() >= 1,
        scan(t.text() + tail) == Scan::Token(t, t.text().len()),
{
    let s = t.text() + tail;
    match t {
        TokenView::Identifier(name) => {
            let rest = s.skip(1);
            let n = (name.len() - 1) as nat;
            assert(s[0] == name[0]);
            assert(s[1] != 'e') by {
                if name.len() > 1 {
                    assert(s[1] == name[1]);
                } else {
                    assert(s[1] == tail[0]);
                }
            }
            assert forall|i: int| 0 <= i < n implies CharClass::Digit.spec_contains(#[trigger] rest[i]) by {
                assert(rest[i] == name[i + 1]);
            }
            assert(rest[n as int] == tail[0]);
            lemma_run_len_is(rest, CharClass::Digit, n);
            assert(s.take((n + 1) as int) == name);
        },
        TokenView::Number(text) => {
            let n = text.len();
            assert(s[0] == text[0]);
            assert forall|i: int| 0 <= i < n implies CharClass::Numeral.spec_contains(#[trigger] s[i]) by {
                assert(s[i] == text[i]);
            }
            assert(s[n as int] == tail[0]);
            lemma_run_len_is(s, CharClass::Numeral, n);
            assert(s.take(n as int) == text);
        },
        TokenView::String(body) => {
            let rest = s.skip(1);
            let n = body.len();
            assert(s[0] == '"');
            assert forall|i: int| 0 <= i < n implies CharClass::StringBody.spec_contains(#[trigger] rest[i]) by {
                assert(rest[i] == body[i]);
            }
            assert(rest[n as int] == '"');
            lemma_run_len_is(rest, CharClass::StringBody, n);
            assert(rest.take(n as int) == body);
        },
        TokenView::Let => {
            assert(s[0] == 'l' && s[1] == 'e' && s[2] == 't');
        },
        _ => {
            assert(s[0] == t.text()[0]);
        },
    }
}

/// The tokenizer reads well-formed tokens back from their text.
pub proof fn lemma_lex_render(ts: Seq<TokenView>, pos: nat)
    requires
        tokens_wf(ts),
    ensures
        lex(spec_render(ts), pos) == Ok::<Seq<TokenView>, LexErrorView>(ts),
    decreases ts.len(),
{
    if ts.len() > 0 {
        let t = ts[0];
        let rest = ts.skip(1);
        let tail = seq![' '] + spec_render(rest);
        let s = t.text() + tail;
        let n = t.text().len();
        assert(spec_render(ts) == s);
        lemma_scan_text(t, tail);
        assert(s.skip(n as int) == tail);
        assert(scan(tail) == Scan::Blank);
        assert(tail.skip(1) == spec_render(rest));
        assert(tokens_wf(rest)) by {
            assert forall|i: int| 0 <= i < rest.len() implies (#[trigger] rest[i]).wf() by {
                assert(rest[i] == ts[i + 1]);
            }
        }
        lemma_lex_render(rest, pos + n + 1);
        assert(lex(tail, pos + n) == Ok::<Seq<TokenView>, LexErrorView>(rest));
        assert(seq![t] + rest == ts);
        assert(lex(s, pos) == prepend(seq![t], lex(tail, pos + n)));
    } else {
        assert(ts == Seq::<TokenView>::empty());
    }
}

} // verus!
