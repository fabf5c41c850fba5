//! Maximal munch: the scanner always takes the longest token that begins at
//! a position.
//!
//! On text made of symbols and white space the tokens are those of a
//! tokenisation that is defined by the table of symbols alone. On any text no
//! token ends where it could have gone on.

use vstd::prelude::*;
use crate::grammar::{
    diagnostics, diagnostics_from, end_of_file, has_fraction, lemma_spans_from,
    lemma_step_advances, operator, scan_step, spans, tokens, tokens_from,
};
use crate::text::{is_blank, is_digit, is_identifier_char, lemma_run_end, run_end, CharClass};
use crate::token::{LiteralView, TokenType, TokenView};

verus! {

/// The kind of token that a symbol spells; `None` for any other text.
pub open spec fn symbol(lexeme: Seq<char>) -> Option<TokenType> {
    if lexeme == "("@ {
        Some(TokenType::Lparen)
    } else if lexeme == ")"@ {
        Some(TokenType::Rparen)
    } else if lexeme == "{"@ {
        Some(TokenType::Lbrace)
    } else if lexeme == "}"@ {
        Some(TokenType::Rbrace)
    } else if lexeme == ","@ {
        Some(TokenType::Comma)
    } else if lexeme == "."@ {
        Some(TokenType::Dot)
    } else if lexeme == "+"@ {
        Some(TokenType::Plus)
    } else if lexeme == "-"@ {
        Some(TokenType::Minus)
    } else if lexeme == ";"@ {
        Some(TokenType::Semicolon)
    } else if lexeme == "*"@ {
        Some(TokenType::Star)
    } else if lexeme == "="@ {
        Some(TokenType::Equal)
    } else if lexeme == "=="@ {
        Some(TokenType::DoubleEqual)
    } else if lexeme == "!"@ {
        Some(TokenType::Bang)
    } else if lexeme == "!="@ {
        Some(TokenType::BangEqual)
    } else if lexeme == "<"@ {
        Some(TokenType::Less)
    } else if lexeme == "<="@ {
        Some(TokenType::LessEqual)
    } else if lexeme == ">"@ {
        Some(TokenType::Greater)
    } else if lexeme == ">="@ {
        Some(TokenType::GreaterEqual)
    } else {
        None
    }
}

/// `c` is white space: a blank or a newline.
pub open spec fn is_white(c: char) -> bool {
    is_blank(c) || c == '\n'
}

/// The text holds nothing but white space and characters that are symbols by
/// themselves.
pub open spec fn is_symbol_text(s: Seq<char>) -> bool {
    forall|i: int| 0 <= i < s.len() ==> is_white(#[trigger] s[i]) || symbol(seq![s[i]]) is Some
}

/// A symbol of `n` characters begins at `pos`.
pub open spec fn symbol_at(s: Seq<char>, pos: int, n: int) -> bool {
    0 <= pos && 0 < n && pos + n <= s.len() && symbol(s.subrange(pos, pos + n)) is Some
}

/// The length of the longest symbol that begins at `pos`; 0 where none does.
pub open spec fn longest_symbol(s: Seq<char>, pos: int) -> int {
    if symbol_at(s, pos, 2) {
        2
    } else if symbol_at(s, pos, 1) {
        1
    } else {
        0
    }
}

/// The tokens of `s` from `pos` on by maximal munch: white space is passed
/// over, and at any other position the longest symbol that begins there is
/// the next token.
pub open spec fn munch_from(s: Seq<char>, pos: int) -> Seq<TokenView>
    decreases s.len() - pos,
{
    if 0 <= pos < s.len() {
        let n = longest_symbol(s, pos);
        if n == 0 {
            munch_from(s, pos + 1)
        } else {
            seq![
                TokenView {
                    typ: symbol(s.subrange(pos, pos + n))->0,
                    lexeme: s.subrange(pos, pos + n),
                    literal: LiteralView::Null,
                },
            ] + munch_from(s, pos + n)
        }
    } else {
        seq![end_of_file()]
    }
}

/// The symbols of one character.
proof fn lemma_symbol_of_one(c: char)
    ensures
        symbol(seq![c]) == (match c {
            '(' => Some(TokenType::Lparen),
            ')' => Some(TokenType::Rparen),
            '{' => Some(TokenType::Lbrace),
            '}' => Some(TokenType::Rbrace),
            ',' => Some(TokenType::Comma),
            '.' => Some(TokenType::Dot),
            '+' => Some(TokenType::Plus),
            '-' => Some(TokenType::Minus),
            ';' => Some(TokenType::Semicolon),
            '*' => Some(TokenType::Star),
            '=' => Some(TokenType::Equal),
            '!' => Some(TokenType::Bang),
            '<' => Some(TokenType::Less),
            '>' => Some(TokenType::Greater),
            _ => None::<TokenType>,
        }),
{
    reveal_symbols();
    let one = seq![c];
    assert(one.len() == 1 && one[0] == c);
    if c == '(' {
        assert(one =~= "("@);
    } else if c == ')' {
        assert(one =~= ")"@);
    } else if c == '{' {
        assert(one =~= "{"@);
    } else if c == '}' {
        assert(one =~= "}"@);
    } else if c == ',' {
        assert(one =~= ","@);
    } else if c == '.' {
        assert(one =~= "."@);
    } else if c == '+' {
        assert(one =~= "+"@);
    } else if c == '-' {
        assert(one =~= "-"@);
    } else if c == ';' {
        assert(one =~= ";"@);
    } else if c == '*' {
        assert(one =~= "*"@);
    } else if c == '=' {
        assert(one =~= "="@);
    } else if c == '!' {
        assert(one =~= "!"@);
    } else if c == '<' {
        assert(one =~= "<"@);
    } else if c == '>' {
        assert(one =~= ">"@);
    }
}

/// The symbols of two characters.
proof fn lemma_symbol_of_two(a: char, b: char)
    ensures
        symbol(seq![a, b]) == (if b != '=' {
            None::<TokenType>
        } else {
            match a {
                '=' => Some(TokenType::DoubleEqual),
                '!' => Some(TokenType::BangEqual),
                '<' => Some(TokenType::LessEqual),
                '>' => Some(TokenType::GreaterEqual),
                _ => None::<TokenType>,
            }
        }),
{
    reveal_symbols();
    let two = seq![a, b];
    assert(two.len() == 2 && two[0] == a && two[1] == b);
    if b == '=' {
        if a == '=' {
            assert(two =~= "=="@);
        } else if a == '!' {
            assert(two =~= "!="@);
        } else if a == '<' {
            assert(two =~= "<="@);
        } else if a == '>' {
            assert(two =~= ">="@);
        }
    }
}

/// What the symbols' spellings hold.
proof fn reveal_symbols()
    ensures
        "("@ == seq!['('],
        ")"@ == seq![')'],
        "{"@ == seq!['{'],
        "}"@ == seq!['}'],
        ","@ == seq![','],
        "."@ == seq!['.'],
        "+"@ == seq!['+'],
        "-"@ == seq!['-'],
        ";"@ == seq![';'],
        "*"@ == seq!['*'],
        "="@ == seq!['='],
        "!"@ == seq!['!'],
        "<"@ == seq!['<'],
        ">"@ == seq!['>'],
        "=="@ == seq!['=', '='],
        "!="@ == seq!['!', '='],
        "<="@ == seq!['<', '='],
        ">="@ == seq!['>', '='],
{
    reveal_strlit("(");
    reveal_strlit(")");
    reveal_strlit("{");
    reveal_strlit("}");
    reveal_strlit(",");
    reveal_strlit(".");
    reveal_strlit("+");
    reveal_strlit("-");
    reveal_strlit(";");
    reveal_strlit("*");
    reveal_strlit("=");
    reveal_strlit("!");
    reveal_strlit("<");
    reveal_strlit(">");
    reveal_strlit("==");
    reveal_strlit("!=");
    reveal_strlit("<=");
    reveal_strlit(">=");
    assert("("@ =~= seq!['(']);
    assert(")"@ =~= seq![')']);
    assert("{"@ =~= seq!['{']);
    assert("}"@ =~= seq!['}']);
    assert(","@ =~= seq![',']);
    assert("."@ =~= seq!['.']);
    assert("+"@ =~= seq!['+']);
    assert("-"@ =~= seq!['-']);
    assert(";"@ =~= seq![';']);
    assert("*"@ =~= seq!['*']);
    assert("="@ =~= seq!['=']);
    assert("!"@ =~= seq!['!']);
    assert("<"@ =~= seq!['<']);
    assert(">"@ =~= seq!['>']);
    assert("=="@ =~= seq!['=', '=']);
    assert("!="@ =~= seq!['!', '=']);
    assert("<="@ =~= seq!['<', '=']);
    assert(">="@ =~= seq!['>', '=']);
}

/// No symbol is longer than two characters, so `longest_symbol` is the length
/// of the longest symbol that begins at `pos`.
pub proof fn lemma_longest_symbol(s: Seq<char>, pos: int, n: int)
    requires
        symbol_at(s, pos, n),
    ensures
        n <= longest_symbol(s, pos),
{
    reveal_symbols();
    let lexeme = s.subrange(pos, pos + n);
    assert(lexeme.len() == n);
}

/// From `pos` on, symbol text yields the tokens of maximal munch and no diagnostic.
proof fn lemma_munch_from(s: Seq<char>, pos: int)
    requires
        is_symbol_text(s),
        0 <= pos <= s.len(),
    ensures
        tokens_from(s, pos) == munch_from(s, pos),
        diagnostics_from(s, pos) == Seq::<crate::diagnostic::DiagnosticView>::empty(),
    decreases s.len() - pos,
{
    if pos < s.len() {
        let c = s[pos];
        let step = scan_step(s, pos);
        lemma_step_advances(s, pos);
        lemma_munch_from(s, step.next);
        lemma_symbol_of_one(c);
        assert(s.subrange(pos, pos + 1) =~= seq![c]);
        if pos + 1 < s.len() {
            lemma_symbol_of_two(c, s[pos + 1]);
            assert(s.subrange(pos, pos + 2) =~= seq![c, s[pos + 1]]);
        }
        assert(is_white(c) || symbol(seq![c]) is Some);
        if is_white(c) {
            assert(step.tokens() =~= Seq::<TokenView>::empty());
            assert(tokens_from(s, pos) =~= tokens_from(s, pos + 1));
        }
        assert(diagnostics_from(s, pos) =~= step.diagnostics() + diagnostics_from(s, step.next));
    }
}

/// On text that holds nothing but symbols and white space, the scanner's
/// tokens are those of maximal munch, and nothing is reported: `==` is never
/// two `=`, and an operator character that no `=` follows is a token by itself.
pub proof fn lemma_symbols_are_munched(s: Seq<char>)
    requires
        is_symbol_text(s),
    ensures
        tokens(s) == munch_from(s, 0),
        diagnostics(s).len() == 0,
{
    lemma_munch_from(s, 0);
}

/// The token that lies from `a` to `b` stops short: the character at `b`
/// would go on with it. A number goes on with a digit, or with a point and a
/// digit where it has no point yet; a word with an identifier character; an
/// operator character with `=`; a slash with a second slash.
pub open spec fn stops_short(s: Seq<char>, a: int, b: int) -> bool {
    &&& 0 <= a < b < s.len()
    &&& if is_digit(s[a]) {
        is_digit(s[b]) || (!s.subrange(a, b).contains('.') && has_fraction(s, b))
    } else if is_identifier_char(s[a]) {
        is_identifier_char(s[b])
    } else if operator(s[a]) is Some {
        b == a + 1 && s[b] == '='
    } else if s[a] == '/' {
        b == a + 1 && s[b] == '/'
    } else {
        false
    }
}

/// The token of a step never stops short.
pub proof fn lemma_step_is_maximal(s: Seq<char>, pos: int)
    requires
        0 <= pos < s.len(),
        scan_step(s, pos).token is Some,
    ensures
        !stops_short(s, pos, scan_step(s, pos).next),
{
    let c = s[pos];
    lemma_step_advances(s, pos);
    if is_digit(c) {
        lemma_run_end(s, pos, CharClass::Digit);
        let whole_end = run_end(s, pos, CharClass::Digit);
        if has_fraction(s, whole_end) {
            lemma_run_end(s, whole_end + 1, CharClass::Digit);
            let end = run_end(s, whole_end + 1, CharClass::Digit);
            assert(s.subrange(pos, end)[whole_end - pos] == '.');
        }
    } else if is_identifier_char(c) {
        lemma_run_end(s, pos, CharClass::Identifier);
    }
}

/// No token of a text stops short: each is the longest that could begin
/// where it begins. A keyword is never the front of a longer word, and two
/// characters that spell one operator are never two tokens.
pub proof fn lemma_tokens_are_maximal(s: Seq<char>)
    ensures
        forall|i: int|
            0 <= i < spans(s).len() ==> !stops_short(
                s,
                (#[trigger] spans(s)[i]).0,
                spans(s)[i].1,
            ),
{
    lemma_spans_from(s, 0);
    assert forall|i: int| 0 <= i < spans(s).len() implies !stops_short(
        s,
        (#[trigger] spans(s)[i]).0,
        spans(s)[i].1,
    ) by {
        lemma_step_is_maximal(s, spans(s)[i].0);
    }
}

} // verus!
