//! The lexical grammar: which tokens and diagnostics a source text yields.
//!
//! Everything here is specification and proof. `scan_step` says what one
//! step of the scanner does at a position; `tokens_from` and
//! `diagnostics_from` follow the steps to the end of the text. The lemmas
//! state what holds of every token and every diagnostic of every text.

use vstd::prelude::*;
use crate::decimal::DecimalView;
use crate::diagnostic::{DiagnosticView, ErrorKind};
use crate::text::{
    is_blank, is_digit, is_identifier_char, lemma_run_end, line_at, newlines_before, run_end,
    CharClass,
};
use crate::token::{keyword, LiteralView, TokenType, TokenView};

verus! {

/// The kind of a punctuation character that is a token by itself, whatever follows.
pub open spec fn punctuation(c: char) -> Option<TokenType> {
    match c {
        '(' => Some(TokenType::Lparen),
        ')' => Some(TokenType::Rparen),
        '{' => Some(TokenType::Lbrace),
        '}' => Some(TokenType::Rbrace),
        ',' => Some(TokenType::Comma),
        '.' => Some(TokenType::Dot),
        '+' => Some(TokenType::Plus),
        '-' => Some(TokenType::Minus),
        ';' => Some(TokenType::Semicolon),
        '*' => Some(TokenType::Star),
        _ => None,
    }
}

/// The two kinds that an operator character begins: the first where it stands
/// alone, the second where `=` follows it.
pub open spec fn operator(c: char) -> Option<(TokenType, TokenType)> {
    match c {
        '=' => Some((TokenType::Equal, TokenType::DoubleEqual)),
        '!' => Some((TokenType::Bang, TokenType::BangEqual)),
        '<' => Some((TokenType::Less, TokenType::LessEqual)),
        '>' => Some((TokenType::Greater, TokenType::GreaterEqual)),
        _ => None,
    }
}

/// What one step of the scanner yields: where the next step begins, the token
/// that was recognised, if any, and the diagnostic that was recorded, if any.
pub struct Step {
    pub next: int,
    pub token: Option<TokenView>,
    pub error: Option<DiagnosticView>,
}

impl Step {
    /// The token of the step as a sequence of at most one token.
    pub open spec fn tokens(self) -> Seq<TokenView> {
        match self.token {
            Some(token) => seq![token],
            None => Seq::empty(),
        }
    }

    /// The diagnostic of the step as a sequence of at most one diagnostic.
    pub open spec fn diagnostics(self) -> Seq<DiagnosticView> {
        match self.error {
            Some(error) => seq![error],
            None => Seq::empty(),
        }
    }
}

/// A step that recognises the characters from `from` to `to` as one token.
pub open spec fn emit(s: Seq<char>, from: int, to: int, typ: TokenType, literal: LiteralView) -> Step {
    Step {
        next: to,
        token: Some(TokenView { typ, lexeme: s.subrange(from, to), literal }),
        error: None,
    }
}

/// A step that passes over characters without a token.
pub open spec fn skip(to: int) -> Step {
    Step { next: to, token: None, error: None }
}

/// A step that records an error at position `at` and goes on at `next`.
pub open spec fn fail(s: Seq<char>, next: int, at: int, kind: ErrorKind) -> Step {
    Step {
        next,
        token: None,
        error: Some(DiagnosticView { line: line_at(s, at), offset: at as nat, kind }),
    }
}

/// The character at `pos` is followed by `c`.
pub open spec fn followed_by(s: Seq<char>, pos: int, c: char) -> bool {
    pos + 1 < s.len() && s[pos + 1] == c
}

/// The step at a `/`: a second `/` opens a comment that runs up to the next
/// newline or the end of the text; otherwise the slash is a token.
pub open spec fn slash_step(s: Seq<char>, pos: int) -> Step {
    if followed_by(s, pos, '/') {
        skip(run_end(s, pos + 2, CharClass::CommentBody))
    } else {
        emit(s, pos, pos + 1, TokenType::Slash, LiteralView::Null)
    }
}

/// The step at an opening quote. The literal runs to the next quote, over
/// newlines too, and no escape is known; its value is the text between the
/// quotes. Without a closing quote the rest of the text is given up, and the
/// error is recorded at the end of the text.
pub open spec fn string_step(s: Seq<char>, pos: int) -> Step {
    let close = run_end(s, pos + 1, CharClass::StringBody);
    if close >= s.len() {
        fail(s, s.len() as int, s.len() as int, ErrorKind::UnterminatedString)
    } else {
        emit(s, pos, close + 1, TokenType::String, LiteralView::Str(s.subrange(pos + 1, close)))
    }
}

/// A point stands at `whole_end` and a digit follows it.
pub open spec fn has_fraction(s: Seq<char>, whole_end: int) -> bool {
    0 <= whole_end && whole_end + 1 < s.len() && s[whole_end] == '.' && is_digit(s[whole_end + 1])
}

/// The step at a digit: a maximal run of digits and, where a point and a
/// digit follow it, that point and a further maximal run of digits.
pub open spec fn number_step(s: Seq<char>, pos: int) -> Step {
    let whole_end = run_end(s, pos, CharClass::Digit);
    if has_fraction(s, whole_end) {
        let end = run_end(s, whole_end + 1, CharClass::Digit);
        emit(
            s,
            pos,
            end,
            TokenType::Number,
            LiteralView::Number(
                DecimalView {
                    whole: s.subrange(pos, whole_end),
                    fraction: s.subrange(whole_end + 1, end),
                },
            ),
        )
    } else {
        emit(
            s,
            pos,
            whole_end,
            TokenType::Number,
            LiteralView::Number(
                DecimalView { whole: s.subrange(pos, whole_end), fraction: Seq::empty() },
            ),
        )
    }
}

/// The step at an identifier character: a maximal run of identifier
/// characters, which is a keyword where the whole run spells a reserved word
/// and an identifier otherwise.
pub open spec fn identifier_step(s: Seq<char>, pos: int) -> Step {
    let end = run_end(s, pos, CharClass::Identifier);
    let typ = match keyword(s.subrange(pos, end)) {
        Some(reserved) => reserved,
        None => TokenType::Identifier,
    };
    emit(s, pos, end, typ, LiteralView::Null)
}

/// The step at an operator character: the two-character token where `=`
/// follows, the one-character token otherwise.
pub open spec fn operator_step(s: Seq<char>, pos: int, kinds: (TokenType, TokenType)) -> Step {
    if followed_by(s, pos, '=') {
        emit(s, pos, pos + 2, kinds.1, LiteralView::Null)
    } else {
        emit(s, pos, pos + 1, kinds.0, LiteralView::Null)
    }
}

/// One step of the scanner at position `pos` of `s`.
pub open spec fn scan_step(s: Seq<char>, pos: int) -> Step
    recommends
        0 <= pos < s.len(),
{
    let c = s[pos];
    if punctuation(c) is Some {
        emit(s, pos, pos + 1, punctuation(c)->0, LiteralView::Null)
    } else if operator(c) is Some {
        operator_step(s, pos, operator(c)->0)
    } else if c == '/' {
        slash_step(s, pos)
    } else if c == '"' {
        string_step(s, pos)
    } else if c == '\n' || is_blank(c) {
        skip(pos + 1)
    } else if is_digit(c) {
        number_step(s, pos)
    } else if is_identifier_char(c) {
        identifier_step(s, pos)
    } else {
        fail(s, pos + 1, pos, ErrorKind::UnexpectedCharacter(c))
    }
}

/// Every step consumes at least one character and stays within the text.
pub proof fn lemma_step_advances(s: Seq<char>, pos: int)
    requires
        0 <= pos < s.len(),
    ensures
        pos < scan_step(s, pos).next <= s.len(),
{
    if followed_by(s, pos, '/') {
        lemma_run_end(s, pos + 2, CharClass::CommentBody);
    }
    lemma_run_end(s, pos + 1, CharClass::StringBody);
    lemma_run_end(s, pos, CharClass::Digit);
    lemma_run_end(s, pos, CharClass::Identifier);
    let whole_end = run_end(s, pos, CharClass::Digit);
    if has_fraction(s, whole_end) {
        lemma_run_end(s, whole_end + 1, CharClass::Digit);
    }
}

/// The token that ends every scan: no lexeme, no value.
pub open spec fn end_of_file() -> TokenView {
    TokenView { typ: TokenType::Eof, lexeme: Seq::empty(), literal: LiteralView::Null }
}

/// The tokens that the text yields from position `pos` on, the closing
/// end-of-file token included.
pub open spec fn tokens_from(s: Seq<char>, pos: int) -> Seq<TokenView>
    decreases s.len() - pos,
    via tokens_from_terminates
{
    if 0 <= pos < s.len() {
        scan_step(s, pos).tokens() + tokens_from(s, scan_step(s, pos).next)
    } else {
        seq![end_of_file()]
    }
}

#[via_fn]
proof fn tokens_from_terminates(s: Seq<char>, pos: int) {
    if 0 <= pos < s.len() {
        lemma_step_advances(s, pos);
    }
}

/// The diagnostics that the text yields from position `pos` on, in the order
/// of their positions.
pub open spec fn diagnostics_from(s: Seq<char>, pos: int) -> Seq<DiagnosticView>
    decreases s.len() - pos,
    via diagnostics_from_terminates
{
    if 0 <= pos < s.len() {
        scan_step(s, pos).diagnostics() + diagnostics_from(s, scan_step(s, pos).next)
    } else {
        Seq::empty()
    }
}

#[via_fn]
proof fn diagnostics_from_terminates(s: Seq<char>, pos: int) {
    if 0 <= pos < s.len() {
        lemma_step_advances(s, pos);
    }
}

/// The tokens of a whole source text.
pub open spec fn tokens(s: Seq<char>) -> Seq<TokenView> {
    tokens_from(s, 0)
}

/// The diagnostics of a whole source text.
pub open spec fn diagnostics(s: Seq<char>) -> Seq<DiagnosticView> {
    diagnostics_from(s, 0)
}

/// What holds of a diagnostic of the text `s`: it lies within the text, its
/// line is one more than the number of newlines strictly before its position,
/// an unexpected character is the character at its position, and an
/// unterminated string is reported at the end of the text.
pub open spec fn well_placed(s: Seq<char>, d: DiagnosticView) -> bool {
    &&& d.offset <= s.len()
    &&& d.line == newlines_before(s, d.offset as int) + 1
    &&& match d.kind {
        ErrorKind::UnexpectedCharacter(c) => d.offset < s.len() && s[d.offset as int] == c,
        ErrorKind::UnterminatedString => d.offset == s.len(),
    }
}

/// The diagnostics from `pos` on are well placed, lie at or after `pos`, and
/// stand in the order of their positions.
pub proof fn lemma_diagnostics_from(s: Seq<char>, pos: int)
    requires
        0 <= pos <= s.len(),
    ensures
        forall|i: int|
            0 <= i < diagnostics_from(s, pos).len() ==> well_placed(
                s,
                #[trigger] diagnostics_from(s, pos)[i],
            ) && pos <= diagnostics_from(s, pos)[i].offset,
        forall|i: int, j: int|
            0 <= i < j < diagnostics_from(s, pos).len() ==> (#[trigger] diagnostics_from(
                s,
                pos,
            )[i]).offset < (#[trigger] diagnostics_from(s, pos)[j]).offset,
    decreases s.len() - pos,
{
    if pos < s.len() {
        let step = scan_step(s, pos);
        lemma_step_advances(s, pos);
        lemma_diagnostics_from(s, step.next);
        let rest = diagnostics_from(s, step.next);
        let all = diagnostics_from(s, pos);
        assert(all == step.diagnostics() + rest);
        match step.error {
            Some(error) => {
                assert(well_placed(s, error));
                assert(error.offset < step.next || rest.len() == 0);
                assert forall|i: int| 0 <= i < all.len() implies well_placed(s, #[trigger] all[i])
                    && pos <= all[i].offset by {
                    if i > 0 {
                        assert(all[i] == rest[i - 1]);
                    }
                }
                assert forall|i: int, j: int| 0 <= i < j < all.len() implies (#[trigger] all[i]).offset
                    < (#[trigger] all[j]).offset by {
                    assert(all[j] == rest[j - 1]);
                    if i > 0 {
                        assert(all[i] == rest[i - 1]);
                    }
                }
            },
            None => {
                assert(all =~= rest);
            },
        }
    }
}

/// The line of every diagnostic of a text is one more than the number of
/// newline characters strictly before the offending position, which is that
/// of the unexpected character, or the end of the text for a string left open.
pub proof fn lemma_diagnostic_lines(s: Seq<char>, i: int)
    requires
        0 <= i < diagnostics(s).len(),
    ensures
        well_placed(s, diagnostics(s)[i]),
{
    lemma_diagnostics_from(s, 0);
}

/// A token carries a value exactly when it is a string or a number, and the
/// value is what the lexeme writes: the text between the quotes of a string,
/// the digits on the two sides of the point of a number.
pub open spec fn value_fits_kind(token: TokenView) -> bool {
    match token.literal {
        LiteralView::Null => token.typ != TokenType::String && token.typ != TokenType::Number,
        LiteralView::Str(content) => {
            &&& token.typ == TokenType::String
            &&& token.lexeme == seq!['"'] + content + seq!['"']
            &&& !content.contains('"')
        },
        LiteralView::Number(number) => {
            &&& token.typ == TokenType::Number
            &&& number.wf()
            &&& token.lexeme == number.written()
        },
    }
}

/// The token of a step, if there is one, is no end-of-file token, its lexeme
/// is the stretch of text that the step consumed, and its value fits its kind.
pub proof fn lemma_step_token(s: Seq<char>, pos: int)
    requires
        0 <= pos < s.len(),
    ensures
        scan_step(s, pos).token matches Some(token) ==> {
            &&& token.typ != TokenType::Eof
            &&& token.lexeme == s.subrange(pos, scan_step(s, pos).next)
            &&& value_fits_kind(token)
        },
{
    lemma_step_advances(s, pos);
    lemma_run_end(s, pos, CharClass::Digit);
    lemma_run_end(s, pos, CharClass::Identifier);
    lemma_run_end(s, pos + 1, CharClass::StringBody);
    let whole_end = run_end(s, pos, CharClass::Digit);
    if has_fraction(s, whole_end) {
        lemma_run_end(s, whole_end + 1, CharClass::Digit);
    }
    let end = run_end(s, pos, CharClass::Identifier);
    lemma_keyword_is_no_end(s.subrange(pos, end));
    let c = s[pos];
    if c == '"' {
        let close = run_end(s, pos + 1, CharClass::StringBody);
        if close < s.len() {
            let content = s.subrange(pos + 1, close);
            assert(s.subrange(pos, close + 1) =~= seq!['"'] + content + seq!['"']);
            assert forall|i: int| 0 <= i < content.len() implies content[i] != '"' by {
                assert(CharClass::StringBody.holds(s[pos + 1 + i]));
            }
        }
    } else if is_digit(c) {
        let whole = s.subrange(pos, whole_end);
        assert forall|i: int| 0 <= i < whole.len() implies is_digit(#[trigger] whole[i]) by {
            assert(CharClass::Digit.holds(s[pos + i]));
        }
        if has_fraction(s, whole_end) {
            let last = run_end(s, whole_end + 1, CharClass::Digit);
            let fraction = s.subrange(whole_end + 1, last);
            assert(s.subrange(pos, last) =~= whole + seq!['.'] + fraction);
            assert forall|i: int| 0 <= i < fraction.len() implies is_digit(#[trigger] fraction[i]) by {
                assert(CharClass::Digit.holds(s[whole_end + 1 + i]));
            }
        }
    }
}

/// No reserved word stands for the end of file, a string, a number or an identifier.
pub proof fn lemma_keyword_is_no_end(text: Seq<char>)
    ensures
        keyword(text) != Some(TokenType::Eof),
        keyword(text) != Some(TokenType::String),
        keyword(text) != Some(TokenType::Number),
        keyword(text) != Some(TokenType::Identifier),
{
}

/// Where the tokens from `pos` on lie in the text: for each token before the
/// end-of-file token, the position of its first character and the position
/// after its last.
pub open spec fn spans_from(s: Seq<char>, pos: int) -> Seq<(int, int)>
    decreases s.len() - pos,
    via spans_from_terminates
{
    if 0 <= pos < s.len() {
        let step = scan_step(s, pos);
        (if step.token is Some {
            seq![(pos, step.next)]
        } else {
            Seq::empty()
        }) + spans_from(s, step.next)
    } else {
        Seq::empty()
    }
}

#[via_fn]
proof fn spans_from_terminates(s: Seq<char>, pos: int) {
    if 0 <= pos < s.len() {
        lemma_step_advances(s, pos);
    }
}

/// Where the tokens of a whole source text lie in it.
pub open spec fn spans(s: Seq<char>) -> Seq<(int, int)> {
    spans_from(s, 0)
}

/// The tokens from `pos` on are one more than their spans, the last being the
/// end-of-file token. Each span lies within the text at or after `pos` and is
/// not empty, the step at its start yields its token and ends at its end, and
/// the spans follow one another without overlap.
pub proof fn lemma_spans_from(s: Seq<char>, pos: int)
    requires
        0 <= pos <= s.len(),
    ensures
        tokens_from(s, pos).len() == spans_from(s, pos).len() + 1,
        tokens_from(s, pos).last() == end_of_file(),
        forall|i: int|
            0 <= i < spans_from(s, pos).len() ==> {
                let span = #[trigger] spans_from(s, pos)[i];
                &&& pos <= span.0 < span.1 <= s.len()
                &&& scan_step(s, span.0).token == Some(tokens_from(s, pos)[i])
                &&& scan_step(s, span.0).next == span.1
            },
        forall|i: int, j: int|
            0 <= i < j < spans_from(s, pos).len() ==> (#[trigger] spans_from(s, pos)[i]).1 <= (
            #[trigger] spans_from(s, pos)[j]).0,
    decreases s.len() - pos,
{
    if pos < s.len() {
        let step = scan_step(s, pos);
        lemma_step_advances(s, pos);
        lemma_spans_from(s, step.next);
        let all = spans_from(s, pos);
        let rest = spans_from(s, step.next);
        let skipped = step.tokens().len() as int;
        assert(tokens_from(s, pos) == step.tokens() + tokens_from(s, step.next));
        assert(all.len() == skipped + rest.len());
        assert forall|i: int| 0 <= i < all.len() implies ({
            let span = #[trigger] all[i];
            &&& pos <= span.0 < span.1 <= s.len()
            &&& scan_step(s, span.0).token == Some(tokens_from(s, pos)[i])
            &&& scan_step(s, span.0).next == span.1
        }) by {
            if i >= skipped {
                assert(all[i] == rest[i - skipped]);
            }
        }
        assert forall|i: int, j: int| 0 <= i < j < all.len() implies (#[trigger] all[i]).1 <= (
        #[trigger] all[j]).0 by {
            assert(all[j] == rest[j - skipped]);
            if i >= skipped {
                assert(all[i] == rest[i - skipped]);
            }
        }
    }
}

/// The token lies at the span: the span is a stretch of the text that is not
/// empty and is the token's lexeme. The token is no end-of-file token, and it
/// carries the value, if any, that its lexeme writes.
pub open spec fn lies_at(s: Seq<char>, token: TokenView, span: (int, int)) -> bool {
    &&& 0 <= span.0 < span.1 <= s.len()
    &&& token.lexeme == s.subrange(span.0, span.1)
    &&& token.typ != TokenType::Eof
    &&& value_fits_kind(token)
}

/// The tokens of a text end with exactly one end-of-file token, which has no
/// lexeme and no value. Every other token lies at its span, and the spans
/// stand in the order of the tokens and do not overlap.
pub proof fn lemma_tokens_are_well_formed(s: Seq<char>)
    ensures
        tokens(s).len() == spans(s).len() + 1,
        tokens(s).last() == end_of_file(),
        forall|i: int| 0 <= i < spans(s).len() ==> lies_at(s, tokens(s)[i], #[trigger] spans(s)[i]),
        forall|i: int, j: int|
            0 <= i < j < spans(s).len() ==> (#[trigger] spans(s)[i]).1 <= (#[trigger] spans(s)[j]).0,
{
    lemma_spans_from(s, 0);
    assert forall|i: int| 0 <= i < spans(s).len() implies lies_at(
        s,
        tokens(s)[i],
        #[trigger] spans(s)[i],
    ) by {
        lemma_step_token(s, spans(s)[i].0);
    }
}

} // verus!
