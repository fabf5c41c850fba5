//! The scanner: a forward-only cursor over the source text that gathers
//! tokens and diagnostics.

use vstd::prelude::*;
use crate::decimal::Decimal;
use crate::diagnostic::{Diagnostic, DiagnosticView, ErrorKind};
use crate::grammar::{
    diagnostics, diagnostics_from, identifier_step, lemma_diagnostics_from, lemma_step_advances,
    number_step, scan_step, string_step, tokens, tokens_from, well_placed, Step,
};
use crate::source::Source;
use crate::text::{
    is_digit, is_identifier_char, lemma_newlines_before_bound, lemma_newlines_before_step,
    lemma_run_end, line_at, newlines_before, run_end, same_text, CharClass,
};
use crate::token::{keyword, Literal, Token, TokenType, TokenView};

verus! {

/// A scanner over one source text.
///
/// The scanner borrows the text and owns the cursor, the tokens and the
/// diagnostics that it has gathered so far.
pub struct Scanner<'a> {
    input: Source<'a>,
    tokens: Vec<Token<'a>>,
    diagnostics: Vec<Diagnostic>,
    /// Where the token that is being scanned began.
    start: usize,
    /// The next character to consume.
    current: usize,
    /// The number of newlines consumed so far; the current line is one more.
    newlines: usize,
    /// Whether any malformed unit of text has been met. Scanning only ever
    /// sets it.
    pub error_found: bool,
}

impl<'a> Scanner<'a> {
    /// The source text.
    pub closed spec fn source(&self) -> Seq<char> {
        self.input@
    }

    /// The position of the next character to consume.
    pub closed spec fn position(&self) -> int {
        self.current as int
    }

    /// The tokens gathered so far.
    pub closed spec fn emitted(&self) -> Seq<TokenView> {
        self.tokens.deep_view()
    }

    /// The diagnostics gathered so far.
    pub closed spec fn reported(&self) -> Seq<DiagnosticView> {
        self.diagnostics.deep_view()
    }

    /// The one-based line that the cursor is on.
    pub closed spec fn line(&self) -> nat {
        self.newlines as nat + 1
    }

    /// Whether a malformed unit of text has been met: the value of `error_found`.
    pub closed spec fn failed(&self) -> bool {
        self.error_found
    }

    /// The scanner stands at the start of its text and has gathered nothing.
    pub open spec fn fresh(&self) -> bool {
        &&& self.wf()
        &&& self.position() == 0
        &&& self.line() == 1
        &&& self.emitted().len() == 0
        &&& self.reported().len() == 0
        &&& !self.failed()
    }

    /// The scanner holds the outcome of one scan of its whole text: the
    /// tokens and the diagnostics of that text, and the error flag is set
    /// exactly when there is a diagnostic.
    pub open spec fn scanned(&self) -> bool {
        &&& self.wf()
        &&& self.position() == self.source().len()
        &&& self.line() == line_at(self.source(), self.source().len() as int)
        &&& self.emitted() == tokens(self.source())
        &&& self.reported() == diagnostics(self.source())
        &&& self.failed() == (diagnostics(self.source()).len() > 0)
    }

    /// The cursor lies within the text.
    spec fn cursor_ok(&self) -> bool {
        &&& self.start <= self.current <= self.input@.len() <= usize::MAX
    }

    /// The cursor lies within the text and the line counter agrees with it.
    pub closed spec fn wf(&self) -> bool {
        &&& self.cursor_ok()
        &&& self.newlines == newlines_before(self.input@, self.current as int)
    }

    /// Makes a scanner that stands at the start of `input` and has gathered nothing.
    pub fn new(input: &'a String) -> (r: Self)
        ensures
            r.fresh(),
            r.source() == input@,
    {
        let r = Scanner {
            input: Source::new(input.as_str()),
            tokens: Vec::new(),
            diagnostics: Vec::new(),
            start: 0,
            current: 0,
            newlines: 0,
            error_found: false,
        };
        proof {
            crate::text::lemma_newlines_before_start(input@);
            assert(r.tokens.deep_view() =~= Seq::<TokenView>::empty());
            assert(r.diagnostics.deep_view() =~= Seq::<DiagnosticView>::empty());
        }
        r
    }

    /// Looks a word up among the reserved words.
    pub fn parse_keyword(lexeme: &str) -> (r: Option<TokenType>)
        ensures
            r == keyword(lexeme@),
    {
        if same_text(lexeme, "and") {
            Some(TokenType::And)
        } else if same_text(lexeme, "class") {
            Some(TokenType::Class)
        } else if same_text(lexeme, "else") {
            Some(TokenType::Else)
        } else if same_text(lexeme, "false") {
            Some(TokenType::False)
        } else if same_text(lexeme, "for") {
            Some(TokenType::For)
        } else if same_text(lexeme, "fun") {
            Some(TokenType::Fun)
        } else if same_text(lexeme, "if") {
            Some(TokenType::If)
        } else if same_text(lexeme, "nil") {
            Some(TokenType::Nil)
        } else if same_text(lexeme, "or") {
            Some(TokenType::Or)
        } else if same_text(lexeme, "print") {
            Some(TokenType::Print)
        } else if same_text(lexeme, "return") {
            Some(TokenType::Return)
        } else if same_text(lexeme, "super") {
            Some(TokenType::Super)
        } else if same_text(lexeme, "this") {
            Some(TokenType::This)
        } else if same_text(lexeme, "true") {
            Some(TokenType::True)
        } else if same_text(lexeme, "var") {
            Some(TokenType::Var)
        } else if same_text(lexeme, "while") {
            Some(TokenType::While)
        } else {
            None
        }
    }

    /// Tells whether `c` may stand in an identifier.
    pub fn valid_lox_identifier(c: char) -> (r: bool)
        ensures
            r == crate::text::is_identifier_char(c),
    {
        CharClass::Identifier.contains(c)
    }

    fn is_at_end(&self) -> (r: bool)
        ensures
            r == (self.current >= self.input@.len()),
    {
        self.current >= self.input.len()
    }

    /// Consumes the next character and returns it.
    fn advance(&mut self) -> (c: char)
        requires
            old(self).cursor_ok(),
            old(self).current < old(self).input@.len(),
        ensures
            *final(self) == (Scanner { current: (old(self).current + 1) as usize, ..*old(self) }),
            c == old(self).input@[old(self).current as int],
    {
        let c = self.input.char_at(self.current);
        self.current += 1;
        c
    }

    /// Consumes the next character if it is `expected`.
    fn match_char(&mut self, expected: char) -> (r: bool)
        requires
            old(self).cursor_ok(),
        ensures
            r == (old(self).current < old(self).input@.len() && old(self).input@[old(self).current as int]
                == expected),
            *final(self) == (Scanner {
                current: (if r {
                    old(self).current + 1
                } else {
                    old(self).current as int
                }) as usize,
                ..*old(self)
            }),
    {
        if self.is_at_end() {
            return false;
        }
        if self.input.char_at(self.current) != expected {
            return false;
        }
        self.current += 1;
        true
    }

    /// The next character, or NUL at the end of the text.
    fn peek(&self) -> (c: char)
        requires
            self.cursor_ok(),
        ensures
            c == (if self.current < self.input@.len() {
                self.input@[self.current as int]
            } else {
                '\0'
            }),
    {
        if self.is_at_end() {
            '\0'
        } else {
            self.input.char_at(self.current)
        }
    }

    /// The character after the next, or NUL where the text ends before it.
    fn peek_next(&self) -> (c: char)
        requires
            self.cursor_ok(),
        ensures
            c == (if self.current + 1 < self.input@.len() {
                self.input@[self.current + 1]
            } else {
                '\0'
            }),
    {
        if self.current >= self.input.len() || self.current + 1 >= self.input.len() {
            '\0'
        } else {
            self.input.char_at(self.current + 1)
        }
    }

    /// Appends the token whose lexeme runs from `start` to `current`.
    fn add_token(&mut self, typ: TokenType, literal: Literal<'a>)
        requires
            old(self).cursor_ok(),
        ensures
            *final(self) == (Scanner { tokens: final(self).tokens, ..*old(self) }),
            final(self).tokens.deep_view() == old(self).tokens.deep_view().push(
                TokenView {
                    typ,
                    lexeme: old(self).input@.subrange(
                        old(self).start as int,
                        old(self).current as int,
                    ),
                    literal: literal@,
                },
            ),
    {
        let text = self.input.slice(self.start, self.current);
        self.tokens.push(Token::new(typ, text, literal));
        assert(self.tokens.deep_view() =~= old(self).tokens.deep_view().push(
            TokenView {
                typ,
                lexeme: old(self).input@.subrange(old(self).start as int, old(self).current as int),
                literal: literal@,
            },
        ));
    }

    /// Records an error of the given kind at position `offset`, on the current line.
    fn report_error(&mut self, offset: usize, kind: ErrorKind)
        requires
            old(self).newlines < usize::MAX,
        ensures
            *final(self) == (Scanner {
                diagnostics: final(self).diagnostics,
                error_found: true,
                ..*old(self)
            }),
            final(self).diagnostics.deep_view() == old(self).diagnostics.deep_view().push(
                DiagnosticView { line: (old(self).newlines + 1) as nat, offset: offset as nat, kind },
            ),
    {
        self.diagnostics.push(Diagnostic { line: self.newlines + 1, offset, kind });
        self.error_found = true;
        assert(self.diagnostics.deep_view() =~= old(self).diagnostics.deep_view().push(
            DiagnosticView { line: (old(self).newlines + 1) as nat, offset: offset as nat, kind },
        ));
    }

    /// `self` is what `before` becomes by the step `step`: the cursor stands where
    /// the step ends, and the step's token and diagnostic have been gathered.
    spec fn follows(&self, before: &Self, step: Step) -> bool {
        &&& self.wf()
        &&& self.input == before.input
        &&& self.current == step.next
        &&& self.tokens.deep_view() == before.tokens.deep_view() + step.tokens()
        &&& self.diagnostics.deep_view() == before.diagnostics.deep_view() + step.diagnostics()
        &&& self.error_found == (before.error_found || step.error is Some)
    }

    /// Scans the rest of a string literal whose opening quote has been consumed.
    fn scan_string_literal(&mut self)
        requires
            old(self).wf(),
            old(self).current == old(self).start + 1,
            old(self).input@[old(self).start as int] == '"',
        ensures
            final(self).follows(old(self), string_step(old(self).input@, old(self).start as int)),
    {
        let ghost s = self.input@;
        let ghost begin = self.start as int;
        while self.peek() != '"' && !self.is_at_end()
            invariant
                self.wf(),
                *self == (Scanner { current: self.current, newlines: self.newlines, ..*old(self) }),
                s == self.input@,
                begin == self.start < self.current,
                run_end(s, self.current as int, CharClass::StringBody) == run_end(
                    s,
                    begin + 1,
                    CharClass::StringBody,
                ),
            decreases self.input@.len() - self.current,
        {
            proof {
                lemma_newlines_before_step(s, self.current as int);
                lemma_newlines_before_bound(s, self.current as int);
            }
            if self.peek() == '\n' {
                self.newlines += 1;
            }
            self.advance();
        }
        if self.is_at_end() {
            proof {
                assert(s[begin] != '\n');
                lemma_newlines_before_bound(s, self.current as int);
            }
            self.report_error(self.current, ErrorKind::UnterminatedString);
            proof {
                let step = string_step(s, begin);
                assert(self.diagnostics.deep_view() =~= old(self).diagnostics.deep_view()
                    + step.diagnostics());
                assert(self.tokens.deep_view() =~= old(self).tokens.deep_view() + step.tokens());
            }
            return ;
        }
        proof {
            lemma_newlines_before_step(s, self.current as int);
        }
        // The closing quote.
        self.advance();
        let string_literal = self.input.slice(self.start + 1, self.current - 1);
        self.add_token(TokenType::String, Literal::Str(string_literal));
        proof {
            let step = string_step(s, begin);
            assert(self.diagnostics.deep_view() =~= old(self).diagnostics.deep_view()
                + step.diagnostics());
            assert(self.tokens.deep_view() =~= old(self).tokens.deep_view() + step.tokens());
        }
    }

    /// Consumes the maximal run of digits at the cursor.
    fn skip_digits(&mut self)
        requires
            old(self).wf(),
        ensures
            *final(self) == (Scanner {
                current: final(self).current,
                ..*old(self)
            }),
            final(self).wf(),
            final(self).current == run_end(
                old(self).input@,
                old(self).current as int,
                CharClass::Digit,
            ),
    {
        let ghost s = self.input@;
        while CharClass::Digit.contains(self.peek())
            invariant
                self.wf(),
                *self == (Scanner { current: self.current, ..*old(self) }),
                s == self.input@,
                run_end(s, self.current as int, CharClass::Digit) == run_end(
                    s,
                    old(self).current as int,
                    CharClass::Digit,
                ),
            decreases self.input@.len() - self.current,
        {
            proof {
                lemma_newlines_before_step(s, self.current as int);
            }
            self.advance();
        }
    }

    /// Scans the rest of a number literal whose first digit has been consumed.
    fn scan_number_literal(&mut self)
        requires
            old(self).wf(),
            old(self).current == old(self).start + 1,
            is_digit(old(self).input@[old(self).start as int]),
        ensures
            final(self).follows(old(self), number_step(old(self).input@, old(self).start as int)),
    {
        let ghost s = self.input@;
        let ghost begin = self.start as int;
        self.skip_digits();
        let whole_end: usize = self.current;
        let mut fraction: &'a str = "";
        proof {
            reveal_strlit("");
            assert(fraction@ =~= Seq::<char>::empty());
        }
        if self.peek() == '.' && CharClass::Digit.contains(self.peek_next()) {
            proof {
                lemma_newlines_before_step(s, self.current as int);
            }
            // The point.
            self.advance();
            self.skip_digits();
            proof {
                lemma_run_end(s, whole_end + 1, CharClass::Digit);
            }
            fraction = self.input.slice(whole_end + 1, self.current);
        }
        let whole = self.input.slice(self.start, whole_end);
        self.add_token(TokenType::Number, Literal::Number(Decimal { whole, fraction }));
        proof {
            let step = number_step(s, begin);
            assert(self.diagnostics.deep_view() =~= old(self).diagnostics.deep_view()
                + step.diagnostics());
            assert(self.tokens.deep_view() =~= old(self).tokens.deep_view() + step.tokens());
        }
    }

    /// Scans the rest of an identifier or keyword whose first character has been consumed.
    fn scan_identifier(&mut self)
        requires
            old(self).wf(),
            old(self).current == old(self).start + 1,
            is_identifier_char(old(self).input@[old(self).start as int]),
        ensures
            final(self).follows(
                old(self),
                identifier_step(old(self).input@, old(self).start as int),
            ),
    {
        let ghost s = self.input@;
        let ghost begin = self.start as int;
        while Self::valid_lox_identifier(self.peek())
            invariant
                self.wf(),
                *self == (Scanner { current: self.current, ..*old(self) }),
                s == self.input@,
                run_end(s, self.current as int, CharClass::Identifier) == run_end(
                    s,
                    begin,
                    CharClass::Identifier,
                ),
            decreases self.input@.len() - self.current,
        {
            proof {
                lemma_newlines_before_step(s, self.current as int);
            }
            self.advance();
        }
        let text = self.input.slice(self.start, self.current);
        let token_type = match Self::parse_keyword(text) {
            Some(tt) => tt,
            None => TokenType::Identifier,
        };
        self.add_token(token_type, Literal::Null);
        proof {
            let step = identifier_step(s, begin);
            assert(self.diagnostics.deep_view() =~= old(self).diagnostics.deep_view()
                + step.diagnostics());
            assert(self.tokens.deep_view() =~= old(self).tokens.deep_view() + step.tokens());
        }
    }

    /// Scans one unit of text: a token, a comment, white space or a malformed unit.
    fn scan_token(&mut self)
        requires
            old(self).wf(),
            old(self).start == old(self).current,
            old(self).current < old(self).input@.len(),
        ensures
            final(self).follows(old(self), scan_step(old(self).input@, old(self).current as int)),
    {
        let ghost s = self.input@;
        let ghost begin = self.start as int;
        proof {
            lemma_newlines_before_step(s, begin);
            lemma_newlines_before_bound(s, begin);
            if begin + 1 < s.len() {
                lemma_newlines_before_step(s, begin + 1);
            }
        }
        let c = self.advance();

        match c {
            '(' => self.add_token(TokenType::Lparen, Literal::Null),
            ')' => self.add_token(TokenType::Rparen, Literal::Null),
            '{' => self.add_token(TokenType::Lbrace, Literal::Null),
            '}' => self.add_token(TokenType::Rbrace, Literal::Null),
            ',' => self.add_token(TokenType::Comma, Literal::Null),
            '.' => self.add_token(TokenType::Dot, Literal::Null),
            '+' => self.add_token(TokenType::Plus, Literal::Null),
            '-' => self.add_token(TokenType::Minus, Literal::Null),
            ';' => self.add_token(TokenType::Semicolon, Literal::Null),
            '*' => self.add_token(TokenType::Star, Literal::Null),
            '=' => {
                let token_type = if self.match_char('=') {
                    TokenType::DoubleEqual
                } else {
                    TokenType::Equal
                };
                self.add_token(token_type, Literal::Null);
            },
            '!' => {
                let token_type = if self.match_char('=') {
                    TokenType::BangEqual
                } else {
                    TokenType::Bang
                };
                self.add_token(token_type, Literal::Null);
            },
            '>' => {
                let token_type = if self.match_char('=') {
                    TokenType::GreaterEqual
                } else {
                    TokenType::Greater
                };
                self.add_token(token_type, Literal::Null);
            },
            '<' => {
                let token_type = if self.match_char('=') {
                    TokenType::LessEqual
                } else {
                    TokenType::Less
                };
                self.add_token(token_type, Literal::Null);
            },
            '/' => {
                if self.match_char('/') {
                    while self.peek() != '\n' && !self.is_at_end()
                        invariant
                            self.wf(),
                            *self == (Scanner { current: self.current, ..*old(self) }),
                            s == self.input@,
                            run_end(s, self.current as int, CharClass::CommentBody) == run_end(
                                s,
                                begin + 2,
                                CharClass::CommentBody,
                            ),
                        decreases self.input@.len() - self.current,
                    {
                        proof {
                            lemma_newlines_before_step(s, self.current as int);
                        }
                        // The comment is passed over.
                        let _ = self.advance();
                    }
                } else {
                    self.add_token(TokenType::Slash, Literal::Null);
                }
            },
            '"' => self.scan_string_literal(),
            '\n' => self.newlines += 1,
            ' ' | '\r' | '\t' => {},
            other => {
                if CharClass::Digit.contains(other) {
                    self.scan_number_literal();
                } else if Self::valid_lox_identifier(c) {
                    self.scan_identifier();
                } else {
                    self.report_error(self.start, ErrorKind::UnexpectedCharacter(other));
                }
            },
        };
        proof {
            let step = scan_step(s, begin);
            assert(self.diagnostics.deep_view() =~= old(self).diagnostics.deep_view()
                + step.diagnostics());
            assert(self.tokens.deep_view() =~= old(self).tokens.deep_view() + step.tokens());
        }
    }

    /// Scans the text from the cursor to its end, closes the tokens with the
    /// end-of-file token, and returns all tokens gathered.
    ///
    /// On a scanner fresh from `new` these are the tokens of the whole text.
    /// Malformed units are recorded as diagnostics and passed over; the line
    /// of each diagnostic is one more than the number of newlines before the
    /// offending position.
    pub fn scan_tokens(&mut self) -> (out: Vec<Token<'a>>)
        requires
            old(self).wf(),
        ensures
            final(self).wf(),
            final(self).source() == old(self).source(),
            final(self).position() == old(self).source().len(),
            final(self).line() == line_at(old(self).source(), old(self).source().len() as int),
            final(self).emitted() == old(self).emitted() + tokens_from(
                old(self).source(),
                old(self).position(),
            ),
            final(self).reported() == old(self).reported() + diagnostics_from(
                old(self).source(),
                old(self).position(),
            ),
            final(self).failed() == (old(self).failed() || diagnostics_from(
                old(self).source(),
                old(self).position(),
            ).len() > 0),
            forall|i: int|
                old(self).reported().len() <= i < final(self).reported().len() ==> well_placed(
                    old(self).source(),
                    #[trigger] final(self).reported()[i],
                ),
            out.deep_view() == final(self).emitted(),
            old(self).fresh() ==> final(self).scanned(),
    {
        let ghost s = self.input@;
        let ghost begin = self.current as int;
        while !self.is_at_end()
            invariant
                self.wf(),
                self.input == old(self).input,
                s == self.input@,
                self.tokens.deep_view() + tokens_from(s, self.current as int) == old(
                    self,
                ).tokens.deep_view() + tokens_from(s, begin),
                self.diagnostics.deep_view() + diagnostics_from(s, self.current as int) == old(
                    self,
                ).diagnostics.deep_view() + diagnostics_from(s, begin),
                (self.error_found || diagnostics_from(s, self.current as int).len() > 0) == (old(
                    self,
                ).error_found || diagnostics_from(s, begin).len() > 0),
            decreases self.input@.len() - self.current,
        {
            self.start = self.current;
            let ghost before = *self;
            proof {
                lemma_step_advances(s, self.current as int);
            }
            self.scan_token();
            proof {
                assert(self.tokens.deep_view() + tokens_from(s, self.current as int)
                    =~= before.tokens.deep_view() + tokens_from(s, before.current as int));
                assert(self.diagnostics.deep_view() + diagnostics_from(s, self.current as int)
                    =~= before.diagnostics.deep_view() + diagnostics_from(
                    s,
                    before.current as int,
                ));
            }
        }

        let eof_token = Token::new(TokenType::Eof, "", Literal::Null);
        self.tokens.push(eof_token);
        proof {
            reveal_strlit("");
            assert(eof_token@.lexeme =~= Seq::<char>::empty());
            assert(self.tokens.deep_view() =~= old(self).tokens.deep_view() + tokens_from(s, begin));
            assert(diagnostics_from(s, self.current as int) =~= Seq::<DiagnosticView>::empty());
            assert(self.diagnostics.deep_view() =~= old(self).diagnostics.deep_view()
                + diagnostics_from(s, begin));
        }

        let out = self.tokens.clone();
        assert(out.deep_view() =~= self.tokens.deep_view());
        proof {
            lemma_diagnostics_from(s, begin);
            let earlier = old(self).diagnostics.deep_view();
            assert forall|i: int| earlier.len() <= i < self.diagnostics.deep_view().len() implies well_placed(
                s,
                #[trigger] self.diagnostics.deep_view()[i],
            ) by {
                assert(self.diagnostics.deep_view()[i] == diagnostics_from(s, begin)[i - earlier.len()]);
            }
            if old(self).fresh() {
                assert(self.tokens.deep_view() =~= tokens(s));
                assert(self.diagnostics.deep_view() =~= diagnostics(s));
            }
        }
        out
    }

    /// The number of newlines that the cursor has passed: one less than the
    /// number of the line that it is on.
    pub fn newlines(&self) -> (r: usize)
        ensures
            r + 1 == self.line(),
    {
        self.newlines
    }

    /// Tells whether a malformed unit of text has been met.
    pub fn had_error(&self) -> (r: bool)
        ensures
            r == self.failed(),
    {
        self.error_found
    }

    /// The diagnostics gathered so far, in the order in which they were met.
    pub fn diagnostics(&self) -> (r: &Vec<Diagnostic>)
        ensures
            r.deep_view() == self.reported(),
    {
        &self.diagnostics
    }
}

/// Scanning is a function of the text: two scanners that have each scanned
/// the same text hold the same tokens, the same diagnostics and the same
/// error flag.
pub proof fn lemma_scans_agree(first: Scanner, second: Scanner)
    requires
        first.scanned(),
        second.scanned(),
        first.source() == second.source(),
    ensures
        first.emitted() == second.emitted(),
        first.reported() == second.reported(),
        first.failed() == second.failed(),
{
}

} // verus!
